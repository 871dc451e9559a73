//! Preparing a call from host terms, and turning its outcome into a host reply.
use vstd::prelude::*;
use crate::codec::{
    decode_entries, decode_map_entries, decoded_fields, encode, encode_spec, key_text, nil_name,
    atom_term,
};
use crate::value::{
    BridgeError, Dyn, HostTerm, TypedValue, Value, fields_view, lemma_term_dict_view,
    lemma_term_tuple_view, pairs_view, term_view, terms_view,
};

verus! {

/// Client selection that overrides a function's default client.
#[derive(Clone, Debug, PartialEq, Eq)]
pub struct ClientRegistry {
    pub primary: Option<String>,
}

/// Everything a runtime call needs from the host's arguments.
#[derive(Debug, PartialEq, Eq)]
pub struct CallRequest {
    pub function_name: String,
    pub params: Vec<(String, TypedValue)>,
    pub client_registry: Option<ClientRegistry>,
}

/// What the runtime reported for one call, or for one partial result of a stream.
pub enum FunctionOutcome {
    /// A typed result.
    Parsed(TypedValue),
    /// The model output could not be parsed; the detail is the parser's.
    ParseFailed(String),
    /// The call completed without a parsed result.
    NoParsedValue,
    /// The runtime failed; the detail is the runtime's.
    Failed(String),
}

pub open spec fn error_text(e: BridgeError) -> Seq<char> {
    match e {
        BridgeError::UnsupportedType => "Unsupported type"@,
        BridgeError::InvalidArguments => "Arguments must be a map"@,
        BridgeError::InvalidRegistry => "Client registry must be nil or a map"@,
        BridgeError::RuntimeInitFailed => "Runtime could not be created"@,
        BridgeError::ExecutionFailed => "Function execution failed"@,
        BridgeError::NoParsedValue => "No parsed value available"@,
        BridgeError::UnsupportedMedia => "Media type not yet supported"@,
    }
}

impl BridgeError {
    /// A description of the failure for the host.
    pub fn message(&self) -> (r: String)
        ensures
            r@ == error_text(*self),
    {
        match self {
            BridgeError::UnsupportedType => "Unsupported type".to_owned(),
            BridgeError::InvalidArguments => "Arguments must be a map".to_owned(),
            BridgeError::InvalidRegistry => "Client registry must be nil or a map".to_owned(),
            BridgeError::RuntimeInitFailed => "Runtime could not be created".to_owned(),
            BridgeError::ExecutionFailed => "Function execution failed".to_owned(),
            BridgeError::NoParsedValue => "No parsed value available".to_owned(),
            BridgeError::UnsupportedMedia => "Media type not yet supported".to_owned(),
        }
    }
}

/// The arguments of a call: a host map, decoded entry by entry.
pub open spec fn arguments_spec(t: Dyn) -> Result<Seq<(Seq<char>, Value)>, BridgeError> {
    match t {
        Dyn::Dict(es) => decode_entries(es),
        _ => Err(BridgeError::InvalidArguments),
    }
}

/// The primary client named by registry entries; the last `primary` key wins and
/// other keys are ignored.
pub open spec fn registry_primary(es: Seq<(Dyn, Dyn)>) -> Result<Option<Seq<char>>, BridgeError>
    decreases es.len(),
{
    if es.len() == 0 {
        Ok(Option::None)
    } else {
        match registry_primary(es.drop_last()) {
            Err(e) => Err(e),
            Ok(p) => match key_text(es.last().0) {
                Option::None => Err(BridgeError::InvalidRegistry),
                Option::Some(k) => if k == "primary"@ {
                    match key_text(es.last().1) {
                        Option::None => Err(BridgeError::InvalidRegistry),
                        Option::Some(v) => Ok(Option::Some(v)),
                    }
                } else {
                    Ok(p)
                },
            },
        }
    }
}

/// The registry term: `nil` for none, or a map.
pub open spec fn registry_spec(t: Dyn) -> Result<Option<Option<Seq<char>>>, BridgeError> {
    match t {
        Dyn::Atom(s) => if s == nil_name() {
            Ok(Option::None)
        } else {
            Err(BridgeError::InvalidRegistry)
        },
        Dyn::Dict(es) => match registry_primary(es) {
            Ok(p) => Ok(Option::Some(p)),
            Err(e) => Err(e),
        },
        _ => Err(BridgeError::InvalidRegistry),
    }
}

pub open spec fn registry_view(r: Option<ClientRegistry>) -> Option<Option<Seq<char>>> {
    match r {
        Option::None => Option::None,
        Option::Some(c) => Option::Some(
            match c.primary {
                Option::Some(p) => Option::Some(p@),
                Option::None => Option::None,
            },
        ),
    }
}

/// Decodes the top-level arguments of a call, which must be a host map.
pub fn decode_arguments(args: &HostTerm) -> (r: Result<Vec<(String, TypedValue)>, BridgeError>)
    ensures
        decoded_fields(r) == arguments_spec(args@),
{
    match args {
        HostTerm::Dict(es) => {
            proof {
                lemma_term_dict_view(*es);
            }
            decode_map_entries(es)
        },
        _ => Err(BridgeError::InvalidArguments),
    }
}

/// Reads the client registry term.
pub fn parse_client_registry(t: &HostTerm) -> (r: Result<Option<ClientRegistry>, BridgeError>)
    ensures
        match registry_spec(t@) {
            Ok(v) => r matches Ok(c) && registry_view(c) == v,
            Err(e) => r == Err::<Option<ClientRegistry>, BridgeError>(e),
        },
{
    match t {
        HostTerm::Atom(s) => {
            let nil = "nil".to_owned();
            if *s == nil {
                Ok(None)
            } else {
                Err(BridgeError::InvalidRegistry)
            }
        },
        HostTerm::Dict(es) => {
            proof {
                lemma_term_dict_view(*es);
            }
            let ghost pv = pairs_view(es@);
            let primary_key = "primary".to_owned();
            let mut primary: Option<String> = None;
            let mut i: usize = 0;
            assert(pv.subrange(0, 0) =~= Seq::<(Dyn, Dyn)>::empty());
            while i < es.len()
                invariant
                    0 <= i <= es.len(),
                    pv == pairs_view(es@),
                    t@ == Dyn::Dict(pv),
                    primary_key@ == "primary"@,
                    registry_primary(pv.subrange(0, i as int)) == Ok::<Option<Seq<char>>, BridgeError>(
                        match primary {
                            Option::Some(p) => Option::Some(p@),
                            Option::None => Option::None,
                        },
                    ),
                decreases es.len() - i,
            {
                let ghost pre = pv.subrange(0, i + 1);
                assert(pre.drop_last() == pv.subrange(0, i as int));
                assert(pre.last() == pv[i as int]);
                assert(pv[i as int] == (term_view(es@[i as int].0), term_view(es@[i as int].1)));
                let k = match &es[i].0 {
                    HostTerm::Atom(s) => s,
                    HostTerm::Text(s) => s,
                    _ => {
                        proof {
                            lemma_registry_err(pv, i + 1);
                        }
                        return Err(BridgeError::InvalidRegistry);
                    },
                };
                if *k == primary_key {
                    match &es[i].1 {
                        HostTerm::Atom(s) => {
                            primary = Some(s.clone());
                        },
                        HostTerm::Text(s) => {
                            primary = Some(s.clone());
                        },
                        _ => {
                            proof {
                                lemma_registry_err(pv, i + 1);
                            }
                            return Err(BridgeError::InvalidRegistry);
                        },
                    }
                }
                i += 1;
            }
            assert(pv.subrange(0, i as int) == pv);
            Ok(Some(ClientRegistry { primary }))
        },
        _ => Err(BridgeError::InvalidRegistry),
    }
}

proof fn lemma_registry_err(es: Seq<(Dyn, Dyn)>, n: int)
    requires
        0 <= n <= es.len(),
        registry_primary(es.subrange(0, n)) is Err,
    ensures
        registry_primary(es) == registry_primary(es.subrange(0, n)),
    decreases es.len() - n,
{
    if n < es.len() {
        assert(es.subrange(0, n + 1).drop_last() == es.subrange(0, n));
        lemma_registry_err(es, n + 1);
    } else {
        assert(es.subrange(0, n) == es);
    }
}

/// Builds the request for `function_name`: the arguments are checked first,
/// then the registry.
pub fn prepare_request(function_name: String, args: &HostTerm, client_registry: &HostTerm) -> (r: Result<
    CallRequest,
    BridgeError,
>)
    ensures
        match (arguments_spec(args@), registry_spec(client_registry@)) {
            (Err(e), _) => r == Err::<CallRequest, BridgeError>(e),
            (Ok(_), Err(e)) => r == Err::<CallRequest, BridgeError>(e),
            (Ok(ps), Ok(reg)) => r matches Ok(req) && req.function_name@ == function_name@
                && fields_view(req.params@) == ps && registry_view(req.client_registry) == reg,
        },
{
    let params = match decode_arguments(args) {
        Ok(p) => p,
        Err(e) => return Err(e),
    };
    let reg = match parse_client_registry(client_registry) {
        Ok(r) => r,
        Err(e) => return Err(e),
    };
    Ok(CallRequest { function_name, params, client_registry: reg })
}

pub open spec fn ok_reply(d: Dyn) -> Dyn {
    Dyn::Tuple(seq![Dyn::Atom("ok"@), d])
}

pub open spec fn error_reply_term(msg: Seq<char>) -> Dyn {
    Dyn::Tuple(seq![Dyn::Atom("error"@), Dyn::Text(msg)])
}

/// The host reply for a runtime outcome.
pub open spec fn outcome_reply(o: FunctionOutcome) -> Dyn {
    match o {
        FunctionOutcome::Parsed(v) => match encode_spec(v@) {
            Ok(d) => ok_reply(d),
            Err(e) => error_reply_term(error_text(e)),
        },
        FunctionOutcome::ParseFailed(s) => error_reply_term(s@),
        FunctionOutcome::NoParsedValue => error_reply_term(error_text(BridgeError::NoParsedValue)),
        FunctionOutcome::Failed(s) => error_reply_term(s@),
    }
}

fn pair(a: HostTerm, b: HostTerm) -> (r: HostTerm)
    ensures
        r@ == Dyn::Tuple(seq![a@, b@]),
{
    let mut v: Vec<HostTerm> = Vec::new();
    v.push(a);
    v.push(b);
    proof {
        lemma_term_tuple_view(v);
        assert(terms_view(v@) =~= seq![a@, b@]);
    }
    HostTerm::Tuple(v)
}

/// `{:error, text}`.
pub fn error_text_reply(msg: String) -> (r: HostTerm)
    ensures
        r@ == error_reply_term(msg@),
{
    pair(atom_term("error"), HostTerm::Text(msg))
}

/// `{:error, description}` for a bridge failure.
pub fn error_reply(e: BridgeError) -> (r: HostTerm)
    ensures
        r@ == error_reply_term(error_text(e)),
{
    error_text_reply(e.message())
}

/// The host reply for a runtime outcome: `{:ok, value}` or `{:error, description}`.
pub fn parse_function_result(o: &FunctionOutcome) -> (r: HostTerm)
    ensures
        r@ == outcome_reply(*o),
{
    match o {
        FunctionOutcome::Parsed(v) => match encode(v) {
            Ok(d) => pair(atom_term("ok"), d),
            Err(e) => error_reply(e),
        },
        FunctionOutcome::ParseFailed(s) => error_text_reply(s.clone()),
        FunctionOutcome::NoParsedValue => error_reply(BridgeError::NoParsedValue),
        FunctionOutcome::Failed(s) => error_text_reply(s.clone()),
    }
}

} // verus!
