//! Usage collection: token totals and per-call logs appended by completed
//! calls, read back through snapshot accessors. Callers that share one
//! collector between threads hold it behind a lock; every mutation here is a
//! single step under that lock.
use vstd::prelude::*;
use crate::assoc::put;
use crate::codec::{atom_term, nil_name, put_term, text_term};
use crate::value::{Dyn, HostTerm, lemma_term_dict_view, lemma_term_list_view, pairs_view, term_view, terms_view};

verus! {

/// Token counts of one or more calls.
#[derive(Clone, Copy, Debug, PartialEq, Eq, Structural)]
pub struct Usage {
    pub input_tokens: u64,
    pub output_tokens: u64,
}

/// When a call started (milliseconds since the Unix epoch, UTC) and how long it took.
#[derive(Clone, Copy, Debug, PartialEq, Eq, Structural)]
pub struct Timing {
    pub start_time_utc_ms: i64,
    pub duration_ms: Option<i64>,
}

/// Timing of a streamed call.
#[derive(Clone, Copy, Debug, PartialEq, Eq, Structural)]
pub struct StreamTiming {
    pub start_time_utc_ms: i64,
    pub duration_ms: Option<i64>,
}

/// The HTTP request sent to a model provider.
#[derive(Clone, Debug, PartialEq, Eq)]
pub struct HttpRequest {
    pub method: String,
    pub url: String,
    pub headers: Vec<(String, String)>,
    pub body: String,
}

/// The HTTP response received from a model provider.
#[derive(Clone, Debug, PartialEq, Eq)]
pub struct HttpResponse {
    pub status: i64,
    pub headers: Vec<(String, String)>,
    pub body: String,
}

/// One non-streamed model call.
#[derive(Clone, Debug, PartialEq, Eq)]
pub struct LLMCall {
    pub client_name: String,
    pub provider: String,
    pub timing: Timing,
    pub request: Option<HttpRequest>,
    pub response: Option<HttpResponse>,
    pub usage: Option<Usage>,
}

/// One streamed model call.
#[derive(Clone, Debug, PartialEq, Eq)]
pub struct LLMStreamCall {
    pub client_name: String,
    pub provider: String,
    pub timing: StreamTiming,
    pub request: Option<HttpRequest>,
    pub usage: Option<Usage>,
}

/// A model call of either kind.
#[derive(Clone, Debug, PartialEq, Eq)]
pub enum LLMCallKind {
    Basic(LLMCall),
    Stream(LLMStreamCall),
}

/// The log of one completed function call.
#[derive(Clone, Debug, PartialEq, Eq)]
pub struct FunctionLog {
    pub id: String,
    pub function_name: String,
    pub log_type: String,
    pub timing: Timing,
    pub usage: Usage,
    pub calls: Vec<LLMCallKind>,
    pub raw_llm_response: Option<String>,
}

pub open spec fn cap(x: int) -> int {
    if x > u64::MAX {
        u64::MAX as int
    } else {
        x
    }
}

/// Sum of `f` over `logs`.
pub open spec fn sum_of(logs: Seq<FunctionLog>, f: spec_fn(FunctionLog) -> int) -> int
    decreases logs.len(),
{
    if logs.len() == 0 {
        0
    } else {
        sum_of(logs.drop_last(), f) + f(logs.last())
    }
}

/// Sum of the input tokens of `logs`.
pub open spec fn sum_input(logs: Seq<FunctionLog>) -> int {
    sum_of(logs, |l: FunctionLog| l.usage.input_tokens as int)
}

/// Sum of the output tokens of `logs`.
pub open spec fn sum_output(logs: Seq<FunctionLog>) -> int {
    sum_of(logs, |l: FunctionLog| l.usage.output_tokens as int)
}

proof fn lemma_sum_remove(s: Seq<FunctionLog>, j: int, f: spec_fn(FunctionLog) -> int)
    requires
        0 <= j < s.len(),
    ensures
        sum_of(s, f) == sum_of(s.remove(j), f) + f(s[j]),
    decreases s.len(),
{
    if j == s.len() - 1 {
        assert(s.remove(j) =~= s.drop_last());
    } else {
        lemma_sum_remove(s.drop_last(), j, f);
        assert(s.remove(j).drop_last() =~= s.drop_last().remove(j));
        assert(s.remove(j).last() == s.last());
    }
}

proof fn lemma_sum_permutation(a: Seq<FunctionLog>, b: Seq<FunctionLog>, f: spec_fn(FunctionLog) -> int)
    requires
        a.to_multiset() == b.to_multiset(),
    ensures
        sum_of(a, f) == sum_of(b, f),
    decreases a.len(),
{
    broadcast use vstd::seq_lib::group_to_multiset_ensures, vstd::multiset::group_multiset_axioms;

    if a.len() == 0 {
        assert(b.to_multiset().len() == 0);
    } else {
        let x = a.last();
        assert(a.drop_last().push(x) == a);
        assert(a.to_multiset().count(x) > 0);
        assert(b.contains(x));
        let j = choose|j: int| 0 <= j < b.len() && b[j] == x;
        lemma_sum_remove(b, j, f);
        assert(a.drop_last().to_multiset() =~= b.remove(j).to_multiset());
        lemma_sum_permutation(a.drop_last(), b.remove(j), f);
    }
}

/// A named sink for the usage and logs of the calls it is attached to.
pub struct CollectorResource {
    name: Option<String>,
    totals: Usage,
    logs: Vec<FunctionLog>,
}

impl CollectorResource {
    /// The logs appended so far, oldest first.
    pub closed spec fn logs_spec(&self) -> Seq<FunctionLog> {
        self.logs@
    }

    /// The totals held.
    pub closed spec fn totals_spec(&self) -> Usage {
        self.totals
    }

    pub closed spec fn name_spec(&self) -> Option<Seq<char>> {
        match self.name {
            Option::Some(n) => Option::Some(n@),
            Option::None => Option::None,
        }
    }

    /// The totals are the sums over the logs, saturated at the largest `u64`.
    pub open spec fn wf(&self) -> bool {
        &&& self.totals_spec().input_tokens == cap(sum_input(self.logs_spec()))
        &&& self.totals_spec().output_tokens == cap(sum_output(self.logs_spec()))
    }

    #[verifier::type_invariant]
    closed spec fn inv(&self) -> bool {
        self.wf()
    }

    /// An empty collector; the name is for diagnostics only.
    pub fn new(name: Option<String>) -> (r: Self)
        ensures
            r.wf(),
            r.logs_spec() == Seq::<FunctionLog>::empty(),
            r.totals_spec() == (Usage { input_tokens: 0, output_tokens: 0 }),
            r.name_spec() == match name {
                Option::Some(n) => Option::Some(n@),
                Option::None => Option::<Seq<char>>::None,
            },
    {
        CollectorResource { name, totals: Usage { input_tokens: 0, output_tokens: 0 }, logs: Vec::new() }
    }

    /// The name given at creation.
    pub fn name(&self) -> (r: Option<&String>)
        ensures
            match r {
                Option::Some(n) => self.name_spec() == Option::Some(n@),
                Option::None => self.name_spec() is None,
            },
    {
        self.name.as_ref()
    }

    /// Adds one completed call: its tokens go to the totals and its log to the end.
    pub fn record(&mut self, log: FunctionLog)
        ensures
            old(self).wf(),
            final(self).wf(),
            final(self).logs_spec() == old(self).logs_spec().push(log),
            final(self).totals_spec().input_tokens == cap(
                old(self).totals_spec().input_tokens + log.usage.input_tokens,
            ),
            final(self).totals_spec().output_tokens == cap(
                old(self).totals_spec().output_tokens + log.usage.output_tokens,
            ),
            final(self).name_spec() == old(self).name_spec(),
    {
        proof {
            use_type_invariant(&*self);
        }
        let mut taken = CollectorResource {
            name: None,
            totals: Usage { input_tokens: 0, output_tokens: 0 },
            logs: Vec::new(),
        };
        core::mem::swap(self, &mut taken);
        let CollectorResource { name, totals, mut logs } = taken;
        let ghost prev = logs@;
        let added = log.usage;
        logs.push(log);
        proof {
            assert(logs@.drop_last() == prev);
        }
        *self = CollectorResource {
            name,
            totals: Usage {
                input_tokens: totals.input_tokens.saturating_add(added.input_tokens),
                output_tokens: totals.output_tokens.saturating_add(added.output_tokens),
            },
            logs,
        };
    }

    /// The current totals, by value.
    pub fn usage(&self) -> (r: Usage)
        ensures
            self.wf(),
            r == self.totals_spec(),
    {
        proof {
            use_type_invariant(self);
        }
        self.totals
    }

    /// The most recently appended log, if any.
    pub fn last_function_log(&self) -> (r: Option<&FunctionLog>)
        ensures
            self.wf(),
            match r {
                Option::Some(l) => self.logs_spec().len() > 0 && *l == self.logs_spec().last(),
                Option::None => self.logs_spec().len() == 0,
            },
    {
        proof {
            use_type_invariant(self);
        }
        if self.logs.len() == 0 {
            None
        } else {
            Some(&self.logs[self.logs.len() - 1])
        }
    }

    /// The number of logs appended.
    pub fn log_count(&self) -> (r: usize)
        ensures
            r == self.logs_spec().len(),
    {
        self.logs.len()
    }
}

/// Whatever order the calls that share a collector complete in, its totals are
/// the sums of their tokens (saturated at the largest `u64`), and its last log
/// is one of the logs appended, the last one recorded.
pub proof fn lemma_collector_aggregation(c: CollectorResource)
    requires
        c.wf(),
    ensures
        sum_input(c.logs_spec()) <= u64::MAX ==> c.totals_spec().input_tokens == sum_input(c.logs_spec()),
        sum_output(c.logs_spec()) <= u64::MAX ==> c.totals_spec().output_tokens == sum_output(c.logs_spec()),
        c.logs_spec().len() > 0 ==> c.logs_spec().contains(c.logs_spec().last()),
{
    if c.logs_spec().len() > 0 {
        assert(c.logs_spec()[c.logs_spec().len() - 1] == c.logs_spec().last());
    }
}

/// Recording the same logs in another order gives the same totals.
pub proof fn lemma_totals_order_free(a: Seq<FunctionLog>, b: Seq<FunctionLog>)
    requires
        a.to_multiset() == b.to_multiset(),
    ensures
        sum_input(a) == sum_input(b),
        sum_output(a) == sum_output(b),
{
    lemma_sum_permutation(a, b, |l: FunctionLog| l.usage.input_tokens as int);
    lemma_sum_permutation(a, b, |l: FunctionLog| l.usage.output_tokens as int);
}

/// Stores `v` under the text key `k`.
pub open spec fn tput(m: Seq<(Dyn, Dyn)>, k: Seq<char>, v: Dyn) -> Seq<(Dyn, Dyn)> {
    put(m, Dyn::Text(k), v)
}

pub open spec fn nil_term() -> Dyn {
    Dyn::Atom(nil_name())
}

pub open spec fn opt_int_term(o: Option<i64>) -> Dyn {
    match o {
        Option::Some(x) => Dyn::Int(x as int),
        Option::None => nil_term(),
    }
}

pub open spec fn usage_term(u: Usage) -> Dyn {
    Dyn::Dict(
        tput(
            tput(Seq::empty(), "input_tokens"@, Dyn::Int(u.input_tokens as int)),
            "output_tokens"@,
            Dyn::Int(u.output_tokens as int),
        ),
    )
}

pub open spec fn timing_term(start: i64, duration: Option<i64>) -> Dyn {
    Dyn::Dict(
        tput(
            tput(Seq::empty(), "start_time_utc_ms"@, Dyn::Int(start as int)),
            "duration_ms"@,
            opt_int_term(duration),
        ),
    )
}

/// Pairs of texts as host map entries from text to text.
pub open spec fn text_pairs_entries(hs: Seq<(String, String)>) -> Seq<(Dyn, Dyn)>
    decreases hs.len(),
{
    if hs.len() == 0 {
        Seq::empty()
    } else {
        tput(text_pairs_entries(hs.drop_last()), hs.last().0@, Dyn::Text(hs.last().1@))
    }
}

pub open spec fn request_term(r: HttpRequest, with_body: bool) -> Dyn {
    let m = tput(
        tput(
            tput(Seq::empty(), "method"@, Dyn::Text(r.method@)),
            "url"@,
            Dyn::Text(r.url@),
        ),
        "headers"@,
        Dyn::Dict(text_pairs_entries(r.headers@)),
    );
    if with_body {
        Dyn::Dict(tput(m, "body"@, Dyn::Text(r.body@)))
    } else {
        Dyn::Dict(m)
    }
}

pub open spec fn response_term(r: HttpResponse) -> Dyn {
    Dyn::Dict(
        tput(
            tput(
                tput(Seq::empty(), "status"@, Dyn::Int(r.status as int)),
                "headers"@,
                Dyn::Dict(text_pairs_entries(r.headers@)),
            ),
            "body"@,
            Dyn::Text(r.body@),
        ),
    )
}

pub open spec fn usage_or_zero(u: Option<Usage>) -> Usage {
    match u {
        Option::Some(u) => u,
        Option::None => Usage { input_tokens: 0, output_tokens: 0 },
    }
}

pub open spec fn llm_call_term(c: LLMCall) -> Dyn {
    Dyn::Dict(
        tput(
            tput(
                tput(
                    tput(
                        tput(
                            tput(Seq::empty(), "client_name"@, Dyn::Text(c.client_name@)),
                            "provider"@,
                            Dyn::Text(c.provider@),
                        ),
                        "timing"@,
                        timing_term(c.timing.start_time_utc_ms, c.timing.duration_ms),
                    ),
                    "request"@,
                    match c.request {
                        Option::Some(r) => request_term(r, true),
                        Option::None => nil_term(),
                    },
                ),
                "response"@,
                match c.response {
                    Option::Some(r) => response_term(r),
                    Option::None => nil_term(),
                },
            ),
            "usage"@,
            usage_term(usage_or_zero(c.usage)),
        ),
    )
}

pub open spec fn llm_stream_call_term(c: LLMStreamCall) -> Dyn {
    Dyn::Dict(
        tput(
            tput(
                tput(
                    tput(
                        tput(Seq::empty(), "client_name"@, Dyn::Text(c.client_name@)),
                        "provider"@,
                        Dyn::Text(c.provider@),
                    ),
                    "timing"@,
                    timing_term(c.timing.start_time_utc_ms, c.timing.duration_ms),
                ),
                "request"@,
                match c.request {
                    Option::Some(r) => request_term(r, false),
                    Option::None => nil_term(),
                },
            ),
            "usage"@,
            usage_term(usage_or_zero(c.usage)),
        ),
    )
}

pub open spec fn call_kind_term(k: LLMCallKind) -> Dyn {
    match k {
        LLMCallKind::Basic(c) => llm_call_term(c),
        LLMCallKind::Stream(c) => llm_stream_call_term(c),
    }
}

pub open spec fn function_log_term(l: FunctionLog) -> Dyn {
    Dyn::Dict(
        tput(
            tput(
                tput(
                    tput(
                        tput(
                            tput(
                                tput(Seq::empty(), "id"@, Dyn::Text(l.id@)),
                                "function_name"@,
                                Dyn::Text(l.function_name@),
                            ),
                            "log_type"@,
                            Dyn::Text(l.log_type@),
                        ),
                        "timing"@,
                        timing_term(l.timing.start_time_utc_ms, l.timing.duration_ms),
                    ),
                    "usage"@,
                    usage_term(l.usage),
                ),
                "calls"@,
                Dyn::List(Seq::new(l.calls@.len(), |i: int| call_kind_term(l.calls@[i]))),
            ),
            "raw_llm_response"@,
            Dyn::Text(
                match l.raw_llm_response {
                    Option::Some(s) => s@,
                    Option::None => Seq::empty(),
                },
            ),
        ),
    )
}

/// Stores `v` under the text key `k` in a host map.
pub fn put_text(m: &mut Vec<(HostTerm, HostTerm)>, k: &str, v: HostTerm)
    ensures
        pairs_view(final(m)@) == tput(pairs_view(old(m)@), k@, v@),
{
    put_term(m, text_term(k), v);
}

pub fn empty_map() -> (r: Vec<(HostTerm, HostTerm)>)
    ensures
        pairs_view(r@) == Seq::<(Dyn, Dyn)>::empty(),
{
    let m: Vec<(HostTerm, HostTerm)> = Vec::new();
    assert(pairs_view(m@) =~= Seq::<(Dyn, Dyn)>::empty());
    m
}

pub fn dict(m: Vec<(HostTerm, HostTerm)>) -> (r: HostTerm)
    ensures
        r@ == Dyn::Dict(pairs_view(m@)),
{
    proof {
        lemma_term_dict_view(m);
    }
    HostTerm::Dict(m)
}

fn opt_int(o: Option<i64>) -> (r: HostTerm)
    ensures
        r@ == opt_int_term(o),
{
    match o {
        Some(x) => HostTerm::Int(x as i128),
        None => atom_term("nil"),
    }
}

fn encode_timing(start: i64, duration: Option<i64>) -> (r: HostTerm)
    ensures
        r@ == timing_term(start, duration),
{
    let mut m = empty_map();
    put_text(&mut m, "start_time_utc_ms", HostTerm::Int(start as i128));
    put_text(&mut m, "duration_ms", opt_int(duration));
    dict(m)
}

pub fn encode_text_map(hs: &Vec<(String, String)>) -> (r: HostTerm)
    ensures
        r@ == Dyn::Dict(text_pairs_entries(hs@)),
{
    let mut m = empty_map();
    let mut i: usize = 0;
    while i < hs.len()
        invariant
            0 <= i <= hs.len(),
            pairs_view(m@) == text_pairs_entries(hs@.subrange(0, i as int)),
        decreases hs.len() - i,
    {
        assert(hs@.subrange(0, i + 1).drop_last() == hs@.subrange(0, i as int));
        put_term(&mut m, HostTerm::Text(hs[i].0.clone()), HostTerm::Text(hs[i].1.clone()));
        i += 1;
    }
    assert(hs@.subrange(0, i as int) == hs@);
    dict(m)
}

fn encode_request(r: &HttpRequest, with_body: bool) -> (t: HostTerm)
    ensures
        t@ == request_term(*r, with_body),
{
    let mut m = empty_map();
    put_text(&mut m, "method", HostTerm::Text(r.method.clone()));
    put_text(&mut m, "url", HostTerm::Text(r.url.clone()));
    put_text(&mut m, "headers", encode_text_map(&r.headers));
    if with_body {
        put_text(&mut m, "body", HostTerm::Text(r.body.clone()));
    }
    dict(m)
}

fn encode_response(r: &HttpResponse) -> (t: HostTerm)
    ensures
        t@ == response_term(*r),
{
    let mut m = empty_map();
    put_text(&mut m, "status", HostTerm::Int(r.status as i128));
    put_text(&mut m, "headers", encode_text_map(&r.headers));
    put_text(&mut m, "body", HostTerm::Text(r.body.clone()));
    dict(m)
}

impl Usage {
    /// The host map `%{"input_tokens" => _, "output_tokens" => _}`.
    pub fn encode(&self) -> (r: HostTerm)
        ensures
            r@ == usage_term(*self),
    {
        let mut m = empty_map();
        put_text(&mut m, "input_tokens", HostTerm::Int(self.input_tokens as i128));
        put_text(&mut m, "output_tokens", HostTerm::Int(self.output_tokens as i128));
        dict(m)
    }
}

impl Timing {
    /// The host map `%{"start_time_utc_ms" => _, "duration_ms" => _}`.
    pub fn encode(&self) -> (r: HostTerm)
        ensures
            r@ == timing_term(self.start_time_utc_ms, self.duration_ms),
    {
        encode_timing(self.start_time_utc_ms, self.duration_ms)
    }
}

impl StreamTiming {
    /// The host map `%{"start_time_utc_ms" => _, "duration_ms" => _}`.
    pub fn encode(&self) -> (r: HostTerm)
        ensures
            r@ == timing_term(self.start_time_utc_ms, self.duration_ms),
    {
        encode_timing(self.start_time_utc_ms, self.duration_ms)
    }
}

impl LLMCall {
    /// The host map of a model call; absent parts are `nil`, absent usage is zero.
    pub fn encode(&self) -> (r: HostTerm)
        ensures
            r@ == llm_call_term(*self),
    {
        let mut m = empty_map();
        put_text(&mut m, "client_name", HostTerm::Text(self.client_name.clone()));
        put_text(&mut m, "provider", HostTerm::Text(self.provider.clone()));
        put_text(&mut m, "timing", self.timing.encode());
        let req = match &self.request {
            Some(r) => encode_request(r, true),
            None => atom_term("nil"),
        };
        put_text(&mut m, "request", req);
        let resp = match &self.response {
            Some(r) => encode_response(r),
            None => atom_term("nil"),
        };
        put_text(&mut m, "response", resp);
        let u = match self.usage {
            Some(u) => u,
            None => Usage { input_tokens: 0, output_tokens: 0 },
        };
        put_text(&mut m, "usage", u.encode());
        dict(m)
    }
}

impl LLMStreamCall {
    /// The host map of a streamed model call; the request carries no body.
    pub fn encode(&self) -> (r: HostTerm)
        ensures
            r@ == llm_stream_call_term(*self),
    {
        let mut m = empty_map();
        put_text(&mut m, "client_name", HostTerm::Text(self.client_name.clone()));
        put_text(&mut m, "provider", HostTerm::Text(self.provider.clone()));
        put_text(&mut m, "timing", self.timing.encode());
        let req = match &self.request {
            Some(r) => encode_request(r, false),
            None => atom_term("nil"),
        };
        put_text(&mut m, "request", req);
        let u = match self.usage {
            Some(u) => u,
            None => Usage { input_tokens: 0, output_tokens: 0 },
        };
        put_text(&mut m, "usage", u.encode());
        dict(m)
    }
}

impl LLMCallKind {
    /// The host map of the call, whichever its kind.
    pub fn encode(&self) -> (r: HostTerm)
        ensures
            r@ == call_kind_term(*self),
    {
        match self {
            LLMCallKind::Basic(c) => c.encode(),
            LLMCallKind::Stream(c) => c.encode(),
        }
    }
}

impl FunctionLog {
    /// The host map of a function log; a missing raw response is the empty text.
    pub fn encode(&self) -> (r: HostTerm)
        ensures
            r@ == function_log_term(*self),
    {
        let mut m = empty_map();
        put_text(&mut m, "id", HostTerm::Text(self.id.clone()));
        put_text(&mut m, "function_name", HostTerm::Text(self.function_name.clone()));
        put_text(&mut m, "log_type", HostTerm::Text(self.log_type.clone()));
        put_text(&mut m, "timing", self.timing.encode());
        put_text(&mut m, "usage", self.usage.encode());
        let mut calls: Vec<HostTerm> = Vec::new();
        let mut i: usize = 0;
        while i < self.calls.len()
            invariant
                0 <= i <= self.calls.len(),
                calls@.len() == i,
                forall|j: int| 0 <= j < i ==> #[trigger] term_view(calls@[j]) == call_kind_term(self.calls@[j]),
            decreases self.calls.len() - i,
        {
            calls.push(self.calls[i].encode());
            i += 1;
        }
        proof {
            lemma_term_list_view(calls);
            assert(terms_view(calls@) =~= Seq::new(self.calls@.len(), |i: int| call_kind_term(self.calls@[i])));
        }
        put_text(&mut m, "calls", HostTerm::List(calls));
        let raw = match &self.raw_llm_response {
            Some(s) => s.clone(),
            None => String::new(),
        };
        put_text(&mut m, "raw_llm_response", HostTerm::Text(raw));
        dict(m)
    }
}

} // verus!
