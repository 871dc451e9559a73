//! Conversion between host terms and typed values.
//!
//! Decoding tries, in order: number (integer, then float), text, list, map, the
//! `nil` atom; the first shape that matches wins. Encoding is total except on
//! media. Records encode as maps tagged with the `__baml_class__` atom key and
//! one atom key per field; enums as maps with the `__baml_enum__` and `value`
//! atom keys.
use vstd::prelude::*;
use crate::assoc::{put, keys_unique, lemma_key_pos, lemma_key_pos_first, lemma_put_fresh};
use crate::value::{
    BridgeError, Dyn, HostTerm, TypedValue, Value, term_view, terms_view, pairs_view,
    value_view, values_view, fields_view, lemma_term_list_view, lemma_term_dict_view,
    lemma_value_list_view, lemma_value_dict_view, lemma_value_record_view,
};

verus! {

pub open spec fn nil_name() -> Seq<char> {
    "nil"@
}

/// The text of a map key: atoms and text both count.
pub open spec fn key_text(k: Dyn) -> Option<Seq<char>> {
    match k {
        Dyn::Atom(s) => Option::Some(s),
        Dyn::Text(s) => Option::Some(s),
        _ => Option::None,
    }
}

pub open spec fn decode_spec(t: Dyn) -> Result<Value, BridgeError>
    decreases t,
{
    match t {
        Dyn::Int(i) => if i64::MIN <= i <= i64::MAX {
            Ok(Value::Int(i))
        } else {
            Err(BridgeError::UnsupportedType)
        },
        Dyn::Float(b) => Ok(Value::Float(b)),
        Dyn::Text(s) => Ok(Value::String(s)),
        Dyn::List(xs) => match decode_list(xs) {
            Ok(vs) => Ok(Value::List(vs)),
            Err(e) => Err(e),
        },
        Dyn::Dict(es) => match decode_entries(es) {
            Ok(fs) => Ok(Value::Dict(fs)),
            Err(e) => Err(e),
        },
        Dyn::Atom(s) => if s == nil_name() {
            Ok(Value::Null)
        } else {
            Err(BridgeError::UnsupportedType)
        },
        _ => Err(BridgeError::UnsupportedType),
    }
}

/// Decodes the elements left to right; the first failure is the result.
pub open spec fn decode_list(xs: Seq<Dyn>) -> Result<Seq<Value>, BridgeError>
    decreases xs,
{
    if xs.len() == 0 {
        Ok(Seq::empty())
    } else {
        match decode_list(xs.subrange(0, xs.len() - 1)) {
            Err(e) => Err(e),
            Ok(p) => match decode_spec(xs[xs.len() - 1]) {
                Err(e) => Err(e),
                Ok(v) => Ok(p.push(v)),
            },
        }
    }
}

/// Decodes map entries left to right, key then value; entries whose keys have
/// the same text collapse into one.
pub open spec fn decode_entries(es: Seq<(Dyn, Dyn)>) -> Result<Seq<(Seq<char>, Value)>, BridgeError>
    decreases es,
{
    if es.len() == 0 {
        Ok(Seq::empty())
    } else {
        match decode_entries(es.subrange(0, es.len() - 1)) {
            Err(e) => Err(e),
            Ok(p) => match key_text(es[es.len() - 1].0) {
                Option::None => Err(BridgeError::InvalidArguments),
                Option::Some(k) => match decode_spec(es[es.len() - 1].1) {
                    Err(e) => Err(e),
                    Ok(v) => Ok(put(p, k, v)),
                },
            },
        }
    }
}

pub open spec fn decoded(r: Result<TypedValue, BridgeError>) -> Result<Value, BridgeError> {
    match r {
        Ok(v) => Ok(v@),
        Err(e) => Err(e),
    }
}

pub open spec fn decoded_fields(r: Result<Vec<(String, TypedValue)>, BridgeError>) -> Result<
    Seq<(Seq<char>, Value)>,
    BridgeError,
> {
    match r {
        Ok(v) => Ok(fields_view(v@)),
        Err(e) => Err(e),
    }
}

proof fn lemma_decode_list_err(xs: Seq<Dyn>, n: int)
    requires
        0 <= n <= xs.len(),
        decode_list(xs.subrange(0, n)) is Err,
    ensures
        decode_list(xs) == decode_list(xs.subrange(0, n)),
    decreases xs.len() - n,
{
    if n < xs.len() {
        let a = xs.subrange(0, n + 1);
        assert(a.subrange(0, n) == xs.subrange(0, n));
        lemma_decode_list_err(xs, n + 1);
    } else {
        assert(xs.subrange(0, n) == xs);
    }
}

proof fn lemma_decode_entries_err(es: Seq<(Dyn, Dyn)>, n: int)
    requires
        0 <= n <= es.len(),
        decode_entries(es.subrange(0, n)) is Err,
    ensures
        decode_entries(es) == decode_entries(es.subrange(0, n)),
    decreases es.len() - n,
{
    if n < es.len() {
        let a = es.subrange(0, n + 1);
        assert(a.subrange(0, n) == es.subrange(0, n));
        lemma_decode_entries_err(es, n + 1);
    } else {
        assert(es.subrange(0, n) == es);
    }
}

/// The text of an atom or text key.
pub fn term_to_string(t: &HostTerm) -> (r: Result<String, BridgeError>)
    ensures
        match key_text(t@) {
            Option::Some(s) => r matches Ok(x) && x@ == s,
            Option::None => r == Err::<String, BridgeError>(BridgeError::InvalidArguments),
        },
{
    match t {
        HostTerm::Atom(s) => Ok(s.clone()),
        HostTerm::Text(s) => Ok(s.clone()),
        _ => Err(BridgeError::InvalidArguments),
    }
}

/// Stores `v` under `k`, replacing the value of an existing equal key in place.
pub fn put_field(m: &mut Vec<(String, TypedValue)>, k: String, v: TypedValue)
    ensures
        fields_view(final(m)@) == put(fields_view(old(m)@), k@, v@),
{
    let ghost fv = fields_view(old(m)@);
    let mut i: usize = 0;
    while i < m.len()
        invariant
            0 <= i <= m.len(),
            *m == *old(m),
            fv == fields_view(m@),
            forall|j: int| 0 <= j < i ==> fv[j].0 != k@,
        decreases m.len() - i,
    {
        if m[i].0 == k {
            proof {
                lemma_key_pos_first(fv, k@, i as int);
            }
            m.set(i, (k, v));
            assert(fields_view(m@) =~= fv.update(i as int, (k@, v@)));
            return;
        }
        i += 1;
    }
    proof {
        lemma_key_pos(fv, k@);
    }
    m.push((k, v));
    assert(fields_view(m@) =~= fv.push((k@, v@)));
}

/// Decodes the entries of a host map into typed map entries.
pub fn decode_map_entries(es: &Vec<(HostTerm, HostTerm)>) -> (r: Result<
    Vec<(String, TypedValue)>,
    BridgeError,
>)
    ensures
        decoded_fields(r) == decode_entries(pairs_view(es@)),
    decreases es@, 1int,
{
    let ghost pv = pairs_view(es@);
    let mut out: Vec<(String, TypedValue)> = Vec::new();
    let mut i: usize = 0;
    assert(pv.subrange(0, 0) =~= Seq::<(Dyn, Dyn)>::empty());
    assert(fields_view(out@) =~= Seq::<(Seq<char>, Value)>::empty());
    while i < es.len()
        invariant
            0 <= i <= es.len(),
            pv == pairs_view(es@),
            decode_entries(pv.subrange(0, i as int)) == Ok::<Seq<(Seq<char>, Value)>, BridgeError>(
                fields_view(out@),
            ),
        decreases es.len() - i,
    {
        let ghost pre = pv.subrange(0, i as int);
        assert(pv.subrange(0, i + 1).subrange(0, i as int) == pre);
        let k = term_to_string(&es[i].0);
        match k {
            Err(e) => {
                proof {
                    lemma_decode_entries_err(pv, i + 1);
                }
                return Err(e);
            },
            Ok(k) => {
                proof {
                    assert(decreases_to!(es@ => es@[i as int]));
                    assert(decreases_to!(es@[i as int] => es@[i as int].1));
                }
                let d = decode(&es[i].1);
                match d {
                    Err(e) => {
                        proof {
                            lemma_decode_entries_err(pv, i + 1);
                        }
                        return Err(e);
                    },
                    Ok(v) => {
                        put_field(&mut out, k, v);
                    },
                }
            },
        }
        i += 1;
    }
    assert(pv.subrange(0, i as int) == pv);
    Ok(out)
}

/// Decodes the elements of a host list, left to right.
pub fn decode_list_items(items: &Vec<HostTerm>) -> (r: Result<Vec<TypedValue>, BridgeError>)
    ensures
        match r {
            Ok(out) => decode_list(terms_view(items@)) == Ok::<Seq<Value>, BridgeError>(values_view(out@)),
            Err(e) => decode_list(terms_view(items@)) == Err::<Seq<Value>, BridgeError>(e),
        },
    decreases items@, 1int,
{
    let ghost tv = terms_view(items@);
    let mut out: Vec<TypedValue> = Vec::new();
    let mut i: usize = 0;
    assert(tv.subrange(0, 0) =~= Seq::<Dyn>::empty());
    assert(values_view(out@) =~= Seq::<Value>::empty());
    while i < items.len()
        invariant
            0 <= i <= items.len(),
            tv == terms_view(items@),
            decode_list(tv.subrange(0, i as int)) == Ok::<Seq<Value>, BridgeError>(values_view(out@)),
        decreases items.len() - i,
    {
        assert(tv.subrange(0, i + 1).subrange(0, i as int) == tv.subrange(0, i as int));
        proof {
            assert(decreases_to!(items@ => items@[i as int]));
        }
        let d = decode(&items[i]);
        match d {
            Err(e) => {
                proof {
                    lemma_decode_list_err(tv, i + 1);
                }
                return Err(e);
            },
            Ok(v) => {
                let ghost prev = values_view(out@);
                out.push(v);
                assert(values_view(out@) =~= prev.push(value_view(v)));
            },
        }
        i += 1;
    }
    assert(tv.subrange(0, i as int) == tv);
    Ok(out)
}

/// Decodes a host term into a typed value.
pub fn decode(t: &HostTerm) -> (r: Result<TypedValue, BridgeError>)
    ensures
        decoded(r) == decode_spec(t@),
    decreases t, 0int,
{
    match t {
        HostTerm::Int(i) => {
            if i64::MIN as i128 <= *i && *i <= i64::MAX as i128 {
                Ok(TypedValue::Int(*i as i64))
            } else {
                Err(BridgeError::UnsupportedType)
            }
        },
        HostTerm::Float(b) => Ok(TypedValue::Float(*b)),
        HostTerm::Text(s) => Ok(TypedValue::String(s.clone())),
        HostTerm::List(items) => {
            proof {
                lemma_term_list_view(*items);
                assert(decreases_to!(*t => *items));
                assert(decreases_to!(*items => items@));
            }
            match decode_list_items(items) {
                Err(e) => Err(e),
                Ok(out) => {
                    let r = TypedValue::List(out);
                    proof {
                        lemma_value_list_view(out);
                    }
                    Ok(r)
                },
            }
        },
        HostTerm::Dict(es) => {
            proof {
                lemma_term_dict_view(*es);
                assert(decreases_to!(*t => *es));
                assert(decreases_to!(*es => es@));
            }
            match decode_map_entries(es) {
                Err(e) => Err(e),
                Ok(fs) => {
                    let r = TypedValue::Dict(fs);
                    proof {
                        lemma_value_dict_view(fs);
                    }
                    Ok(r)
                },
            }
        },
        HostTerm::Atom(s) => {
            let nil = "nil".to_owned();
            if *s == nil {
                Ok(TypedValue::Null)
            } else {
                Err(BridgeError::UnsupportedType)
            }
        },
        _ => Err(BridgeError::UnsupportedType),
    }
}


pub open spec fn class_marker() -> Seq<char> {
    "__baml_class__"@
}

pub open spec fn enum_marker() -> Seq<char> {
    "__baml_enum__"@
}

pub open spec fn value_key() -> Seq<char> {
    "value"@
}

pub open spec fn bool_name(b: bool) -> Seq<char> {
    if b {
        "true"@
    } else {
        "false"@
    }
}

pub open spec fn encode_spec(v: Value) -> Result<Dyn, BridgeError>
    decreases v,
{
    match v {
        Value::String(s) => Ok(Dyn::Text(s)),
        Value::Int(i) => Ok(Dyn::Int(i)),
        Value::Float(b) => Ok(Dyn::Float(b)),
        Value::Bool(b) => Ok(Dyn::Atom(bool_name(b))),
        Value::Null => Ok(Dyn::Atom(nil_name())),
        Value::List(xs) => match encode_list(xs) {
            Ok(ds) => Ok(Dyn::List(ds)),
            Err(e) => Err(e),
        },
        Value::Dict(es) => match encode_entries(Seq::empty(), es, false) {
            Ok(ds) => Ok(Dyn::Dict(ds)),
            Err(e) => Err(e),
        },
        Value::Record(n, fs) => match encode_entries(
            seq![(Dyn::Atom(class_marker()), Dyn::Text(n))],
            fs,
            true,
        ) {
            Ok(ds) => Ok(Dyn::Dict(ds)),
            Err(e) => Err(e),
        },
        Value::Enum(t, x) => Ok(
            Dyn::Dict(
                put(
                    put(Seq::empty(), Dyn::Atom(enum_marker()), Dyn::Text(t)),
                    Dyn::Atom(value_key()),
                    Dyn::Text(x),
                ),
            ),
        ),
        Value::Media => Err(BridgeError::UnsupportedMedia),
    }
}

pub open spec fn encode_list(xs: Seq<Value>) -> Result<Seq<Dyn>, BridgeError>
    decreases xs,
{
    if xs.len() == 0 {
        Ok(Seq::empty())
    } else {
        match encode_list(xs.subrange(0, xs.len() - 1)) {
            Err(e) => Err(e),
            Ok(p) => match encode_spec(xs[xs.len() - 1]) {
                Err(e) => Err(e),
                Ok(d) => Ok(p.push(d)),
            },
        }
    }
}

/// The host key of a field or map key: an atom for record fields, text otherwise.
pub open spec fn entry_key(k: Seq<char>, atoms: bool) -> Dyn {
    if atoms {
        Dyn::Atom(k)
    } else {
        Dyn::Text(k)
    }
}

/// Encodes entries left to right and stores each into `base`.
pub open spec fn encode_entries(base: Seq<(Dyn, Dyn)>, es: Seq<(Seq<char>, Value)>, atoms: bool) -> Result<
    Seq<(Dyn, Dyn)>,
    BridgeError,
>
    decreases es,
{
    if es.len() == 0 {
        Ok(base)
    } else {
        match encode_entries(base, es.subrange(0, es.len() - 1), atoms) {
            Err(e) => Err(e),
            Ok(m) => match encode_spec(es[es.len() - 1].1) {
                Err(e) => Err(e),
                Ok(d) => Ok(put(m, entry_key(es[es.len() - 1].0, atoms), d)),
            },
        }
    }
}

pub open spec fn encoded(r: Result<HostTerm, BridgeError>) -> Result<Dyn, BridgeError> {
    match r {
        Ok(t) => Ok(t@),
        Err(e) => Err(e),
    }
}

pub open spec fn is_name_key(k: Dyn) -> bool {
    k is Atom || k is Text
}

proof fn lemma_encode_list_err(xs: Seq<Value>, n: int)
    requires
        0 <= n <= xs.len(),
        encode_list(xs.subrange(0, n)) is Err,
    ensures
        encode_list(xs) == encode_list(xs.subrange(0, n)),
    decreases xs.len() - n,
{
    if n < xs.len() {
        assert(xs.subrange(0, n + 1).subrange(0, n) == xs.subrange(0, n));
        lemma_encode_list_err(xs, n + 1);
    } else {
        assert(xs.subrange(0, n) == xs);
    }
}

proof fn lemma_encode_entries_err(base: Seq<(Dyn, Dyn)>, es: Seq<(Seq<char>, Value)>, atoms: bool, n: int)
    requires
        0 <= n <= es.len(),
        encode_entries(base, es.subrange(0, n), atoms) is Err,
    ensures
        encode_entries(base, es, atoms) == encode_entries(base, es.subrange(0, n), atoms),
    decreases es.len() - n,
{
    if n < es.len() {
        assert(es.subrange(0, n + 1).subrange(0, n) == es.subrange(0, n));
        lemma_encode_entries_err(base, es, atoms, n + 1);
    } else {
        assert(es.subrange(0, n) == es);
    }
}

/// Whether two keys are equal, where the first is an atom or a text.
fn key_eq(a: &HostTerm, b: &HostTerm) -> (r: bool)
    requires
        is_name_key(a@),
    ensures
        r == (a@ == b@),
{
    match (a, b) {
        (HostTerm::Atom(x), HostTerm::Atom(y)) => *x == *y,
        (HostTerm::Text(x), HostTerm::Text(y)) => *x == *y,
        _ => false,
    }
}

/// Stores `v` under the atom or text key `k` in a host map, replacing the value
/// of an equal key in place.
pub fn put_term(m: &mut Vec<(HostTerm, HostTerm)>, k: HostTerm, v: HostTerm)
    requires
        is_name_key(k@),
    ensures
        pairs_view(final(m)@) == put(pairs_view(old(m)@), k@, v@),
{
    let ghost pv = pairs_view(old(m)@);
    let mut i: usize = 0;
    while i < m.len()
        invariant
            0 <= i <= m.len(),
            *m == *old(m),
            pv == pairs_view(m@),
            is_name_key(k@),
            forall|j: int| 0 <= j < i ==> pv[j].0 != k@,
        decreases m.len() - i,
    {
        if key_eq(&k, &m[i].0) {
            proof {
                lemma_key_pos_first(pv, k@, i as int);
            }
            m.set(i, (k, v));
            assert(pairs_view(m@) =~= pv.update(i as int, (k@, v@)));
            return;
        }
        i += 1;
    }
    proof {
        lemma_key_pos(pv, k@);
    }
    m.push((k, v));
    assert(pairs_view(m@) =~= pv.push((k@, v@)));
}

pub fn text_term(s: &str) -> (r: HostTerm)
    ensures
        r@ == Dyn::Text(s@),
{
    HostTerm::Text(s.to_owned())
}

pub fn atom_term(s: &str) -> (r: HostTerm)
    ensures
        r@ == Dyn::Atom(s@),
{
    HostTerm::Atom(s.to_owned())
}

/// Encodes `es` left to right into the host map `m`.
fn encode_entries_into(m: &mut Vec<(HostTerm, HostTerm)>, es: &Vec<(String, TypedValue)>, atoms: bool) -> (r: Result<(), BridgeError>)
    ensures
        match encode_entries(pairs_view(old(m)@), fields_view(es@), atoms) {
            Ok(d) => r is Ok && pairs_view(final(m)@) == d,
            Err(e) => r == Err::<(), BridgeError>(e),
        },
    decreases es@, 1int,
{
    let ghost base = pairs_view(old(m)@);
    let ghost fv = fields_view(es@);
    let mut i: usize = 0;
    assert(fv.subrange(0, 0) =~= Seq::<(Seq<char>, Value)>::empty());
    while i < es.len()
        invariant
            0 <= i <= es.len(),
            base == pairs_view(old(m)@),
            fv == fields_view(es@),
            encode_entries(base, fv.subrange(0, i as int), atoms) == Ok::<Seq<(Dyn, Dyn)>, BridgeError>(
                pairs_view(m@),
            ),
        decreases es.len() - i,
    {
        assert(fv.subrange(0, i + 1).subrange(0, i as int) == fv.subrange(0, i as int));
        proof {
            assert(decreases_to!(es@ => es@[i as int]));
            assert(decreases_to!(es@[i as int] => es@[i as int].1));
        }
        let d = encode(&es[i].1);
        match d {
            Err(e) => {
                proof {
                    lemma_encode_entries_err(base, fv, atoms, i + 1);
                }
                return Err(e);
            },
            Ok(d) => {
                let key = if atoms {
                    HostTerm::Atom(es[i].0.clone())
                } else {
                    HostTerm::Text(es[i].0.clone())
                };
                put_term(m, key, d);
            },
        }
        i += 1;
    }
    assert(fv.subrange(0, i as int) == fv);
    Ok(())
}

/// Encodes the elements of a list, left to right.
fn encode_list_items(xs: &Vec<TypedValue>) -> (r: Result<Vec<HostTerm>, BridgeError>)
    ensures
        match r {
            Ok(out) => encode_list(values_view(xs@)) == Ok::<Seq<Dyn>, BridgeError>(terms_view(out@)),
            Err(e) => encode_list(values_view(xs@)) == Err::<Seq<Dyn>, BridgeError>(e),
        },
    decreases xs@, 1int,
{
    let ghost vv = values_view(xs@);
    let mut out: Vec<HostTerm> = Vec::new();
    let mut i: usize = 0;
    assert(vv.subrange(0, 0) =~= Seq::<Value>::empty());
    assert(terms_view(out@) =~= Seq::<Dyn>::empty());
    while i < xs.len()
        invariant
            0 <= i <= xs.len(),
            vv == values_view(xs@),
            encode_list(vv.subrange(0, i as int)) == Ok::<Seq<Dyn>, BridgeError>(terms_view(out@)),
        decreases xs.len() - i,
    {
        assert(vv.subrange(0, i + 1).subrange(0, i as int) == vv.subrange(0, i as int));
        proof {
            assert(decreases_to!(xs@ => xs@[i as int]));
        }
        let d = encode(&xs[i]);
        match d {
            Err(e) => {
                proof {
                    lemma_encode_list_err(vv, i + 1);
                }
                return Err(e);
            },
            Ok(d) => {
                let ghost prev = terms_view(out@);
                out.push(d);
                assert(terms_view(out@) =~= prev.push(term_view(d)));
            },
        }
        i += 1;
    }
    assert(vv.subrange(0, i as int) == vv);
    Ok(out)
}

/// Encodes a typed value as a host term.
pub fn encode(v: &TypedValue) -> (r: Result<HostTerm, BridgeError>)
    ensures
        encoded(r) == encode_spec(v@),
    decreases v, 0int,
{
    match v {
        TypedValue::String(s) => Ok(HostTerm::Text(s.clone())),
        TypedValue::Int(i) => Ok(HostTerm::Int(*i as i128)),
        TypedValue::Float(b) => Ok(HostTerm::Float(*b)),
        TypedValue::Bool(b) => {
            if *b {
                Ok(atom_term("true"))
            } else {
                Ok(atom_term("false"))
            }
        },
        TypedValue::Null => Ok(atom_term("nil")),
        TypedValue::List(xs) => {
            proof {
                lemma_value_list_view(*xs);
                assert(decreases_to!(*v => *xs));
                assert(decreases_to!(*xs => xs@));
            }
            match encode_list_items(xs) {
                Err(e) => Err(e),
                Ok(out) => {
                    proof {
                        lemma_term_list_view(out);
                    }
                    Ok(HostTerm::List(out))
                },
            }
        },
        TypedValue::Dict(es) => {
            proof {
                lemma_value_dict_view(*es);
                assert(decreases_to!(*v => *es));
                assert(decreases_to!(*es => es@));
            }
            let mut m: Vec<(HostTerm, HostTerm)> = Vec::new();
            assert(pairs_view(m@) =~= Seq::<(Dyn, Dyn)>::empty());
            match encode_entries_into(&mut m, es, false) {
                Err(e) => Err(e),
                Ok(()) => {
                    proof {
                        lemma_term_dict_view(m);
                    }
                    Ok(HostTerm::Dict(m))
                },
            }
        },
        TypedValue::Record(n, es) => {
            proof {
                lemma_value_record_view(*n, *es);
                assert(decreases_to!(*v => *es));
                assert(decreases_to!(*es => es@));
            }
            let mut m: Vec<(HostTerm, HostTerm)> = Vec::new();
            m.push((atom_term("__baml_class__"), HostTerm::Text(n.clone())));
            assert(pairs_view(m@) =~= seq![(Dyn::Atom(class_marker()), Dyn::Text(n@))]);
            match encode_entries_into(&mut m, es, true) {
                Err(e) => Err(e),
                Ok(()) => {
                    proof {
                        lemma_term_dict_view(m);
                    }
                    Ok(HostTerm::Dict(m))
                },
            }
        },
        TypedValue::Enum(t, x) => {
            let mut m: Vec<(HostTerm, HostTerm)> = Vec::new();
            assert(pairs_view(m@) =~= Seq::<(Dyn, Dyn)>::empty());
            put_term(&mut m, atom_term("__baml_enum__"), HostTerm::Text(t.clone()));
            put_term(&mut m, atom_term("value"), HostTerm::Text(x.clone()));
            proof {
                lemma_term_dict_view(m);
            }
            Ok(HostTerm::Dict(m))
        },
        TypedValue::Media => Err(BridgeError::UnsupportedMedia),
    }
}

/// Values that the host round trip reproduces: strings, integers within 64
/// bits, floats, null, and lists and maps of them whose map keys are distinct.
pub open spec fn plain(v: Value) -> bool
    decreases v,
{
    match v {
        Value::String(_) => true,
        Value::Float(_) => true,
        Value::Null => true,
        Value::Int(i) => i64::MIN <= i <= i64::MAX,
        Value::List(xs) => forall|i: int| 0 <= i < xs.len() ==> plain(xs[i]),
        Value::Dict(es) => keys_unique(es) && forall|i: int| 0 <= i < es.len() ==> plain(es[i].1),
        _ => false,
    }
}

/// Decoding the encoding of a plain value gives the value back.
pub proof fn lemma_round_trip(v: Value)
    requires
        plain(v),
    ensures
        encode_spec(v) is Ok,
        decode_spec(encode_spec(v)->Ok_0) == Ok::<Value, BridgeError>(v),
    decreases v,
{
    match v {
        Value::List(xs) => {
            lemma_list_round_trip(xs);
        },
        Value::Dict(es) => {
            lemma_entries_round_trip(es);
        },
        _ => {},
    }
}

proof fn lemma_list_round_trip(xs: Seq<Value>)
    requires
        forall|i: int| 0 <= i < xs.len() ==> plain(xs[i]),
    ensures
        encode_list(xs) is Ok,
        decode_list(encode_list(xs)->Ok_0) == Ok::<Seq<Value>, BridgeError>(xs),
    decreases xs,
{
    if xs.len() == 0 {
        assert(xs =~= Seq::<Value>::empty());
    } else {
        let pre = xs.subrange(0, xs.len() - 1);
        lemma_list_round_trip(pre);
        lemma_round_trip(xs[xs.len() - 1]);
        let ds = encode_list(xs)->Ok_0;
        let dpre = encode_list(pre)->Ok_0;
        assert(ds.subrange(0, ds.len() - 1) =~= dpre);
        assert(ds[ds.len() - 1] == encode_spec(xs[xs.len() - 1])->Ok_0);
        assert(pre.push(xs[xs.len() - 1]) =~= xs);
    }
}

proof fn lemma_entries_round_trip(es: Seq<(Seq<char>, Value)>)
    requires
        keys_unique(es),
        forall|i: int| 0 <= i < es.len() ==> plain(es[i].1),
    ensures
        encode_entries(Seq::empty(), es, false) is Ok,
        encode_entries(Seq::empty(), es, false)->Ok_0.len() == es.len(),
        forall|i: int|
            0 <= i < es.len() ==> #[trigger] encode_entries(Seq::empty(), es, false)->Ok_0[i].0
                == Dyn::Text(es[i].0),
        decode_entries(encode_entries(Seq::empty(), es, false)->Ok_0) == Ok::<
            Seq<(Seq<char>, Value)>,
            BridgeError,
        >(es),
    decreases es,
{
    if es.len() == 0 {
        assert(es =~= Seq::<(Seq<char>, Value)>::empty());
    } else {
        let n = es.len() - 1;
        let pre = es.subrange(0, n);
        assert(keys_unique(pre));
        lemma_entries_round_trip(pre);
        assert(decreases_to!(es => es[n]));
        lemma_round_trip(es[n].1);
        let dpre = encode_entries(Seq::empty(), pre, false)->Ok_0;
        let d = encode_spec(es[n].1)->Ok_0;
        assert forall|i: int| 0 <= i < dpre.len() implies dpre[i].0 != Dyn::Text(es[n].0) by {
            assert(dpre[i].0 == Dyn::Text(pre[i].0));
        }
        lemma_put_fresh(dpre, Dyn::Text(es[n].0), d);
        let ds = encode_entries(Seq::empty(), es, false)->Ok_0;
        assert(ds == dpre.push((Dyn::Text(es[n].0), d)));
        assert(ds.subrange(0, n) =~= dpre);
        assert(ds[n] == (Dyn::Text(es[n].0), d));
        assert(key_text(ds[n].0) == Option::Some(es[n].0));
        assert forall|i: int| 0 <= i < es.len() implies #[trigger] ds[i].0 == Dyn::Text(es[i].0) by {
            if i < n {
                assert(dpre[i].0 == Dyn::Text(pre[i].0));
            }
        }
        assert forall|i: int| 0 <= i < pre.len() implies pre[i].0 != es[n].0 by {}
        lemma_put_fresh(pre, es[n].0, es[n].1);
        assert(pre.push((es[n].0, es[n].1)) =~= es);
    }
}

/// Host integers within 64 bits decode to integers, host floats to floats.
pub proof fn lemma_numbers_decode(i: int, b: u64)
    requires
        i64::MIN <= i <= i64::MAX,
    ensures
        decode_spec(Dyn::Int(i)) == Ok::<Value, BridgeError>(Value::Int(i)),
        decode_spec(Dyn::Float(b)) == Ok::<Value, BridgeError>(Value::Float(b)),
{
}

/// A map whose keys are atoms or texts with distinct texts, and whose values
/// all decode, decodes to the map from each key's text to its value's decoding.
pub proof fn lemma_symbolic_keys_decode(es: Seq<(Dyn, Dyn)>)
    requires
        forall|i: int| 0 <= i < es.len() ==> key_text(#[trigger] es[i].0) is Some,
        forall|i: int, j: int|
            0 <= i < j < es.len() ==> key_text(#[trigger] es[i].0) != key_text(#[trigger] es[j].0),
        forall|i: int| 0 <= i < es.len() ==> decode_spec(#[trigger] es[i].1) is Ok,
    ensures
        decode_spec(Dyn::Dict(es)) == Ok::<Value, BridgeError>(
            Value::Dict(
                Seq::new(
                    es.len(),
                    |i: int| (key_text(es[i].0)->Some_0, decode_spec(es[i].1)->Ok_0),
                ),
            ),
        ),
    decreases es.len(),
{
    lemma_entries_decode(es);
}

proof fn lemma_entries_decode(es: Seq<(Dyn, Dyn)>)
    requires
        forall|i: int| 0 <= i < es.len() ==> key_text(#[trigger] es[i].0) is Some,
        forall|i: int, j: int|
            0 <= i < j < es.len() ==> key_text(#[trigger] es[i].0) != key_text(#[trigger] es[j].0),
        forall|i: int| 0 <= i < es.len() ==> decode_spec(#[trigger] es[i].1) is Ok,
    ensures
        decode_entries(es) == Ok::<Seq<(Seq<char>, Value)>, BridgeError>(
            Seq::new(
                es.len(),
                |i: int| (key_text(es[i].0)->Some_0, decode_spec(es[i].1)->Ok_0),
            ),
        ),
    decreases es.len(),
{
    let f = |i: int| (key_text(es[i].0)->Some_0, decode_spec(es[i].1)->Ok_0);
    if es.len() == 0 {
        assert(Seq::new(0, f) =~= Seq::<(Seq<char>, Value)>::empty());
    } else {
        let n = es.len() - 1;
        let pre = es.subrange(0, n);
        assert forall|i: int| 0 <= i < pre.len() implies key_text(#[trigger] pre[i].0) is Some by {
            assert(pre[i] == es[i]);
        }
        assert forall|i: int, j: int|
            0 <= i < j < pre.len() implies key_text(#[trigger] pre[i].0) != key_text(#[trigger] pre[j].0) by {
            assert(pre[i] == es[i] && pre[j] == es[j]);
        }
        assert forall|i: int| 0 <= i < pre.len() implies decode_spec(#[trigger] pre[i].1) is Ok by {
            assert(pre[i] == es[i]);
        }
        lemma_entries_decode(pre);
        let p = Seq::new(pre.len(), |i: int| (key_text(pre[i].0)->Some_0, decode_spec(pre[i].1)->Ok_0));
        let k = key_text(es[n].0)->Some_0;
        assert(key_text(es[n].0) is Some);
        assert(decode_spec(es[n].1) is Ok);
        assert forall|i: int| 0 <= i < p.len() implies p[i].0 != k by {
            assert(pre[i] == es[i]);
            assert(key_text(es[i].0) != key_text(es[n].0));
        }
        lemma_put_fresh(p, k, decode_spec(es[n].1)->Ok_0);
        assert(p.push((k, decode_spec(es[n].1)->Ok_0)) =~= Seq::new(es.len(), f));
    }
}

/// A map whose values all decode but one of whose keys is neither an atom nor a
/// text fails to decode with `InvalidArguments`.
pub proof fn lemma_bad_key_decode(es: Seq<(Dyn, Dyn)>, bad: int)
    requires
        0 <= bad < es.len(),
        key_text(es[bad].0) is None,
        forall|i: int| 0 <= i < es.len() ==> decode_spec(#[trigger] es[i].1) is Ok,
    ensures
        decode_spec(Dyn::Dict(es)) == Err::<Value, BridgeError>(BridgeError::InvalidArguments),
{
    lemma_bad_key_entries(es, bad);
}

proof fn lemma_bad_key_entries(es: Seq<(Dyn, Dyn)>, bad: int)
    requires
        0 <= bad < es.len(),
        key_text(es[bad].0) is None,
        forall|i: int| 0 <= i < es.len() ==> decode_spec(#[trigger] es[i].1) is Ok,
    ensures
        decode_entries(es) == Err::<Seq<(Seq<char>, Value)>, BridgeError>(BridgeError::InvalidArguments),
    decreases es.len(),
{
    let n = es.len() - 1;
    let pre = es.subrange(0, n);
    if bad < n {
        assert forall|i: int| 0 <= i < pre.len() implies decode_spec(#[trigger] pre[i].1) is Ok by {
            assert(pre[i] == es[i]);
        }
        assert(pre[bad] == es[bad]);
        lemma_bad_key_entries(pre, bad);
    } else {
        assert forall|i: int| 0 <= i < pre.len() implies decode_spec(#[trigger] pre[i].1) is Ok by {
            assert(pre[i] == es[i]);
        }
        lemma_only_key_errors(pre);
        assert(decode_spec(es[n].1) is Ok);
    }
}

proof fn lemma_only_key_errors(es: Seq<(Dyn, Dyn)>)
    requires
        forall|i: int| 0 <= i < es.len() ==> decode_spec(#[trigger] es[i].1) is Ok,
    ensures
        decode_entries(es) is Ok || decode_entries(es) == Err::<Seq<(Seq<char>, Value)>, BridgeError>(
            BridgeError::InvalidArguments,
        ),
    decreases es.len(),
{
    if es.len() > 0 {
        let n = es.len() - 1;
        let pre = es.subrange(0, n);
        assert forall|i: int| 0 <= i < pre.len() implies decode_spec(#[trigger] pre[i].1) is Ok by {
            assert(pre[i] == es[i]);
        }
        lemma_only_key_errors(pre);
        assert(decode_spec(es[n].1) is Ok);
    }
}

} // verus!
