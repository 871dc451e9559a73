//! The two value worlds: the host's dynamic terms and the runtime's typed values,
//! each with a mathematical model.
use vstd::prelude::*;

verus! {

/// A host dynamic value. Maps list their entries in the host's iteration order.
/// Floats are carried as their IEEE-754 bit pattern.
#[derive(Debug, PartialEq, Eq)]
pub enum HostTerm {
    Int(i128),
    Float(u64),
    Text(String),
    Atom(String),
    List(Vec<HostTerm>),
    /// A map, as its entries.
    Dict(Vec<(HostTerm, HostTerm)>),
    Tuple(Vec<HostTerm>),
    /// Any shape the bridge does not read (pids, references, functions, ...).
    Other,
}

/// Model of a host term.
pub enum Dyn {
    Int(int),
    Float(u64),
    Text(Seq<char>),
    Atom(Seq<char>),
    List(Seq<Dyn>),
    Dict(Seq<(Dyn, Dyn)>),
    Tuple(Seq<Dyn>),
    Other,
}

/// A typed runtime value. Maps and record fields keep their insertion order.
/// Floats are carried as their IEEE-754 bit pattern.
#[derive(Debug, PartialEq, Eq)]
pub enum TypedValue {
    String(String),
    Int(i64),
    Float(u64),
    Bool(bool),
    Null,
    List(Vec<TypedValue>),
    /// An ordered map from text keys; keys are meant to be distinct.
    Dict(Vec<(String, TypedValue)>),
    /// A record: its class name and its fields.
    Record(String, Vec<(String, TypedValue)>),
    /// An enum value: its type name and its variant.
    Enum(String, String),
    /// A media value, carried opaquely; it has no host encoding.
    Media,
}

/// Model of a typed value.
pub enum Value {
    String(Seq<char>),
    Int(int),
    Float(u64),
    Bool(bool),
    Null,
    List(Seq<Value>),
    Dict(Seq<(Seq<char>, Value)>),
    Record(Seq<char>, Seq<(Seq<char>, Value)>),
    Enum(Seq<char>, Seq<char>),
    Media,
}

/// The failures the bridge reports.
#[derive(PartialEq, Eq, Structural, Clone, Copy, Debug)]
pub enum BridgeError {
    UnsupportedType,
    InvalidArguments,
    InvalidRegistry,
    RuntimeInitFailed,
    ExecutionFailed,
    NoParsedValue,
    UnsupportedMedia,
}

pub open spec fn term_view(t: HostTerm) -> Dyn
    decreases t,
{
    match t {
        HostTerm::Int(i) => Dyn::Int(i as int),
        HostTerm::Float(b) => Dyn::Float(b),
        HostTerm::Text(s) => Dyn::Text(s@),
        HostTerm::Atom(s) => Dyn::Atom(s@),
        HostTerm::List(v) => Dyn::List(
            Seq::new(v@.len(), |i: int| if 0 <= i < v@.len() { term_view(v@[i]) } else { Dyn::Other }),
        ),
        HostTerm::Dict(v) => Dyn::Dict(
            Seq::new(
                v@.len(),
                |i: int|
                    if 0 <= i < v@.len() {
                        (term_view(v@[i].0), term_view(v@[i].1))
                    } else {
                        (Dyn::Other, Dyn::Other)
                    },
            ),
        ),
        HostTerm::Tuple(v) => Dyn::Tuple(
            Seq::new(v@.len(), |i: int| if 0 <= i < v@.len() { term_view(v@[i]) } else { Dyn::Other }),
        ),
        HostTerm::Other => Dyn::Other,
    }
}

pub open spec fn terms_view(s: Seq<HostTerm>) -> Seq<Dyn> {
    Seq::new(s.len(), |i: int| term_view(s[i]))
}

pub open spec fn pairs_view(s: Seq<(HostTerm, HostTerm)>) -> Seq<(Dyn, Dyn)> {
    Seq::new(s.len(), |i: int| (term_view(s[i].0), term_view(s[i].1)))
}

impl View for HostTerm {
    type V = Dyn;

    open spec fn view(&self) -> Dyn {
        term_view(*self)
    }
}

pub open spec fn value_view(v: TypedValue) -> Value
    decreases v,
{
    match v {
        TypedValue::String(s) => Value::String(s@),
        TypedValue::Int(i) => Value::Int(i as int),
        TypedValue::Float(b) => Value::Float(b),
        TypedValue::Bool(b) => Value::Bool(b),
        TypedValue::Null => Value::Null,
        TypedValue::List(xs) => Value::List(
            Seq::new(xs@.len(), |i: int| if 0 <= i < xs@.len() { value_view(xs@[i]) } else { Value::Null }),
        ),
        TypedValue::Dict(es) => Value::Dict(
            Seq::new(
                es@.len(),
                |i: int|
                    if 0 <= i < es@.len() {
                        (es@[i].0@, value_view(es@[i].1))
                    } else {
                        (Seq::empty(), Value::Null)
                    },
            ),
        ),
        TypedValue::Record(n, es) => Value::Record(
            n@,
            Seq::new(
                es@.len(),
                |i: int|
                    if 0 <= i < es@.len() {
                        (es@[i].0@, value_view(es@[i].1))
                    } else {
                        (Seq::empty(), Value::Null)
                    },
            ),
        ),
        TypedValue::Enum(t, v) => Value::Enum(t@, v@),
        TypedValue::Media => Value::Media,
    }
}

pub open spec fn values_view(s: Seq<TypedValue>) -> Seq<Value> {
    Seq::new(s.len(), |i: int| value_view(s[i]))
}

pub open spec fn fields_view(s: Seq<(String, TypedValue)>) -> Seq<(Seq<char>, Value)> {
    Seq::new(s.len(), |i: int| (s[i].0@, value_view(s[i].1)))
}

pub proof fn lemma_term_list_view(v: Vec<HostTerm>)
    ensures
        term_view(HostTerm::List(v)) == Dyn::List(terms_view(v@)),
{
    let s = term_view(HostTerm::List(v))->List_0;
    assert(s.len() == v@.len());
    assert forall|i: int| 0 <= i < s.len() implies s[i] == term_view(v@[i]) by {}
    assert(s =~= terms_view(v@));
}

pub proof fn lemma_term_dict_view(v: Vec<(HostTerm, HostTerm)>)
    ensures
        term_view(HostTerm::Dict(v)) == Dyn::Dict(pairs_view(v@)),
{
    let s = term_view(HostTerm::Dict(v))->Dict_0;
    assert forall|i: int| 0 <= i < s.len() implies s[i] == (term_view(v@[i].0), term_view(v@[i].1)) by {}
    assert(s =~= pairs_view(v@));
}

pub proof fn lemma_term_tuple_view(v: Vec<HostTerm>)
    ensures
        term_view(HostTerm::Tuple(v)) == Dyn::Tuple(terms_view(v@)),
{
    let s = term_view(HostTerm::Tuple(v))->Tuple_0;
    assert forall|i: int| 0 <= i < s.len() implies s[i] == term_view(v@[i]) by {}
    assert(s =~= terms_view(v@));
}

pub proof fn lemma_value_list_view(v: Vec<TypedValue>)
    ensures
        value_view(TypedValue::List(v)) == Value::List(values_view(v@)),
{
    let s = value_view(TypedValue::List(v))->List_0;
    assert forall|i: int| 0 <= i < s.len() implies s[i] == value_view(v@[i]) by {}
    assert(s =~= values_view(v@));
}

pub proof fn lemma_value_dict_view(v: Vec<(String, TypedValue)>)
    ensures
        value_view(TypedValue::Dict(v)) == Value::Dict(fields_view(v@)),
{
    let s = value_view(TypedValue::Dict(v))->Dict_0;
    assert forall|i: int| 0 <= i < s.len() implies s[i] == (v@[i].0@, value_view(v@[i].1)) by {}
    assert(s =~= fields_view(v@));
}

pub proof fn lemma_value_record_view(n: String, v: Vec<(String, TypedValue)>)
    ensures
        value_view(TypedValue::Record(n, v)) == Value::Record(n@, fields_view(v@)),
{
    let s = value_view(TypedValue::Record(n, v))->Record_1;
    assert forall|i: int| 0 <= i < s.len() implies s[i] == (v@[i].0@, value_view(v@[i].1)) by {}
    assert(s =~= fields_view(v@));
}

impl View for TypedValue {
    type V = Value;

    open spec fn view(&self) -> Value {
        value_view(*self)
    }
}

} // verus!
