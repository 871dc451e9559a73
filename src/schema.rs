//! The description of a loaded schema as a host term:
//! `%{classes: %{name => %{field => type}}, enums: %{name => [variant]},
//!   functions: %{name => %{"params" => %{param => type}, "return_type" => type}}}`.
use vstd::prelude::*;
use crate::assoc::put;
use crate::codec::atom_term;
use crate::collector::{dict, empty_map, encode_text_map, put_text, text_pairs_entries, tput};
use crate::value::{Dyn, HostTerm, lemma_term_list_view, pairs_view, term_view, terms_view};

verus! {

/// A class and the type of each of its fields.
pub struct ClassSchema {
    pub name: String,
    pub fields: Vec<(String, String)>,
}

/// An enum and its variants.
pub struct EnumSchema {
    pub name: String,
    pub variants: Vec<String>,
}

/// A function, the type of each parameter, and its return type.
pub struct FunctionSchema {
    pub name: String,
    pub params: Vec<(String, String)>,
    pub return_type: String,
}

pub open spec fn classes_entries(cs: Seq<ClassSchema>) -> Seq<(Dyn, Dyn)>
    decreases cs.len(),
{
    if cs.len() == 0 {
        Seq::empty()
    } else {
        tput(classes_entries(cs.drop_last()), cs.last().name@, Dyn::Dict(text_pairs_entries(cs.last().fields@)))
    }
}

pub open spec fn variants_term(vs: Seq<String>) -> Dyn {
    Dyn::List(Seq::new(vs.len(), |i: int| Dyn::Text(vs[i]@)))
}

pub open spec fn enums_entries(es: Seq<EnumSchema>) -> Seq<(Dyn, Dyn)>
    decreases es.len(),
{
    if es.len() == 0 {
        Seq::empty()
    } else {
        tput(enums_entries(es.drop_last()), es.last().name@, variants_term(es.last().variants@))
    }
}

pub open spec fn function_term(f: FunctionSchema) -> Dyn {
    Dyn::Dict(
        tput(
            tput(Seq::empty(), "params"@, Dyn::Dict(text_pairs_entries(f.params@))),
            "return_type"@,
            Dyn::Text(f.return_type@),
        ),
    )
}

pub open spec fn functions_entries(fs: Seq<FunctionSchema>) -> Seq<(Dyn, Dyn)>
    decreases fs.len(),
{
    if fs.len() == 0 {
        Seq::empty()
    } else {
        tput(functions_entries(fs.drop_last()), fs.last().name@, function_term(fs.last()))
    }
}

pub open spec fn schema_term(cs: Seq<ClassSchema>, es: Seq<EnumSchema>, fs: Seq<FunctionSchema>) -> Dyn {
    Dyn::Dict(
        put(
            put(
                put(Seq::empty(), Dyn::Atom("classes"@), Dyn::Dict(classes_entries(cs))),
                Dyn::Atom("enums"@),
                Dyn::Dict(enums_entries(es)),
            ),
            Dyn::Atom("functions"@),
            Dyn::Dict(functions_entries(fs)),
        ),
    )
}

fn encode_variants(vs: &Vec<String>) -> (r: HostTerm)
    ensures
        r@ == variants_term(vs@),
{
    let mut out: Vec<HostTerm> = Vec::new();
    let mut i: usize = 0;
    while i < vs.len()
        invariant
            0 <= i <= vs.len(),
            out@.len() == i,
            forall|j: int| 0 <= j < i ==> #[trigger] term_view(out@[j]) == Dyn::Text(vs@[j]@),
        decreases vs.len() - i,
    {
        out.push(HostTerm::Text(vs[i].clone()));
        i += 1;
    }
    proof {
        lemma_term_list_view(out);
        assert(terms_view(out@) =~= Seq::new(vs@.len(), |i: int| Dyn::Text(vs@[i]@)));
    }
    HostTerm::List(out)
}

fn encode_classes(cs: &Vec<ClassSchema>) -> (r: HostTerm)
    ensures
        r@ == Dyn::Dict(classes_entries(cs@)),
{
    let mut m = empty_map();
    let mut i: usize = 0;
    while i < cs.len()
        invariant
            0 <= i <= cs.len(),
            pairs_view(m@) == classes_entries(cs@.subrange(0, i as int)),
        decreases cs.len() - i,
    {
        assert(cs@.subrange(0, i + 1).drop_last() == cs@.subrange(0, i as int));
        let c = &cs[i];
        crate::codec::put_term(&mut m, HostTerm::Text(c.name.clone()), encode_text_map(&c.fields));
        i += 1;
    }
    assert(cs@.subrange(0, i as int) == cs@);
    dict(m)
}

fn encode_enums(es: &Vec<EnumSchema>) -> (r: HostTerm)
    ensures
        r@ == Dyn::Dict(enums_entries(es@)),
{
    let mut m = empty_map();
    let mut i: usize = 0;
    while i < es.len()
        invariant
            0 <= i <= es.len(),
            pairs_view(m@) == enums_entries(es@.subrange(0, i as int)),
        decreases es.len() - i,
    {
        assert(es@.subrange(0, i + 1).drop_last() == es@.subrange(0, i as int));
        let e = &es[i];
        crate::codec::put_term(&mut m, HostTerm::Text(e.name.clone()), encode_variants(&e.variants));
        i += 1;
    }
    assert(es@.subrange(0, i as int) == es@);
    dict(m)
}

fn encode_function(f: &FunctionSchema) -> (r: HostTerm)
    ensures
        r@ == function_term(*f),
{
    let mut m = empty_map();
    put_text(&mut m, "params", encode_text_map(&f.params));
    put_text(&mut m, "return_type", HostTerm::Text(f.return_type.clone()));
    dict(m)
}

fn encode_functions(fs: &Vec<FunctionSchema>) -> (r: HostTerm)
    ensures
        r@ == Dyn::Dict(functions_entries(fs@)),
{
    let mut m = empty_map();
    let mut i: usize = 0;
    while i < fs.len()
        invariant
            0 <= i <= fs.len(),
            pairs_view(m@) == functions_entries(fs@.subrange(0, i as int)),
        decreases fs.len() - i,
    {
        assert(fs@.subrange(0, i + 1).drop_last() == fs@.subrange(0, i as int));
        let f = &fs[i];
        crate::codec::put_term(&mut m, HostTerm::Text(f.name.clone()), encode_function(f));
        i += 1;
    }
    assert(fs@.subrange(0, i as int) == fs@);
    dict(m)
}

/// The host description of a schema's classes, enums and functions.
pub fn describe_schema(classes: &Vec<ClassSchema>, enums: &Vec<EnumSchema>, functions: &Vec<FunctionSchema>) -> (r: HostTerm)
    ensures
        r@ == schema_term(classes@, enums@, functions@),
{
    let mut m = empty_map();
    crate::codec::put_term(&mut m, atom_term("classes"), encode_classes(classes));
    crate::codec::put_term(&mut m, atom_term("enums"), encode_enums(enums));
    crate::codec::put_term(&mut m, atom_term("functions"), encode_functions(functions));
    dict(m)
}

} // verus!
