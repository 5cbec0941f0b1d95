//! What is stated of types and tables depends on their models alone: two
//! descriptors of one model are valid together and have one rank.

use vstd::prelude::*;
use crate::idl::{instruction_names, slot_names, IdlDefinition, IdlInstruction};
use crate::model::{
    field_models,
    instruction_models,
    lemma_type_model_parts,
    slot_models,
    type_model,
    variant_model,
    variant_models,
};
use crate::schema::{
    distinct_discriminants,
    field_names,
    rank,
    rank_fields,
    rank_variants,
    valid,
    valid_fields,
    valid_variants,
    variant_names,
    DiscriminantWidth,
    Field,
    TypeDescriptor,
    TypeTable,
    Variant,
};
use crate::table::ordered_by;

verus! {

/// Fields of the same models have the same names.
pub proof fn lemma_field_names_same(f1: &Vec<Field>, f2: &Vec<Field>)
    requires
        field_models(f1) == field_models(f2),
    ensures
        f1.len() == f2.len(),
        field_names(f1@) == field_names(f2@),
{
    assert(field_models(f1).len() == f1.len());
    assert(field_models(f2).len() == f2.len());
    assert forall|i: int| 0 <= i < f1.len() implies f1[i].name@ == f2[i].name@ by {
        assert(field_models(f1)[i] == field_models(f2)[i]);
    }
    assert(field_names(f1@) =~= field_names(f2@));
}

/// Variants of the same models have the same names and discriminants.
pub proof fn lemma_variant_names_same(v1: &Vec<Variant>, v2: &Vec<Variant>)
    requires
        variant_models(v1) == variant_models(v2),
    ensures
        v1.len() == v2.len(),
        variant_names(v1@) == variant_names(v2@),
        distinct_discriminants(v1@) == distinct_discriminants(v2@),
{
    assert(variant_models(v1).len() == v1.len());
    assert(variant_models(v2).len() == v2.len());
    assert forall|i: int| 0 <= i < v1.len() implies v1[i].name@ == v2[i].name@ && v1[i].discriminant
        == v2[i].discriminant by {
        assert(variant_models(v1)[i] == variant_model(&v1[i]));
        assert(variant_models(v2)[i] == variant_model(&v2[i]));
    }
    assert(variant_names(v1@) =~= variant_names(v2@));
    if distinct_discriminants(v1@) {
        assert forall|i: int, j: int| 0 <= i < j < v2.len() implies v2[i].discriminant
            != v2[j].discriminant by {
            assert(v1[i].discriminant != v1[j].discriminant);
        }
    }
    if distinct_discriminants(v2@) {
        assert forall|i: int, j: int| 0 <= i < j < v1.len() implies v1[i].discriminant
            != v1[j].discriminant by {
            assert(v2[i].discriminant != v2[j].discriminant);
        }
    }
}

/// Types of one model are valid together, in tables of the same names.
pub proof fn lemma_valid_same(
    d1: &TypeDescriptor,
    d2: &TypeDescriptor,
    t1: &TypeTable,
    t2: &TypeTable,
)
    requires
        type_model(d1) == type_model(d2),
        t1.names() == t2.names(),
    ensures
        valid(d1, t1) == valid(d2, t2),
    decreases d1, 0nat,
{
    lemma_type_model_parts(d1);
    lemma_type_model_parts(d2);
    match d1 {
        TypeDescriptor::Primitive(_) => {},
        TypeDescriptor::Vector(e1) => {
            let e2 = d2->Vector_0;
            lemma_valid_same(e1, &e2, t1, t2);
        },
        TypeDescriptor::Optional(e1) => {
            let e2 = d2->Optional_0;
            lemma_valid_same(e1, &e2, t1, t2);
        },
        TypeDescriptor::FixedArray(e1, _) => {
            let e2 = d2->FixedArray_0;
            lemma_valid_same(e1, &e2, t1, t2);
        },
        TypeDescriptor::Struct(f1) => {
            let f2 = d2->Struct_0;
            lemma_field_names_same(f1, &f2);
            lemma_valid_fields_same(f1, &f2, t1, t2, 0);
        },
        TypeDescriptor::Enum(w1, v1) => {
            let v2 = d2->Enum_1;
            lemma_variant_names_same(v1, &v2);
            lemma_valid_variants_same(v1, &v2, *w1, t1, t2, 0);
        },
        TypeDescriptor::DefinedRef(_) => {},
    }
}

pub proof fn lemma_valid_fields_same(
    f1: &Vec<Field>,
    f2: &Vec<Field>,
    t1: &TypeTable,
    t2: &TypeTable,
    from: int,
)
    requires
        field_models(f1) == field_models(f2),
        t1.names() == t2.names(),
        0 <= from,
    ensures
        valid_fields(f1, t1, from) == valid_fields(f2, t2, from),
    decreases f1, f1.len() - from,
{
    assert(field_models(f1).len() == f1.len());
    assert(field_models(f2).len() == f2.len());
    if from < f1.len() {
        assert(field_models(f1)[from] == field_models(f2)[from]);
        lemma_valid_same(&f1[from].ty, &f2[from].ty, t1, t2);
        lemma_valid_fields_same(f1, f2, t1, t2, from + 1);
    }
}

proof fn lemma_valid_variants_same(
    v1: &Vec<Variant>,
    v2: &Vec<Variant>,
    width: DiscriminantWidth,
    t1: &TypeTable,
    t2: &TypeTable,
    from: int,
)
    requires
        variant_models(v1) == variant_models(v2),
        t1.names() == t2.names(),
        0 <= from,
    ensures
        valid_variants(v1, width, t1, from) == valid_variants(v2, width, t2, from),
    decreases v1, v1.len() - from,
{
    assert(variant_models(v1).len() == v1.len());
    assert(variant_models(v2).len() == v2.len());
    if from < v1.len() {
        assert(variant_models(v1)[from] == variant_model(&v1[from]));
        assert(variant_models(v2)[from] == variant_model(&v2[from]));
        match v1[from].payload {
            Some(mine) => {
                let theirs = v2[from].payload->Some_0;
                lemma_valid_same(&mine, &theirs, t1, t2);
            },
            None => {},
        }
        lemma_valid_variants_same(v1, v2, width, t1, t2, from + 1);
    }
}

/// Types of one model have one rank, in tables of the same names and
/// depths.
pub proof fn lemma_rank_same(
    d1: &TypeDescriptor,
    d2: &TypeDescriptor,
    t1: &TypeTable,
    t2: &TypeTable,
)
    requires
        type_model(d1) == type_model(d2),
        t1.names() == t2.names(),
        t1.depths@ == t2.depths@,
    ensures
        rank(d1, t1) == rank(d2, t2),
    decreases d1, 0nat,
{
    lemma_type_model_parts(d1);
    lemma_type_model_parts(d2);
    match d1 {
        TypeDescriptor::Primitive(_) => {},
        TypeDescriptor::Vector(e1) => {
            let e2 = d2->Vector_0;
            lemma_rank_same(e1, &e2, t1, t2);
        },
        TypeDescriptor::Optional(e1) => {
            let e2 = d2->Optional_0;
            lemma_rank_same(e1, &e2, t1, t2);
        },
        TypeDescriptor::FixedArray(e1, _) => {
            let e2 = d2->FixedArray_0;
            lemma_rank_same(e1, &e2, t1, t2);
        },
        TypeDescriptor::Struct(f1) => {
            let f2 = d2->Struct_0;
            lemma_rank_fields_same(f1, &f2, t1, t2, 0);
        },
        TypeDescriptor::Enum(_, v1) => {
            let v2 = d2->Enum_1;
            lemma_rank_variants_same(v1, &v2, t1, t2, 0);
        },
        TypeDescriptor::DefinedRef(_) => {},
    }
}

proof fn lemma_rank_fields_same(
    f1: &Vec<Field>,
    f2: &Vec<Field>,
    t1: &TypeTable,
    t2: &TypeTable,
    from: int,
)
    requires
        field_models(f1) == field_models(f2),
        t1.names() == t2.names(),
        t1.depths@ == t2.depths@,
        0 <= from,
    ensures
        rank_fields(f1, t1, from) == rank_fields(f2, t2, from),
    decreases f1, f1.len() - from,
{
    assert(field_models(f1).len() == f1.len());
    assert(field_models(f2).len() == f2.len());
    if from < f1.len() {
        assert(field_models(f1)[from] == field_models(f2)[from]);
        lemma_rank_same(&f1[from].ty, &f2[from].ty, t1, t2);
        lemma_rank_fields_same(f1, f2, t1, t2, from + 1);
    }
}

proof fn lemma_rank_variants_same(
    v1: &Vec<Variant>,
    v2: &Vec<Variant>,
    t1: &TypeTable,
    t2: &TypeTable,
    from: int,
)
    requires
        variant_models(v1) == variant_models(v2),
        t1.names() == t2.names(),
        t1.depths@ == t2.depths@,
        0 <= from,
    ensures
        rank_variants(v1, t1, from) == rank_variants(v2, t2, from),
    decreases v1, v1.len() - from,
{
    assert(variant_models(v1).len() == v1.len());
    assert(variant_models(v2).len() == v2.len());
    if from < v1.len() {
        assert(variant_models(v1)[from] == variant_model(&v1[from]));
        assert(variant_models(v2)[from] == variant_model(&v2[from]));
        match v1[from].payload {
            Some(mine) => {
                let theirs = v2[from].payload->Some_0;
                lemma_rank_same(&mine, &theirs, t1, t2);
            },
            None => {},
        }
        lemma_rank_variants_same(v1, v2, t1, t2, from + 1);
    }
}

/// Entries of the same models are ordered by the same depths.
pub proof fn lemma_ordered_same(e1: Vec<Field>, e2: Vec<Field>, depths: Vec<usize>)
    requires
        field_models(&e1) == field_models(&e2),
        ordered_by(e2, depths),
    ensures
        ordered_by(e1, depths),
{
    let t1 = TypeTable { entries: e1, depths };
    let t2 = TypeTable { entries: e2, depths };
    lemma_field_names_same(&e1, &e2);
    assert(t1.names() =~= field_names(e1@));
    assert(t2.names() =~= field_names(e2@));
    assert forall|j: int| 0 <= j < e1.len() implies #[trigger] t1.settled(j) by {
        assert(t2.settled(j));
        assert(field_models(&e1)[j] == field_models(&e2)[j]);
        lemma_valid_same(&e1[j].ty, &e2[j].ty, &t1, &t2);
        lemma_rank_same(&e1[j].ty, &e2[j].ty, &t1, &t2);
    }
}

/// Instructions of one model are well-formed together, in tables of the
/// same names.
pub proof fn lemma_instruction_same(
    i1: &IdlInstruction,
    i2: &IdlInstruction,
    t1: &TypeTable,
    t2: &TypeTable,
)
    requires
        i1@ == i2@,
        t1.names() == t2.names(),
    ensures
        i1.wf(t1) == i2.wf(t2),
{
    assert(slot_models(&i1.accounts).len() == i1.accounts.len());
    assert(slot_models(&i2.accounts).len() == i2.accounts.len());
    assert forall|k: int| 0 <= k < i1.accounts.len() implies i1.accounts[k].name@
        == i2.accounts[k].name@ by {
        assert(slot_models(&i1.accounts)[k] == slot_models(&i2.accounts)[k]);
    }
    assert(slot_names(i1.accounts@) =~= slot_names(i2.accounts@));
    lemma_field_names_same(&i1.args, &i2.args);
    lemma_valid_fields_same(&i1.args, &i2.args, t1, t2, 0);
    match i1.returns {
        Some(r1) => {
            let r2 = i2.returns->Some_0;
            lemma_valid_same(&r1, &r2, t1, t2);
        },
        None => {},
    }
}

/// Definitions of one model have instructions of the same names.
pub proof fn lemma_instruction_names_same(a: &IdlDefinition, b: &IdlDefinition)
    requires
        a@ == b@,
    ensures
        a.instructions.len() == b.instructions.len(),
        instruction_names(a.instructions@) == instruction_names(b.instructions@),
        a.types.names() == b.types.names(),
        forall|i: int| 0 <= i < a.instructions.len() ==> a.instructions[i]@ == b.instructions[i]@,
{
    assert(instruction_models(&a.instructions).len() == a.instructions.len());
    assert(instruction_models(&b.instructions).len() == b.instructions.len());
    assert forall|i: int| 0 <= i < a.instructions.len() implies a.instructions[i]@
        == b.instructions[i]@ by {
        assert(instruction_models(&a.instructions)[i] == instruction_models(&b.instructions)[i]);
    }
    assert(instruction_names(a.instructions@) =~= instruction_names(b.instructions@));
    lemma_field_names_same(&a.types.entries, &b.types.entries);
    assert(a.types.names() =~= field_names(a.types.entries@));
    assert(b.types.names() =~= field_names(b.types.entries@));
}

} // verus!
