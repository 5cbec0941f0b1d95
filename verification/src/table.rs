//! Building the table of named types: checking every type, and ordering
//! the types so that references lead downwards.

use vstd::prelude::*;
use crate::codec::modulus;
use crate::errors::SchemaError;
use crate::names::{all_distinct, distinct, lemma_index_from, names_of};
use crate::schema::{
    distinct_discriminants,
    field_names,
    rank,
    rank_fields,
    rank_variants,
    valid,
    valid_fields,
    valid_variants,
    variant_names,
    DiscriminantWidth,
    Field,
    NamedType,
    TypeDescriptor,
    TypeTable,
    Variant,
};
use crate::wire::lemma_radix_values;

verus! {

/// Depths can be given to `entries` that make them a well-formed table:
/// no name is defined twice, every type is valid, and no chain of
/// references comes back to where it started.
pub open spec fn orderable(entries: Vec<NamedType>) -> bool {
    exists|depths: Vec<usize>| #[trigger] ordered_by(entries, depths)
}

/// With the depths `depths`, `entries` are a well-formed table.
pub open spec fn ordered_by(entries: Vec<NamedType>, depths: Vec<usize>) -> bool {
    (TypeTable { entries, depths }).wf()
}

/// Every depth of `t1` under `b1` is under `b2` in `t2`.
pub open spec fn depths_carry(t1: &TypeTable, t2: &TypeTable, b1: int, b2: int) -> bool {
    forall|k: int|
        0 <= k < t1.entries.len() && #[trigger] t1.depths[k] < b1 ==> t2.depths[k] < b2
}

/// A bound on the rank of a type carries over from one table to another
/// of the same entries, where the bound on the depths does.
proof fn lemma_rank_carries(d: &TypeDescriptor, t1: &TypeTable, t2: &TypeTable, b1: int, b2: int)
    requires
        t1.entries == t2.entries,
        depths_carry(t1, t2, b1, b2),
        rank(d, t1) <= b1,
        0 <= b2,
    ensures
        rank(d, t2) <= b2,
    decreases d, 0nat,
{
    match d {
        TypeDescriptor::Primitive(_) => {},
        TypeDescriptor::Vector(e) => lemma_rank_carries(e, t1, t2, b1, b2),
        TypeDescriptor::Optional(e) => lemma_rank_carries(e, t1, t2, b1, b2),
        TypeDescriptor::FixedArray(e, _) => lemma_rank_carries(e, t1, t2, b1, b2),
        TypeDescriptor::Struct(fields) => lemma_rank_fields_carry(fields, t1, t2, b1, b2, 0),
        TypeDescriptor::Enum(_, variants) => lemma_rank_variants_carry(
            variants,
            t1,
            t2,
            b1,
            b2,
            0,
        ),
        TypeDescriptor::DefinedRef(name) => {
            assert(t1.names() =~= t2.names());
            lemma_index_from(t1.names(), name@, 0);
        },
    }
}

proof fn lemma_rank_fields_carry(
    fields: &Vec<Field>,
    t1: &TypeTable,
    t2: &TypeTable,
    b1: int,
    b2: int,
    from: int,
)
    requires
        t1.entries == t2.entries,
        depths_carry(t1, t2, b1, b2),
        rank_fields(fields, t1, from) <= b1,
        0 <= b2,
        0 <= from,
    ensures
        rank_fields(fields, t2, from) <= b2,
    decreases fields, fields.len() - from,
{
    if from < fields.len() {
        lemma_rank_carries(&fields[from].ty, t1, t2, b1, b2);
        lemma_rank_fields_carry(fields, t1, t2, b1, b2, from + 1);
    }
}

proof fn lemma_rank_variants_carry(
    variants: &Vec<Variant>,
    t1: &TypeTable,
    t2: &TypeTable,
    b1: int,
    b2: int,
    from: int,
)
    requires
        t1.entries == t2.entries,
        depths_carry(t1, t2, b1, b2),
        rank_variants(variants, t1, from) <= b1,
        0 <= b2,
        0 <= from,
    ensures
        rank_variants(variants, t2, from) <= b2,
    decreases variants, variants.len() - from,
{
    if from < variants.len() {
        match variants[from].payload {
            Some(p) => lemma_rank_carries(&p, t1, t2, b1, b2),
            None => {},
        }
        lemma_rank_variants_carry(variants, t1, t2, b1, b2, from + 1);
    }
}

/// Whether a type is valid depends on the entries of the table alone.
proof fn lemma_valid_frame(d: &TypeDescriptor, t1: &TypeTable, t2: &TypeTable)
    requires
        t1.entries == t2.entries,
    ensures
        valid(d, t1) == valid(d, t2),
    decreases d, 0nat,
{
    match d {
        TypeDescriptor::Primitive(_) => {},
        TypeDescriptor::Vector(e) => lemma_valid_frame(e, t1, t2),
        TypeDescriptor::Optional(e) => lemma_valid_frame(e, t1, t2),
        TypeDescriptor::FixedArray(e, _) => lemma_valid_frame(e, t1, t2),
        TypeDescriptor::Struct(fields) => lemma_valid_fields_frame(fields, t1, t2, 0),
        TypeDescriptor::Enum(width, variants) => lemma_valid_variants_frame(
            variants,
            *width,
            t1,
            t2,
            0,
        ),
        TypeDescriptor::DefinedRef(name) => {
            assert(t1.names() =~= t2.names());
        },
    }
}

proof fn lemma_valid_fields_frame(fields: &Vec<Field>, t1: &TypeTable, t2: &TypeTable, from: int)
    requires
        t1.entries == t2.entries,
        0 <= from,
    ensures
        valid_fields(fields, t1, from) == valid_fields(fields, t2, from),
    decreases fields, fields.len() - from,
{
    if from < fields.len() {
        lemma_valid_frame(&fields[from].ty, t1, t2);
        lemma_valid_fields_frame(fields, t1, t2, from + 1);
    }
}

proof fn lemma_valid_variants_frame(
    variants: &Vec<Variant>,
    width: DiscriminantWidth,
    t1: &TypeTable,
    t2: &TypeTable,
    from: int,
)
    requires
        t1.entries == t2.entries,
        0 <= from,
    ensures
        valid_variants(variants, width, t1, from) == valid_variants(variants, width, t2, from),
    decreases variants, variants.len() - from,
{
    if from < variants.len() {
        match variants[from].payload {
            Some(p) => lemma_valid_frame(&p, t1, t2),
            None => {},
        }
        lemma_valid_variants_frame(variants, width, t1, t2, from + 1);
    }
}

/// Whether the rank of `d` is at most `bound`.
fn rank_within(d: &TypeDescriptor, t: &TypeTable, bound: usize) -> (r: bool)
    requires
        t.depths.len() == t.entries.len(),
    ensures
        r == (rank(d, t) <= bound),
    decreases d, 0nat,
{
    match d {
        TypeDescriptor::Primitive(_) => true,
        TypeDescriptor::Vector(e) => rank_within(e, t, bound),
        TypeDescriptor::Optional(e) => rank_within(e, t, bound),
        TypeDescriptor::FixedArray(e, _) => rank_within(e, t, bound),
        TypeDescriptor::Struct(fields) => {
            let mut i: usize = 0;
            while i < fields.len()
                invariant
                    i <= fields.len(),
                    d matches TypeDescriptor::Struct(others) && others == fields,
                    t.depths.len() == t.entries.len(),
                    (rank_fields(fields, t, 0) <= bound) == (rank_fields(fields, t, i as int)
                        <= bound),
                decreases fields.len() - i,
            {
                if !rank_within(&fields[i].ty, t, bound) {
                    return false;
                }
                i += 1;
            }
            true
        },
        TypeDescriptor::Enum(_, variants) => {
            let mut i: usize = 0;
            while i < variants.len()
                invariant
                    i <= variants.len(),
                    d matches TypeDescriptor::Enum(_, others) && others == variants,
                    t.depths.len() == t.entries.len(),
                    (rank_variants(variants, t, 0) <= bound) == (rank_variants(
                        variants,
                        t,
                        i as int,
                    ) <= bound),
                decreases variants.len() - i,
            {
                match &variants[i].payload {
                    Some(p) => {
                        if !rank_within(p, t, bound) {
                            return false;
                        }
                    },
                    None => {},
                }
                i += 1;
            }
            true
        },
        TypeDescriptor::DefinedRef(name) => match t.find(name) {
            Some(j) => t.depths[j] < bound,
            None => true,
        },
    }
}

/// Whether no two variants have the same discriminant.
fn discriminants_distinct(variants: &Vec<Variant>) -> (r: bool)
    ensures
        r == distinct_discriminants(variants@),
{
    let mut i: usize = 0;
    while i < variants.len()
        invariant
            i <= variants.len(),
            forall|a: int, b: int|
                0 <= a < b < variants.len() && a < i ==> variants[a].discriminant
                    != variants[b].discriminant,
        decreases variants.len() - i,
    {
        let mut j: usize = i + 1;
        while j < variants.len()
            invariant
                i < j <= variants.len(),
                forall|b: int|
                    i < b < j ==> variants[i as int].discriminant != variants[b].discriminant,
            decreases variants.len() - j,
        {
            if variants[i].discriminant == variants[j].discriminant {
                return false;
            }
            j += 1;
        }
        i += 1;
    }
    true
}

/// Whether `d` is valid in `t`.
pub fn is_valid(d: &TypeDescriptor, t: &TypeTable) -> (r: bool)
    ensures
        r == valid(d, t),
    decreases d, 0nat,
{
    match d {
        TypeDescriptor::Primitive(_) => true,
        TypeDescriptor::Vector(e) => is_valid(e, t),
        TypeDescriptor::Optional(e) => is_valid(e, t),
        TypeDescriptor::FixedArray(e, _) => is_valid(e, t),
        TypeDescriptor::Struct(fields) => {
            assert(names_of(fields@) =~= field_names(fields@));
            if !all_distinct(fields) {
                return false;
            }
            let mut i: usize = 0;
            while i < fields.len()
                invariant
                    i <= fields.len(),
                    d matches TypeDescriptor::Struct(others) && others == fields,
                    distinct(field_names(fields@)),
                    valid_fields(fields, t, 0) == valid_fields(fields, t, i as int),
                decreases fields.len() - i,
            {
                if !is_valid(&fields[i].ty, t) {
                    return false;
                }
                i += 1;
            }
            true
        },
        TypeDescriptor::Enum(width, variants) => {
            assert(names_of(variants@) =~= variant_names(variants@));
            if !all_distinct(variants) || !discriminants_distinct(variants) {
                return false;
            }
            let w: usize = width.byte_count();
            proof {
                lemma_radix_values();
            }
            let mut i: usize = 0;
            while i < variants.len()
                invariant
                    i <= variants.len(),
                    d matches TypeDescriptor::Enum(same, others) && others == variants && same
                        == width,
                    distinct(variant_names(variants@)),
                    distinct_discriminants(variants@),
                    w == width.bytes(),
                    valid_variants(variants, *width, t, 0) == valid_variants(
                        variants,
                        *width,
                        t,
                        i as int,
                    ),
                decreases variants.len() - i,
            {
                proof {
                    lemma_radix_values();
                }
                if w < 8 && variants[i].discriminant as i128 >= modulus(w) {
                    return false;
                }
                match &variants[i].payload {
                    Some(p) => {
                        if !is_valid(p, t) {
                            return false;
                        }
                    },
                    None => {},
                }
                i += 1;
            }
            true
        },
        TypeDescriptor::DefinedRef(name) => t.find(name).is_some(),
    }
}

/// How many of the first `upto` depths are `mark`.
pub open spec fn marked(depths: Seq<usize>, mark: usize, upto: int) -> nat
    decreases upto,
{
    if upto <= 0 {
        0
    } else {
        marked(depths, mark, upto - 1) + if depths[upto - 1] == mark {
            1nat
        } else {
            0nat
        }
    }
}

proof fn lemma_marked_update(depths: Seq<usize>, mark: usize, j: int, v: usize, upto: int)
    requires
        0 <= j < depths.len(),
        0 <= upto <= depths.len(),
        depths[j] == mark,
        v != mark,
    ensures
        marked(depths.update(j, v), mark, upto) + (if j < upto {
            1nat
        } else {
            0nat
        }) == marked(depths, mark, upto),
    decreases upto,
{
    if upto > 0 {
        lemma_marked_update(depths, mark, j, v, upto - 1);
    }
}

proof fn lemma_marked_none(depths: Seq<usize>, mark: usize, upto: int, k: int)
    requires
        0 <= k < upto <= depths.len(),
        marked(depths, mark, upto) == 0,
    ensures
        depths[k] != mark,
    decreases upto,
{
    if k < upto - 1 {
        lemma_marked_none(depths, mark, upto - 1, k);
    }
}

/// Among the marked entries, one whose witness depth is least.
proof fn lemma_least_marked(depths: Seq<usize>, mark: usize, witness: Seq<usize>, upto: int) -> (j:
    int)
    requires
        0 <= upto <= depths.len(),
        depths.len() == witness.len(),
        marked(depths, mark, upto) > 0,
    ensures
        0 <= j < upto,
        depths[j] == mark,
        forall|k: int| 0 <= k < upto && #[trigger] depths[k] == mark ==> witness[j] <= witness[k],
    decreases upto,
{
    if marked(depths, mark, upto - 1) > 0 {
        let j = lemma_least_marked(depths, mark, witness, upto - 1);
        if depths[upto - 1] == mark && witness[upto - 1] < witness[j] {
            upto - 1
        } else {
            j
        }
    } else {
        assert forall|k: int| 0 <= k < upto - 1 implies #[trigger] depths[k] != mark by {
            lemma_marked_none(depths, mark, upto - 1, k);
        }
        upto - 1
    }
}

/// The entry at index `k` either waits for its depth, or has a depth
/// under `level` that is at least the rank of its type.
pub open spec fn placed(t: &TypeTable, k: int, level: int) -> bool {
    t.depths[k] == t.entries.len() || (t.depths[k] < level && rank(&t.entries[k].ty, t)
        <= t.depths[k])
}

/// The entry at index `k` does not wait for a depth that it could have at
/// `level`.
pub open spec fn stuck(t: &TypeTable, k: int, level: int) -> bool {
    t.depths[k] == t.entries.len() ==> rank(&t.entries[k].ty, t) > level
}

impl TypeTable {
    /// The table of `entries`, each with a depth, if they can be ordered:
    /// if no name is defined twice, every type is valid, and no chain of
    /// references comes back to where it started. `MalformedIdl` if not.
    pub fn build(entries: Vec<NamedType>) -> (r: Result<TypeTable, SchemaError>)
        ensures
            match r {
                Ok(t) => t.entries == entries && t.wf(),
                Err(e) => e == SchemaError::MalformedIdl && !orderable(entries),
            },
    {
        let n: usize = entries.len();
        let mut depths: Vec<usize> = Vec::new();
        let mut i: usize = 0;
        while i < n
            invariant
                i <= n,
                depths.len() == i,
                forall|k: int| 0 <= k < i ==> depths[k] == n,
                marked(depths@, n, i as int) == i,
            decreases n - i,
        {
            let ghost earlier = depths@;
            depths.push(n);
            proof {
                lemma_marked_same(earlier, depths@, n, i as int);
            }
            i += 1;
        }
        let mut table = TypeTable { entries, depths };
        let mut level: usize = 0;
        let mut waiting: usize = n;
        while waiting > 0
            invariant
                table.entries == entries,
                table.depths.len() == n,
                n == entries.len(),
                waiting == marked(table.depths@, n, n as int),
                level + waiting <= n,
                forall|k: int| 0 <= k < n ==> #[trigger] placed(&table, k, level as int),
            decreases waiting,
        {
            let before: usize = waiting;
            assert forall|k: int| 0 <= k < n implies #[trigger] placed(&table, k, level + 1) by {
                assert(placed(&table, k, level as int));
            }
            let mut j: usize = 0;
            while j < n
                invariant
                    j <= n,
                    table.entries == entries,
                    table.depths.len() == n,
                    n == entries.len(),
                    waiting == marked(table.depths@, n, n as int),
                    waiting <= before,
                    level + before <= n,
                    before > 0,
                    forall|k: int| 0 <= k < n ==> #[trigger] placed(&table, k, level + 1),
                    waiting == before ==> forall|k: int|
                        0 <= k < n ==> #[trigger] placed(&table, k, level as int),
                    waiting == before ==> forall|k: int|
                        0 <= k < j ==> #[trigger] stuck(&table, k, level as int),
                decreases n - j,
            {
                if table.depths[j] == n && rank_within(&table.entries[j].ty, &table, level) {
                    let ghost old_table = table;
                    table.depths[j] = level;
                    proof {
                        lemma_marked_update(old_table.depths@, n, j as int, level, n as int);
                        assert(table.depths@ =~= old_table.depths@.update(j as int, level));
                        assert forall|k: int| 0 <= k < n implies #[trigger] placed(
                            &table,
                            k,
                            level + 1,
                        ) by {
                            assert(placed(&old_table, k, level + 1));
                            if k == j {
                                let b = level as int;
                                assert(depths_carry(&old_table, &table, b, b));
                                lemma_rank_carries(
                                    &table.entries[k].ty,
                                    &old_table,
                                    &table,
                                    level as int,
                                    level as int,
                                );
                            } else if old_table.depths[k] != n {
                                let b = old_table.depths[k] as int;
                                assert(depths_carry(&old_table, &table, b, b));
                                lemma_rank_carries(&table.entries[k].ty, &old_table, &table, b, b);
                            }
                        }
                    }
                    waiting = waiting - 1;
                }
                j += 1;
            }
            if waiting == before {
                proof {
                    if orderable(entries) {
                        let witness = choose|depths: Vec<usize>| #[trigger]
                            ordered_by(entries, depths);
                        let other = TypeTable { entries, depths: witness };
                        let m = lemma_least_marked(table.depths@, n, witness@, n as int);
                        assert(other.settled(m));
                        assert(stuck(&table, m, level as int));
                        assert forall|k: int|
                            0 <= k < n && #[trigger] other.depths[k]
                                < witness[m] implies table.depths[k] < level by {
                            assert(placed(&table, k, level as int));
                        }
                        assert(depths_carry(&other, &table, witness[m] as int, level as int));
                        lemma_rank_carries(
                            &entries[m].ty,
                            &other,
                            &table,
                            witness[m] as int,
                            level as int,
                        );
                    }
                }
                return Err(SchemaError::MalformedIdl);
            }
            level = level + 1;
        }
        assert(names_of(table.entries@) =~= table.names());
        if !all_distinct(&table.entries) {
            proof {
                if orderable(entries) {
                    let witness = choose|depths: Vec<usize>| #[trigger]
                        ordered_by(entries, depths);
                    let other = TypeTable { entries, depths: witness };
                    assert(other.names() =~= table.names());
                }
            }
            return Err(SchemaError::MalformedIdl);
        }
        let mut k: usize = 0;
        while k < n
            invariant
                k <= n,
                n == entries.len(),
                table.entries == entries,
                table.depths.len() == n,
                forall|m: int| 0 <= m < k ==> valid(&(#[trigger] table.entries[m]).ty, &table),
            decreases n - k,
        {
            if !is_valid(&table.entries[k].ty, &table) {
                proof {
                    if orderable(entries) {
                        let witness = choose|depths: Vec<usize>| #[trigger]
                            ordered_by(entries, depths);
                        let other = TypeTable { entries, depths: witness };
                        assert(other.settled(k as int));
                        lemma_valid_frame(&entries[k as int].ty, &other, &table);
                    }
                }
                return Err(SchemaError::MalformedIdl);
            }
            k += 1;
        }
        proof {
            assert forall|m: int| 0 <= m < n implies #[trigger] table.settled(m) by {
                lemma_marked_none(table.depths@, n, n as int, m);
                assert(placed(&table, m, level as int));
                assert(valid(&table.entries[m].ty, &table));
            }
        }
        Ok(table)
    }
}

/// Counting marks looks only at the depths counted.
proof fn lemma_marked_same(a: Seq<usize>, b: Seq<usize>, mark: usize, upto: int)
    requires
        0 <= upto <= a.len(),
        upto <= b.len(),
        forall|k: int| 0 <= k < upto ==> a[k] == b[k],
    ensures
        marked(a, mark, upto) == marked(b, mark, upto),
    decreases upto,
{
    if upto > 0 {
        lemma_marked_same(a, b, mark, upto - 1);
    }
}

} // verus!
