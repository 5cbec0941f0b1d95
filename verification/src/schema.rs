//! Type descriptors and the table of named types they refer to.

use vstd::prelude::*;
use crate::names::{distinct, index_from, index_of, Named};
use crate::wire::radix;

verus! {

/// The kinds of value that have no parts.
#[derive(Clone, Copy, Debug, PartialEq, Eq, Structural)]
pub enum PrimitiveKind {
    Bool,
    U8,
    U16,
    U32,
    U64,
    I8,
    I16,
    I32,
    I64,
    F32,
    F64,
    Text,
    Pubkey,
}

/// How many bytes the index of an enum's variant takes on the wire.
#[derive(Clone, Copy, Debug, PartialEq, Eq, Structural)]
pub enum DiscriminantWidth {
    One,
    Two,
    Four,
    Eight,
}

impl DiscriminantWidth {
    pub open spec fn bytes(self) -> nat {
        match self {
            DiscriminantWidth::One => 1,
            DiscriminantWidth::Two => 2,
            DiscriminantWidth::Four => 4,
            DiscriminantWidth::Eight => 8,
        }
    }

    pub fn byte_count(self) -> (w: usize)
        ensures
            w == self.bytes(),
    {
        match self {
            DiscriminantWidth::One => 1,
            DiscriminantWidth::Two => 2,
            DiscriminantWidth::Four => 4,
            DiscriminantWidth::Eight => 8,
        }
    }
}

/// The shape of a value and of its bytes.
#[derive(Debug, PartialEq, Eq)]
pub enum TypeDescriptor {
    Primitive(PrimitiveKind),
    /// Any number of elements of one type.
    Vector(Box<TypeDescriptor>),
    /// A value that may be absent.
    Optional(Box<TypeDescriptor>),
    /// A fixed number of elements of one type.
    FixedArray(Box<TypeDescriptor>, usize),
    /// Named fields, in the order of their declaration.
    Struct(Vec<Field>),
    /// One of several named variants, told apart by a discriminant.
    Enum(DiscriminantWidth, Vec<Variant>),
    /// The type that the table holds under this name.
    DefinedRef(String),
}

#[derive(Debug, PartialEq, Eq)]
pub struct Field {
    pub name: String,
    pub ty: TypeDescriptor,
}

#[derive(Debug, PartialEq, Eq)]
pub struct Variant {
    pub name: String,
    pub discriminant: u64,
    pub payload: Option<TypeDescriptor>,
}

/// A type, defined under a name.
pub type NamedType = Field;

/// The named types of one interface definition. Each entry has a depth,
/// which is more than the depth of every entry that its type refers to.
#[derive(Debug, PartialEq, Eq)]
pub struct TypeTable {
    pub entries: Vec<NamedType>,
    pub depths: Vec<usize>,
}

impl Named for Field {
    open spec fn name_model(&self) -> Seq<char> {
        self.name@
    }

    fn name_ref(&self) -> (r: &String) {
        &self.name
    }
}

impl Named for Variant {
    open spec fn name_model(&self) -> Seq<char> {
        self.name@
    }

    fn name_ref(&self) -> (r: &String) {
        &self.name
    }
}

pub open spec fn field_names(fields: Seq<Field>) -> Seq<Seq<char>> {
    Seq::new(fields.len(), |i: int| fields[i].name@)
}

pub open spec fn variant_names(variants: Seq<Variant>) -> Seq<Seq<char>> {
    Seq::new(variants.len(), |i: int| variants[i].name@)
}

pub open spec fn distinct_discriminants(variants: Seq<Variant>) -> bool {
    forall|i: int, j: int|
        0 <= i < j < variants.len() ==> variants[i].discriminant != variants[j].discriminant
}

pub open spec fn max_nat(a: nat, b: nat) -> nat {
    if a >= b {
        a
    } else {
        b
    }
}

/// One more than the greatest depth of a named type that `d` refers to, and
/// 0 if it refers to none. A reference leads to a type of lower rank when
/// the table is well-formed.
pub open spec fn rank(d: &TypeDescriptor, t: &TypeTable) -> nat
    decreases d, 0nat,
{
    match d {
        TypeDescriptor::Primitive(_) => 0,
        TypeDescriptor::Vector(e) => rank(e, t),
        TypeDescriptor::Optional(e) => rank(e, t),
        TypeDescriptor::FixedArray(e, _) => rank(e, t),
        TypeDescriptor::Struct(fields) => rank_fields(fields, t, 0),
        TypeDescriptor::Enum(_, variants) => rank_variants(variants, t, 0),
        TypeDescriptor::DefinedRef(name) => match index_of(t.names(), name@) {
            Some(j) => (t.depths[j] + 1) as nat,
            None => 0,
        },
    }
}

pub open spec fn rank_fields(fields: &Vec<Field>, t: &TypeTable, from: int) -> nat
    decreases fields, fields.len() - from,
{
    if from < 0 || from >= fields.len() {
        0
    } else {
        max_nat(rank(&fields[from].ty, t), rank_fields(fields, t, from + 1))
    }
}

pub open spec fn rank_variants(variants: &Vec<Variant>, t: &TypeTable, from: int) -> nat
    decreases variants, variants.len() - from,
{
    if from < 0 || from >= variants.len() {
        0
    } else {
        max_nat(
            match variants[from].payload {
                Some(p) => rank(&p, t),
                None => 0,
            },
            rank_variants(variants, t, from + 1),
        )
    }
}

/// Every name that `d` refers to is in the table, no struct names a field
/// twice, and no enum names a variant twice, gives two variants one
/// discriminant, or has a discriminant that its width cannot hold.
pub open spec fn valid(d: &TypeDescriptor, t: &TypeTable) -> bool
    decreases d, 0nat,
{
    match d {
        TypeDescriptor::Primitive(_) => true,
        TypeDescriptor::Vector(e) => valid(e, t),
        TypeDescriptor::Optional(e) => valid(e, t),
        TypeDescriptor::FixedArray(e, _) => valid(e, t),
        TypeDescriptor::Struct(fields) => distinct(field_names(fields@)) && valid_fields(
            fields,
            t,
            0,
        ),
        TypeDescriptor::Enum(width, variants) => {
            &&& distinct(variant_names(variants@))
            &&& distinct_discriminants(variants@)
            &&& valid_variants(variants, *width, t, 0)
        },
        TypeDescriptor::DefinedRef(name) => index_of(t.names(), name@).is_some(),
    }
}

pub open spec fn valid_fields(fields: &Vec<Field>, t: &TypeTable, from: int) -> bool
    decreases fields, fields.len() - from,
{
    if from < 0 || from >= fields.len() {
        true
    } else {
        valid(&fields[from].ty, t) && valid_fields(fields, t, from + 1)
    }
}

pub open spec fn valid_variants(
    variants: &Vec<Variant>,
    width: DiscriminantWidth,
    t: &TypeTable,
    from: int,
) -> bool
    decreases variants, variants.len() - from,
{
    if from < 0 || from >= variants.len() {
        true
    } else {
        &&& variants[from].discriminant < radix(width.bytes())
        &&& match variants[from].payload {
            Some(p) => valid(&p, t),
            None => true,
        }
        &&& valid_variants(variants, width, t, from + 1)
    }
}

impl TypeTable {
    pub open spec fn names(&self) -> Seq<Seq<char>> {
        Seq::new(self.entries.len() as nat, |i: int| self.entries[i].name@)
    }

    /// Index of the entry that a reference to `name` leads to: the first
    /// entry of that name, if following it lowers the rank.
    pub open spec fn target(&self, name: Seq<char>) -> Option<int> {
        match index_of(self.names(), name) {
            Some(j) => if 0 <= j < self.entries.len() && rank(&self.entries[j].ty, self)
                <= self.depths[j] {
                Some(j)
            } else {
                None
            },
            None => None,
        }
    }

    /// Index of the first entry named `name`.
    pub fn find(&self, name: &String) -> (r: Option<usize>)
        ensures
            match r {
                Some(j) => j < self.entries.len() && index_of(self.names(), name@) == Some(
                    j as int,
                ),
                None => index_of(self.names(), name@).is_none(),
            },
    {
        let mut i: usize = 0;
        while i < self.entries.len()
            invariant
                i <= self.entries.len(),
                index_of(self.names(), name@) == index_from(self.names(), name@, i as int),
            decreases self.entries.len() - i,
        {
            if self.entries[i].name == *name {
                return Some(i);
            }
            i += 1;
        }
        None
    }

    /// The type of the entry at index `j` is valid, and refers only to
    /// entries of lower depth.
    pub open spec fn settled(&self, j: int) -> bool {
        valid(&self.entries[j].ty, self) && rank(&self.entries[j].ty, self) <= self.depths[j]
    }

    /// No name is defined twice, every type is valid, and every reference
    /// leads to a type of lower depth, so that no chain of references
    /// comes back to where it started.
    pub open spec fn wf(&self) -> bool {
        &&& distinct(self.names())
        &&& self.depths.len() == self.entries.len()
        &&& forall|j: int| 0 <= j < self.entries.len() ==> #[trigger] self.settled(j)
    }

    /// The table without entries.
    pub fn empty() -> (t: TypeTable)
        ensures
            t.wf(),
            t.entries@.len() == 0,
    {
        TypeTable { entries: Vec::new(), depths: Vec::new() }
    }
}

/// The rank of a struct is at least that of each of its fields.
pub proof fn lemma_rank_fields(fields: &Vec<Field>, t: &TypeTable, from: int, i: int)
    requires
        0 <= from <= i < fields.len(),
    ensures
        rank(&fields[i].ty, t) <= rank_fields(fields, t, from),
    decreases i - from,
{
    if from < i {
        lemma_rank_fields(fields, t, from + 1, i);
    }
}

/// The rank of an enum is at least that of each payload of its variants.
pub proof fn lemma_rank_variants(variants: &Vec<Variant>, t: &TypeTable, from: int, i: int)
    requires
        0 <= from <= i < variants.len(),
    ensures
        match variants[i].payload {
            Some(p) => rank(&p, t) <= rank_variants(variants, t, from),
            None => true,
        },
    decreases i - from,
{
    if from < i {
        lemma_rank_variants(variants, t, from + 1, i);
    }
}

} // verus!
