//! The resolved type model: type sizes, structural/nominal equality, and the
//! `BottomType`-absorbing compatibility rule used by all type checks.

use vstd::prelude::*;

use crate::ast::PrimitiveKind;

verus! {

/// A user-defined composite type: a name, an ordered `name -> (offset, type)`
/// field layout, and a total size in bytes.
///
/// Two composite types are equal iff their names match: type names are unique
/// within a program by construction elsewhere.
#[derive(PartialEq, Eq, Debug)]
pub struct CompositeType {
    pub name: String,
    pub fields: Vec<(String, (u32, Type))>,
    pub size: u32,
}

/// A resolved type.
#[derive(PartialEq, Eq, Debug)]
pub enum Type {
    Bool,
    Int,
    /// The zero-size "no value" type.
    Unit,
    /// The divergent type of a path that never completes normally; it is
    /// compatible with every other type.
    BottomType,
    Array(Box<Type>, u32),
    Pointer(Box<Type>),
    Composite(Box<CompositeType>),
}

/// Equality of resolved types: structural for all variants except
/// `Composite`, which is nominal (names are unique per program).
pub open spec fn type_eq(a: Type, b: Type) -> bool
    decreases a,
{
    match (a, b) {
        (Type::Bool, Type::Bool) => true,
        (Type::Int, Type::Int) => true,
        (Type::Unit, Type::Unit) => true,
        (Type::BottomType, Type::BottomType) => true,
        (Type::Array(t1, n1), Type::Array(t2, n2)) => n1 == n2 && type_eq(*t1, *t2),
        (Type::Pointer(t1), Type::Pointer(t2)) => type_eq(*t1, *t2),
        (Type::Composite(c1), Type::Composite(c2)) => c1.name@ == c2.name@,
        _ => false,
    }
}

/// Two types pass a type check iff either one is `BottomType` (a divergent
/// path is compatible with anything) or they are equal under `type_eq`.
pub open spec fn compatible(a: Type, b: Type) -> bool {
    a is BottomType || b is BottomType || type_eq(a, b)
}

impl Type {
    /// The size of the type in bytes, as a mathematical value.
    pub open spec fn spec_size(self) -> int
        decreases self,
    {
        match self {
            Type::Bool => 4,
            Type::Int => 4,
            Type::Unit => 0,
            Type::BottomType => 0,
            Type::Array(t, n) => (*t).spec_size() * (n as int),
            Type::Pointer(_) => 4,
            Type::Composite(c) => c.size as int,
        }
    }

    /// Every size computation that `size` performs on this type fits in `u32`.
    pub open spec fn sized(self) -> bool
        decreases self,
    {
        self.spec_size() <= u32::MAX as int && match self {
            Type::Array(t, _) => (*t).sized(),
            _ => true,
        }
    }

    /// Returns the size of the type in bytes.
    /// Currently all types must be word aligned.
    pub fn size(&self) -> (r: u32)
        requires
            self.sized(),
        ensures
            r as int == self.spec_size(),
        decreases *self,
    {
        match self {
            Type::Bool => 4,
            Type::Int => 4,
            Type::Unit => 0,
            Type::BottomType => 0,
            Type::Array(t, amount) => t.size() * *amount,
            Type::Pointer(_) => 4,
            Type::Composite(c) => c.size,
        }
    }

    /// An owned copy of the type: equal under `type_eq`, with the same size.
    pub fn dup(&self) -> (r: Type)
        ensures
            type_eq(r, *self),
            r.spec_size() == self.spec_size(),
            r.sized() == self.sized(),
        decreases *self,
    {
        match self {
            Type::Bool => Type::Bool,
            Type::Int => Type::Int,
            Type::Unit => Type::Unit,
            Type::BottomType => Type::BottomType,
            Type::Array(t, amount) => Type::Array(Box::new(t.dup()), *amount),
            Type::Pointer(t) => Type::Pointer(Box::new(t.dup())),
            Type::Composite(c) => Type::Composite(Box::new(c.dup())),
        }
    }
}

impl CompositeType {
    /// An owned copy with the same name and size and a field-for-field copy
    /// of the layout.
    pub fn dup(&self) -> (r: CompositeType)
        ensures
            r.name@ == self.name@,
            r.size == self.size,
        decreases *self,
    {
        let mut fields: Vec<(String, (u32, Type))> = Vec::new();
        let n = self.fields.len();
        for i in 0..n
            invariant
                n == self.fields.len(),
            decreases n - i,
        {
            let field = &self.fields[i];
            proof {
                assert(decreases_to!(*self => self.fields));
                assert(decreases_to!(self.fields => self.fields@));
                assert(decreases_to!(self.fields@ => self.fields@[i as int]));
                assert(decreases_to!(self.fields@[i as int] => self.fields@[i as int].1));
                assert(decreases_to!(self.fields@[i as int].1 => self.fields@[i as int].1.1));
            }
            fields.push((field.0.clone(), (field.1.0, field.1.1.dup())));
        }
        CompositeType { name: self.name.clone(), fields, size: self.size }
    }
}

/// Decides `type_eq` on two resolved types.
pub fn types_equal(a: &Type, b: &Type) -> (r: bool)
    ensures
        r == type_eq(*a, *b),
    decreases *a,
{
    match (a, b) {
        (Type::Bool, Type::Bool) => true,
        (Type::Int, Type::Int) => true,
        (Type::Unit, Type::Unit) => true,
        (Type::BottomType, Type::BottomType) => true,
        (Type::Array(t1, n1), Type::Array(t2, n2)) => *n1 == *n2 && types_equal(t1, t2),
        (Type::Pointer(t1), Type::Pointer(t2)) => types_equal(t1, t2),
        (Type::Composite(c1), Type::Composite(c2)) => c1.name == c2.name,
        _ => false,
    }
}

/// Decides the `BottomType`-absorbing compatibility rule.
pub fn types_compatible(a: &Type, b: &Type) -> (r: bool)
    ensures
        r == compatible(*a, *b),
{
    match (a, b) {
        (Type::BottomType, _) => true,
        (_, Type::BottomType) => true,
        _ => types_equal(a, b),
    }
}

/// The resolved type of each primitive type reference; this is the fixed
/// global type table.
pub open spec fn spec_primitive_type(k: PrimitiveKind) -> Type {
    match k {
        PrimitiveKind::IntType => Type::Int,
        PrimitiveKind::BoolType => Type::Bool,
        PrimitiveKind::UnitType => Type::Unit,
        PrimitiveKind::BottomKind => Type::BottomType,
    }
}

/// Looks a primitive type reference up in the fixed global type table.
pub fn primitive_type(k: PrimitiveKind) -> (r: Type)
    ensures
        r == spec_primitive_type(k),
        r.sized(),
        r.spec_size() <= 4,
{
    match k {
        PrimitiveKind::IntType => Type::Int,
        PrimitiveKind::BoolType => Type::Bool,
        PrimitiveKind::UnitType => Type::Unit,
        PrimitiveKind::BottomKind => Type::BottomType,
    }
}

impl PrimitiveKind {
    /// The size in bytes of the primitive's resolved type.
    pub fn size(&self) -> (r: u32)
        ensures
            r as int == spec_primitive_type(*self).spec_size(),
    {
        match self {
            PrimitiveKind::IntType => 4,
            PrimitiveKind::BoolType => 4,
            PrimitiveKind::UnitType => 0,
            PrimitiveKind::BottomKind => 0,
        }
    }
}

/// `type_eq` is reflexive.
pub proof fn lemma_type_eq_refl(a: Type)
    ensures
        type_eq(a, a),
    decreases a,
{
    match a {
        Type::Array(t, _) => lemma_type_eq_refl(*t),
        Type::Pointer(t) => lemma_type_eq_refl(*t),
        _ => {},
    }
}

/// `type_eq` is symmetric.
pub proof fn lemma_type_eq_sym(a: Type, b: Type)
    ensures
        type_eq(a, b) == type_eq(b, a),
    decreases a,
{
    match (a, b) {
        (Type::Array(t1, _), Type::Array(t2, _)) => lemma_type_eq_sym(*t1, *t2),
        (Type::Pointer(t1), Type::Pointer(t2)) => lemma_type_eq_sym(*t1, *t2),
        _ => {},
    }
}

/// `type_eq` is transitive.
pub proof fn lemma_type_eq_trans(a: Type, b: Type, c: Type)
    ensures
        type_eq(a, b) && type_eq(b, c) ==> type_eq(a, c),
    decreases a,
{
    match (a, b, c) {
        (Type::Array(t1, _), Type::Array(t2, _), Type::Array(t3, _)) => {
            lemma_type_eq_trans(*t1, *t2, *t3)
        },
        (Type::Pointer(t1), Type::Pointer(t2), Type::Pointer(t3)) => {
            lemma_type_eq_trans(*t1, *t2, *t3)
        },
        _ => {},
    }
}

/// A type equal to a primitive under `type_eq` is that primitive.
pub proof fn lemma_type_eq_primitive(x: Type, k: PrimitiveKind)
    requires
        type_eq(x, spec_primitive_type(k)),
    ensures
        x == spec_primitive_type(k),
{
}

/// Replacing either side of a compatibility check by a `type_eq`-equal type
/// does not change the outcome.
pub proof fn lemma_compatible_congruence(a1: Type, a2: Type, b: Type)
    requires
        type_eq(a1, a2),
    ensures
        compatible(a1, b) == compatible(a2, b),
        compatible(b, a1) == compatible(b, a2),
{
    lemma_type_eq_sym(a1, a2);
    lemma_type_eq_trans(a2, a1, b);
    lemma_type_eq_trans(a1, a2, b);
    lemma_type_eq_sym(b, a1);
    lemma_type_eq_sym(b, a2);
    lemma_type_eq_trans(b, a1, a2);
    lemma_type_eq_trans(b, a2, a1);
}

} // verus!
