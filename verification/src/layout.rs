//! Types as the semantic passes see them, stored by id in a module's type table.

use vstd::prelude::*;

use crate::ast::Name;
use crate::span::Span;
use crate::storage::Storage;
use crate::symbol::ParameterNames;

verus! {

#[derive(Debug, Clone, Copy, Eq, PartialEq, Structural)]
pub struct TypeId(pub usize);

#[derive(Debug)]
pub struct TypeLayout {
    pub kind: TypeKind,
    pub span: Option<Span>,
}

#[derive(Debug)]
pub enum TypeKind {
    I8,
    I16,
    I32,
    I64,
    U8,
    U16,
    U32,
    U64,
    F32,
    F64,
    Usize,
    Isize,
    String,
    Char,
    Bool,
    Void,
    Tuple(Vec<TypeId>),
    Array { count: usize, type_hint: TypeId },
    Pointer(TypeId),
    Placeholder(Option<TypeId>),
    Named(String),
    Function {
        return_type: TypeId,
        parameter_names: ParameterNames,
        parameter_types: Vec<TypeId>,
    },
}

/// The type table of a module: layouts addressed by id, and spans mapped to the id of
/// the type found there.
pub type TypeStorage = Storage<Span, TypeLayout>;

/// A parameter name as compared between types: its span and its text.
pub open spec fn name_key(n: (Name, usize)) -> (Span, Seq<char>, usize) {
    (n.0.span, n.0.value@, n.1)
}

/// Two type kinds are the same type: the same variant with equal contents, names
/// compared by span and text.
pub open spec fn same_kind(a: TypeKind, b: TypeKind) -> bool {
    match (a, b) {
        (TypeKind::I8, TypeKind::I8) => true,
        (TypeKind::I16, TypeKind::I16) => true,
        (TypeKind::I32, TypeKind::I32) => true,
        (TypeKind::I64, TypeKind::I64) => true,
        (TypeKind::U8, TypeKind::U8) => true,
        (TypeKind::U16, TypeKind::U16) => true,
        (TypeKind::U32, TypeKind::U32) => true,
        (TypeKind::U64, TypeKind::U64) => true,
        (TypeKind::F32, TypeKind::F32) => true,
        (TypeKind::F64, TypeKind::F64) => true,
        (TypeKind::Usize, TypeKind::Usize) => true,
        (TypeKind::Isize, TypeKind::Isize) => true,
        (TypeKind::String, TypeKind::String) => true,
        (TypeKind::Char, TypeKind::Char) => true,
        (TypeKind::Bool, TypeKind::Bool) => true,
        (TypeKind::Void, TypeKind::Void) => true,
        (TypeKind::Tuple(x), TypeKind::Tuple(y)) => x@ == y@,
        (
            TypeKind::Array { count: c1, type_hint: t1 },
            TypeKind::Array { count: c2, type_hint: t2 },
        ) => c1 == c2 && t1 == t2,
        (TypeKind::Pointer(x), TypeKind::Pointer(y)) => x == y,
        (TypeKind::Placeholder(x), TypeKind::Placeholder(y)) => x == y,
        (TypeKind::Named(x), TypeKind::Named(y)) => x@ == y@,
        (
            TypeKind::Function { return_type: r1, parameter_names: n1, parameter_types: p1 },
            TypeKind::Function { return_type: r2, parameter_names: n2, parameter_types: p2 },
        ) => r1 == r2 && n1@.map_values(|n: (Name, usize)| name_key(n)) == n2@.map_values(
            |n: (Name, usize)| name_key(n),
        ) && p1@ == p2@,
        _ => false,
    }
}

fn same_ids(a: &Vec<TypeId>, b: &Vec<TypeId>) -> (r: bool)
    ensures
        r == (a@ == b@),
{
    if a.len() != b.len() {
        return false;
    }
    let mut i: usize = 0;
    while i < a.len()
        invariant
            i <= a@.len(),
            a@.len() == b@.len(),
            forall|j: int| 0 <= j < i ==> a@[j] == b@[j],
        decreases a@.len() - i,
    {
        if a[i].0 != b[i].0 {
            return false;
        }
        i = i + 1;
    }
    assert(a@ =~= b@);
    true
}

fn same_names(a: &ParameterNames, b: &ParameterNames) -> (r: bool)
    ensures
        r == (a@.map_values(|n: (Name, usize)| name_key(n)) == b@.map_values(
            |n: (Name, usize)| name_key(n),
        )),
{
    let ghost ka = a@.map_values(|n: (Name, usize)| name_key(n));
    let ghost kb = b@.map_values(|n: (Name, usize)| name_key(n));
    if a.len() != b.len() {
        assert(ka.len() != kb.len());
        return false;
    }
    let mut i: usize = 0;
    while i < a.len()
        invariant
            i <= a@.len(),
            a@.len() == b@.len(),
            ka == a@.map_values(|n: (Name, usize)| name_key(n)),
            kb == b@.map_values(|n: (Name, usize)| name_key(n)),
            forall|j: int| 0 <= j < i ==> ka[j] == kb[j],
        decreases a@.len() - i,
    {
        let (na, ia) = (&a[i].0, a[i].1);
        let (nb, ib) = (&b[i].0, b[i].1);
        if !(na.span == nb.span && na.value.eq(&nb.value) && ia == ib) {
            assert(ka[i as int] != kb[i as int]);
            return false;
        }
        i = i + 1;
    }
    assert(ka =~= kb);
    true
}

/// Whether `a` and `b` describe the same type.
pub fn kinds_equal(a: &TypeKind, b: &TypeKind) -> (r: bool)
    ensures
        r == same_kind(*a, *b),
{
    match (a, b) {
        (TypeKind::I8, TypeKind::I8) => true,
        (TypeKind::I16, TypeKind::I16) => true,
        (TypeKind::I32, TypeKind::I32) => true,
        (TypeKind::I64, TypeKind::I64) => true,
        (TypeKind::U8, TypeKind::U8) => true,
        (TypeKind::U16, TypeKind::U16) => true,
        (TypeKind::U32, TypeKind::U32) => true,
        (TypeKind::U64, TypeKind::U64) => true,
        (TypeKind::F32, TypeKind::F32) => true,
        (TypeKind::F64, TypeKind::F64) => true,
        (TypeKind::Usize, TypeKind::Usize) => true,
        (TypeKind::Isize, TypeKind::Isize) => true,
        (TypeKind::String, TypeKind::String) => true,
        (TypeKind::Char, TypeKind::Char) => true,
        (TypeKind::Bool, TypeKind::Bool) => true,
        (TypeKind::Void, TypeKind::Void) => true,
        (TypeKind::Tuple(x), TypeKind::Tuple(y)) => same_ids(x, y),
        (
            TypeKind::Array { count: c1, type_hint: t1 },
            TypeKind::Array { count: c2, type_hint: t2 },
        ) => *c1 == *c2 && t1.0 == t2.0,
        (TypeKind::Pointer(x), TypeKind::Pointer(y)) => x.0 == y.0,
        (TypeKind::Placeholder(x), TypeKind::Placeholder(y)) => match (x, y) {
            (Some(p), Some(q)) => p.0 == q.0,
            (None, None) => true,
            _ => false,
        },
        (TypeKind::Named(x), TypeKind::Named(y)) => x.eq(y),
        (
            TypeKind::Function { return_type: r1, parameter_names: n1, parameter_types: p1 },
            TypeKind::Function { return_type: r2, parameter_names: n2, parameter_types: p2 },
        ) => r1.0 == r2.0 && same_names(n1, n2) && same_ids(p1, p2),
        _ => false,
    }
}

/// The integer kinds.
pub open spec fn is_numeric_kind(k: TypeKind) -> bool {
    match k {
        TypeKind::I8 | TypeKind::I16 | TypeKind::I32 | TypeKind::I64 | TypeKind::U8
        | TypeKind::U16 | TypeKind::U32 | TypeKind::U64 => true,
        _ => false,
    }
}

/// Signedness and bit width of an integer kind.
pub open spec fn numeric_width(k: TypeKind) -> (bool, int) {
    match k {
        TypeKind::I8 => (true, 8),
        TypeKind::I16 => (true, 16),
        TypeKind::I32 => (true, 32),
        TypeKind::I64 => (true, 64),
        TypeKind::U8 => (false, 8),
        TypeKind::U16 => (false, 16),
        TypeKind::U32 => (false, 32),
        _ => (false, 64),
    }
}

/// How a value of integer kind `source` fits into integer kind `target`: positive
/// when widening, negative when narrowing, zero when only the sign changes.  The
/// difference of widths, one less when an unsigned value goes into a signed type, and
/// one less when a signed value goes into an unsigned type that is not wider.
pub open spec fn width_score(target: TypeKind, source: TypeKind) -> int {
    let (ts, tw) = numeric_width(target);
    let (ss, sw) = numeric_width(source);
    let d = tw - sw;
    if ts == ss {
        d
    } else if ts && !ss {
        d - 1
    } else if d > 0 {
        d
    } else {
        d - 1
    }
}

impl TypeLayout {
    pub fn new_builtin(kind: TypeKind) -> (r: Self)
        ensures
            r.kind == kind,
            r.span is None,
    {
        Self { kind, span: None }
    }

    pub fn new(kind: TypeKind, span: Option<Span>) -> (r: Self)
        ensures
            r.kind == kind,
            r.span == span,
    {
        Self { kind, span }
    }

    pub fn is_numeric_type(&self) -> (r: bool)
        ensures
            r == is_numeric_kind(self.kind),
    {
        match self.kind {
            TypeKind::I8
            | TypeKind::I16
            | TypeKind::I32
            | TypeKind::I64
            | TypeKind::U8
            | TypeKind::U32
            | TypeKind::U16
            | TypeKind::U64 => true,
            _ => false,
        }
    }

    pub(crate) fn to_numeric_width(&self) -> (r: (bool, usize))
        requires
            is_numeric_kind(self.kind),
        ensures
            r.0 == numeric_width(self.kind).0,
            r.1 == numeric_width(self.kind).1,
    {
        match self.kind {
            TypeKind::I8 => (true, 8),
            TypeKind::I16 => (true, 16),
            TypeKind::I32 => (true, 32),
            TypeKind::I64 => (true, 64),
            TypeKind::U8 => (false, 8),
            TypeKind::U16 => (false, 16),
            TypeKind::U32 => (false, 32),
            _ => (false, 64),
        }
    }

    /// The score of [`width_score`] for a value of `source` going into `self`.
    pub fn compare_numeric_widths(&self, source: &TypeLayout) -> (r: i32)
        requires
            is_numeric_kind(self.kind),
            is_numeric_kind(source.kind),
        ensures
            r == width_score(self.kind, source.kind),
    {
        let (target_signed, target_width) = self.to_numeric_width();
        let (source_signed, source_width) = source.to_numeric_width();
        let width_diff = (target_width as i32) - (source_width as i32);
        if target_signed == source_signed {
            width_diff
        } else if target_signed && !source_signed {
            width_diff - 1
        } else if width_diff > 0 {
            width_diff
        } else {
            width_diff - 1
        }
    }
}

} // verus!
