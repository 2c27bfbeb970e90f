//! The types of the second bug front end, with their sizes and alignments.
use vstd::prelude::*;

verus! {

/// A type of the language.
#[derive(Debug)]
pub enum Type {
    Undef,
    Void,
    Char,
    Integer,
    Float,
    Pointer { to: Box<Type> },
    Array { of: Box<Type>, size: usize },
    Slice { of: Box<Type> },
    Struct { of: Vec<Type> },
    Type,
    Function,
}

/// The model of a type.
pub enum TyV {
    Undef,
    Void,
    Char,
    Integer,
    Float,
    Pointer(Box<TyV>),
    Array(Box<TyV>, usize),
    Slice(Box<TyV>),
    Struct(Seq<TyV>),
    TypeT,
    Function,
}

pub open spec fn ty_view(t: Type) -> TyV
    decreases t,
{
    match t {
        Type::Undef => TyV::Undef,
        Type::Void => TyV::Void,
        Type::Char => TyV::Char,
        Type::Integer => TyV::Integer,
        Type::Float => TyV::Float,
        Type::Pointer { to } => TyV::Pointer(Box::new(ty_view(*to))),
        Type::Array { of, size } => TyV::Array(Box::new(ty_view(*of)), size),
        Type::Slice { of } => TyV::Slice(Box::new(ty_view(*of))),
        Type::Struct { of } => TyV::Struct(
            Seq::new(
                of@.len(),
                |i: int|
                    {
                        if 0 <= i < of@.len() {
                            proof {
                                assert(decreases_to!(t => of));
                                assert(decreases_to!(of => of@));
                            }
                            ty_view(of@[i])
                        } else {
                            TyV::Undef
                        }
                    },
            ),
        ),
        Type::Type => TyV::TypeT,
        Type::Function => TyV::Function,
    }
}

/// The models of a list of types.
pub open spec fn tys_view(s: Seq<Type>) -> Seq<TyV> {
    Seq::new(s.len(), |i: int| ty_view(s[i]))
}

impl View for Type {
    type V = TyV;

    open spec fn view(&self) -> TyV {
        ty_view(*self)
    }
}

proof fn lemma_struct_view(of: Vec<Type>)
    ensures
        ty_view(Type::Struct { of }) == TyV::Struct(tys_view(of@)),
{
    assert(ty_view(Type::Struct { of })->Struct_0 =~= tys_view(of@));
}

/// A copy of a type with the same model.
pub fn copy_type(t: &Type) -> (r: Type)
    ensures
        r@ == t@,
    decreases t,
{
    match t {
        Type::Undef => Type::Undef,
        Type::Void => Type::Void,
        Type::Char => Type::Char,
        Type::Integer => Type::Integer,
        Type::Float => Type::Float,
        Type::Pointer { to } => Type::Pointer { to: Box::new(copy_type(to)) },
        Type::Array { of, size } => Type::Array { of: Box::new(copy_type(of)), size: *size },
        Type::Slice { of } => Type::Slice { of: Box::new(copy_type(of)) },
        Type::Struct { of } => {
            proof {
                assert(decreases_to!(t => of));
            }
            let c = copy_types(of);
            proof {
                lemma_struct_view(c);
                lemma_struct_view(*of);
            }
            Type::Struct { of: c }
        },
        Type::Type => Type::Type,
        Type::Function => Type::Function,
    }
}

/// A copy of a list of types with the same models.
pub fn copy_types(v: &Vec<Type>) -> (r: Vec<Type>)
    ensures
        tys_view(r@) == tys_view(v@),
    decreases v,
{
    let mut r: Vec<Type> = Vec::new();
    let mut i: usize = 0;
    while i < v.len()
        invariant
            i <= v@.len(),
            r@.len() == i,
            forall|j: int| 0 <= j < i ==> ty_view(#[trigger] r@[j]) == ty_view(v@[j]),
        decreases v@.len() - i,
    {
        proof {
            assert(decreases_to!(v => v@));
            assert(decreases_to!(v@ => v@[i as int]));
        }
        let c = copy_type(&v[i]);
        r.push(c);
        i = i + 1;
    }
    assert(tys_view(r@) =~= tys_view(v@));
    r
}

/// The alignment of a type: one for a character, eight for numbers, pointers and
/// slices, that of the element for an array, the largest member alignment for a
/// struct, zero for the rest.
pub open spec fn align_v(t: TyV) -> int
    decreases t,
{
    match t {
        TyV::Char => 1,
        TyV::Integer => 8,
        TyV::Float => 8,
        TyV::Pointer(_) => 8,
        TyV::Array(of, _) => align_v(*of),
        TyV::Slice(_) => 8,
        TyV::Struct(of) => max_align(of),
        _ => 0,
    }
}

/// The largest alignment among the members, zero for none.
pub open spec fn max_align(of: Seq<TyV>) -> int
    decreases of,
{
    if of.len() == 0 {
        0
    } else {
        proof {
            assert(decreases_to!(of => of[of.len() - 1]));
            assert(decreases_to!(of => of.subrange(0, of.len() - 1)));
        }
        let m = max_align(of.subrange(0, of.len() - 1));
        let a = align_v(of[of.len() - 1]);
        if a > m {
            a
        } else {
            m
        }
    }
}

/// The size of a type: one for a character, eight for numbers and pointers, sixteen
/// for a slice, element size times length for an array, the laid-out members for a
/// struct, zero for the rest.
pub open spec fn size_v(t: TyV) -> int
    decreases t,
{
    match t {
        TyV::Char => 1,
        TyV::Integer => 8,
        TyV::Float => 8,
        TyV::Pointer(_) => 8,
        TyV::Array(of, n) => size_v(*of) * n,
        TyV::Slice(_) => 16,
        TyV::Struct(of) => struct_size(of),
        _ => 0,
    }
}

/// Where a member of alignment `a` goes after `out` bytes: `out` rounded up to a
/// multiple of `a`.
pub open spec fn aligned_up(out: int, a: int) -> int {
    if out % a == 0 {
        out
    } else {
        out + (a - out % a)
    }
}

/// The size of a struct with these members, each placed at the next offset that its
/// alignment allows, with no padding at the end.
pub open spec fn struct_size(of: Seq<TyV>) -> int
    decreases of,
{
    if of.len() == 0 {
        0
    } else {
        proof {
            assert(decreases_to!(of => of[of.len() - 1]));
            assert(decreases_to!(of => of.subrange(0, of.len() - 1)));
        }
        let last = of[of.len() - 1];
        aligned_up(struct_size(of.subrange(0, of.len() - 1)), align_v(last)) + size_v(last)
    }
}

/// The sizes of the type and of its parts can be computed: every struct member has a
/// non-zero alignment, and no size exceeds the machine's word.
pub open spec fn layout_ok(t: TyV) -> bool
    decreases t,
{
    match t {
        TyV::Array(of, n) => layout_ok(*of) && size_v(*of) * n <= usize::MAX,
        TyV::Struct(of) => members_ok(of),
        _ => true,
    }
}

/// Each prefix of the members can be laid out.
pub open spec fn members_ok(of: Seq<TyV>) -> bool
    decreases of,
{
    if of.len() == 0 {
        true
    } else {
        proof {
            assert(decreases_to!(of => of[of.len() - 1]));
            assert(decreases_to!(of => of.subrange(0, of.len() - 1)));
        }
        let last = of[of.len() - 1];
        &&& members_ok(of.subrange(0, of.len() - 1))
        &&& layout_ok(last)
        &&& align_v(last) > 0
        &&& struct_size(of) <= usize::MAX
    }
}

/// Sizes are never negative, and alignments are zero, one or eight.
pub proof fn lemma_layout_bounds(t: TyV)
    ensures
        layout_ok(t) ==> size_v(t) >= 0,
        0 <= align_v(t) <= 8,
    decreases t,
{
    match t {
        TyV::Array(of, n) => {
            lemma_layout_bounds(*of);
            if layout_ok(t) {
                assert(size_v(*of) * n >= 0) by (nonlinear_arith)
                    requires
                        size_v(*of) >= 0,
                        n >= 0,
                ;
            }
        },
        TyV::Struct(of) => {
            lemma_members_bounds(of);
        },
        _ => {},
    }
}

/// A struct's size is never negative, and its alignment is at most eight.
pub proof fn lemma_members_bounds(of: Seq<TyV>)
    ensures
        members_ok(of) ==> struct_size(of) >= 0,
        0 <= max_align(of) <= 8,
    decreases of,
{
    if of.len() > 0 {
        assert(decreases_to!(of => of[of.len() - 1]));
        assert(decreases_to!(of => of.subrange(0, of.len() - 1)));
        lemma_members_bounds(of.subrange(0, of.len() - 1));
        lemma_layout_bounds(of[of.len() - 1]);
        let out = struct_size(of.subrange(0, of.len() - 1));
        let a = align_v(of[of.len() - 1]);
        if a > 0 && out % a != 0 {
            assert(out % a < a) by (nonlinear_arith)
                requires
                    a > 0,
            ;
        }
    }
}

/// What can be laid out, each of its first members can be too.
proof fn lemma_members_prefix(of: Seq<TyV>, k: int)
    requires
        members_ok(of),
        0 <= k <= of.len(),
    ensures
        members_ok(of.subrange(0, k)),
    decreases of.len(),
{
    if k < of.len() {
        assert(of.subrange(0, of.len() - 1).subrange(0, k) =~= of.subrange(0, k));
        lemma_members_prefix(of.subrange(0, of.len() - 1), k);
    } else {
        assert(of.subrange(0, k) =~= of);
    }
}

impl Type {
    /// The alignment of the type (see `align_v`).
    pub fn align_of(&self) -> (r: usize)
        ensures
            r == align_v(self@),
        decreases self,
    {
        match self {
            Type::Void => 0,
            Type::Char => 1,
            Type::Integer => 8,
            Type::Float => 8,
            Type::Undef => 0,
            Type::Pointer { to: _ } => 8,
            Type::Array { of, size: _ } => of.align_of(),
            Type::Struct { of } => {
                let ghost s = tys_view(of@);
                proof {
                    lemma_struct_view(*of);
                    assert(s.subrange(0, 0) =~= Seq::<TyV>::empty());
                }
                proof {
                    assert(decreases_to!(self => of));
                }
                let mut out: usize = 0;
                let mut i: usize = 0;
                while i < of.len()
                    invariant
                        decreases_to!(self => of),
                        i <= of@.len(),
                        s == tys_view(of@),
                        out == max_align(s.subrange(0, i as int)),
                    decreases of@.len() - i,
                {
                    proof {
                        assert(decreases_to!(of => of@));
                        assert(decreases_to!(of@ => of@[i as int]));
                        assert(s.subrange(0, i + 1).subrange(0, i as int) =~= s.subrange(
                            0,
                            i as int,
                        ));
                    }
                    let a = of[i].align_of();
                    if a > out {
                        out = a;
                    }
                    i = i + 1;
                }
                proof {
                    assert(s.subrange(0, i as int) =~= s);
                }
                out
            },
            Type::Type => 0,
            Type::Function => 0,
            Type::Slice { of: _ } => 8,
        }
    }

    /// The size of the type (see `size_v`).
    pub fn size_of(&self) -> (r: usize)
        requires
            layout_ok(self@),
        ensures
            r == size_v(self@),
        decreases self,
    {
        match self {
            Type::Void => 0,
            Type::Char => 1,
            Type::Integer => 8,
            Type::Float => 8,
            Type::Pointer { to: _ } => 8,
            Type::Array { of, size } => of.size_of() * *size,
            Type::Struct { of } => {
                let ghost s = tys_view(of@);
                proof {
                    lemma_struct_view(*of);
                    assert(s.subrange(0, 0) =~= Seq::<TyV>::empty());
                }
                proof {
                    assert(decreases_to!(self => of));
                }
                let mut out: usize = 0;
                let mut i: usize = 0;
                while i < of.len()
                    invariant
                        decreases_to!(self => of),
                        i <= of@.len(),
                        s == tys_view(of@),
                        members_ok(s),
                        out == struct_size(s.subrange(0, i as int)),
                    decreases of@.len() - i,
                {
                    proof {
                        assert(decreases_to!(of => of@));
                        assert(decreases_to!(of@ => of@[i as int]));
                        let p = s.subrange(0, i + 1);
                        assert(p.subrange(0, i as int) =~= s.subrange(0, i as int));
                        lemma_members_prefix(s, i + 1);
                        lemma_layout_bounds(p[i as int]);
                        lemma_members_bounds(s.subrange(0, i as int));
                        let o = out as int;
                        let al = align_v(p[i as int]);
                        if o % al != 0 {
                            assert(o % al < al) by (nonlinear_arith)
                                requires
                                    al > 0,
                            ;
                        }
                    }
                    let al = of[i].align_of();
                    if out % al == 0 {
                        out += of[i].size_of();
                    } else {
                        out += al - out % al;
                        out += of[i].size_of();
                    }
                    i = i + 1;
                }
                proof {
                    assert(s.subrange(0, i as int) =~= s);
                }
                out
            },
            Type::Undef => 0,
            Type::Type => 0,
            Type::Function => 0,
            Type::Slice { of: _ } => 16,
        }
    }
}

} // verus!
