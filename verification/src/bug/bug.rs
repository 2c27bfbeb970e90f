//! Bracket matching over token streams, and the table of built-in functions.
use crate::bug::parser::{oprs_view, parse_expression, parse_tokens, Expr, OprV, Parsed};
use crate::bug::tokens::{all_tokens, tok_view, token_view, toks_v, Token, TokenStream, TokenType, TokenView};
use crate::table::Table;
use crate::bug::utils::Stream;
use crate::text::str_equal;
use vstd::prelude::*;

verus! {

/// The net nesting depth of `open`/`close` tokens among the first `n` tokens.
pub open spec fn depth(toks: Seq<Token>, n: int, open: TokenType, close: TokenType) -> int
    decreases n,
{
    if n <= 0 {
        0
    } else {
        depth(toks, n - 1, open, close) + if toks[n - 1].tt == open {
            1int
        } else if toks[n - 1].tt == close {
            -1int
        } else {
            0int
        }
    }
}

/// How many tokens the bracket matcher reads: up to and including the first token after
/// which the depth is zero, or all of them.
pub open spec fn group_len(toks: Seq<Token>, open: TokenType, close: TokenType) -> int {
    if exists|n: int| 1 <= n <= toks.len() && depth(toks, n, open, close) == 0 {
        choose|n: int|
            1 <= n <= toks.len() && depth(toks, n, open, close) == 0 && forall|m: int|
                1 <= m < n ==> depth(toks, m, open, close) != 0
    } else {
        toks.len() as int
    }
}

/// The first `n` at which the depth is zero exists whenever some such `n` does.
proof fn lemma_first_zero(toks: Seq<Token>, open: TokenType, close: TokenType, k: int)
    requires
        1 <= k <= toks.len(),
        depth(toks, k, open, close) == 0,
    ensures
        exists|n: int|
            1 <= n <= toks.len() && depth(toks, n, open, close) == 0 && forall|m: int|
                1 <= m < n ==> depth(toks, m, open, close) != 0,
    decreases k,
{
    if exists|m: int| 1 <= m < k && depth(toks, m, open, close) == 0 {
        let m = choose|m: int| 1 <= m < k && depth(toks, m, open, close) == 0;
        lemma_first_zero(toks, open, close, m);
    } else {
        assert(forall|m: int| 1 <= m < k ==> depth(toks, m, open, close) != 0);
    }
}

/// Reads one bracketed group; returns its inside (without the outer brackets) and moves
/// the stream past it. The group must span at least two tokens.
fn bracket_group<'a>(stream: &mut Stream<'a, Token>, open: TokenType, close: TokenType) -> (r:
    Stream<'a, Token>)
    requires
        group_len(old(stream).values@, open, close) >= 2,
    ensures
        ({
            let n = group_len(old(stream).values@, open, close);
            &&& r.values@ == old(stream).values@.subrange(1, n - 1)
            &&& final(stream).values@ == old(stream).values@.skip(n)
        }),
{
    let ghost toks = stream.values@;
    let mut count: i128 = 0;
    let tmps = stream.values;
    let mut i: usize = 0;
    while i < tmps.len()
        invariant_except_break
            tmps@ == toks,
            i <= toks.len(),
            stream.values@ == toks.skip(i as int),
            count == depth(toks, i as int, open, close),
            -(i as int) <= count <= i,
            forall|m: int| 1 <= m <= i ==> depth(toks, m, open, close) != 0,
        ensures
            tmps@ == toks,
            i <= toks.len(),
            stream.values@ == toks.skip(i as int),
            i == group_len(toks, open, close),
        decreases toks.len() - i,
    {
        let s = &tmps[i];
        stream.values = &tmps[i + 1..tmps.len()];
        i += 1;
        if s.tt == open {
            count += 1;
        } else if s.tt == close {
            count -= 1;
        }
        assert(count == depth(toks, i as int, open, close));
        if count == 0 {
            proof {
                lemma_first_zero(toks, open, close, i as int);
            }
            break;
        }
    }
    proof {
        if i == toks.len() && !(exists|n: int|
            1 <= n <= toks.len() && depth(toks, n, open, close) == 0) {
        } else if i == toks.len() {
            let n = choose|n: int| 1 <= n <= toks.len() && depth(toks, n, open, close) == 0;
            lemma_first_zero(toks, open, close, n);
        }
    }
    return Stream::new(&tmps[1..i - 1]);
}

proof fn lemma_group_len_le(toks: Seq<Token>, open: TokenType, close: TokenType)
    ensures
        group_len(toks, open, close) <= toks.len(),
{
    if exists|n: int| 1 <= n <= toks.len() && depth(toks, n, open, close) == 0 {
        let k = choose|n: int| 1 <= n <= toks.len() && depth(toks, n, open, close) == 0;
        lemma_first_zero(toks, open, close, k);
    }
}

/// The bracket matcher reads exactly up to the first place where the brackets balance:
/// where after `n` tokens the depth is first zero, `get_paren_expr` and `get_scope`
/// give the tokens strictly between the first and the `n`-th, and leave the rest.
pub proof fn law_group_ends_at_first_balance(toks: Seq<Token>, open: TokenType, close: TokenType, n: int)
    requires
        1 <= n <= toks.len(),
        depth(toks, n, open, close) == 0,
        forall|m: int| 1 <= m < n ==> depth(toks, m, open, close) != 0,
    ensures
        group_len(toks, open, close) == n,
{
    let g = group_len(toks, open, close);
    assert(exists|k: int| 1 <= k <= toks.len() && depth(toks, k, open, close) == 0);
    assert(1 <= g <= toks.len() && depth(toks, g, open, close) == 0 && forall|m: int|
        1 <= m < g ==> depth(toks, m, open, close) != 0) by {
        lemma_first_zero(toks, open, close, n);
    }
    if g < n {
        assert(depth(toks, g, open, close) != 0);
    }
    if n < g {
        assert(depth(toks, n, open, close) != 0);
    }
}

/// Whether the bracket matcher reads at least two tokens from `toks`, as the group
/// readers need.
pub open spec fn group_ok(toks: Seq<Token>, open: TokenType, close: TokenType) -> bool {
    group_len(toks, open, close) >= 2
}

/// Reads a parenthesised group: the tokens up to the matching `)`. Returns the tokens
/// between the outer parentheses and moves the stream past the group.
pub fn get_paren_expr<'a>(stream: &mut Stream<'a, Token>) -> (r: Stream<'a, Token>)
    requires
        group_ok(old(stream).values@, TokenType::TokenOpenParen, TokenType::TokenCloseParen),
    ensures
        ({
            let n = group_len(
                old(stream).values@,
                TokenType::TokenOpenParen,
                TokenType::TokenCloseParen,
            );
            &&& r.values@ == old(stream).values@.subrange(1, n - 1)
            &&& final(stream).values@ == old(stream).values@.skip(n)
        }),
{
    bracket_group(stream, TokenType::TokenOpenParen, TokenType::TokenCloseParen)
}

/// Reads a braced block: the tokens up to the matching `}`. Returns the tokens between
/// the outer braces and moves the stream past the block.
pub fn get_scope<'a>(stream: &mut Stream<'a, Token>) -> (r: Stream<'a, Token>)
    requires
        group_ok(old(stream).values@, TokenType::TokenOpenCurl, TokenType::TokenCloseCurl),
    ensures
        ({
            let n = group_len(
                old(stream).values@,
                TokenType::TokenOpenCurl,
                TokenType::TokenCloseCurl,
            );
            &&& r.values@ == old(stream).values@.subrange(1, n - 1)
            &&& final(stream).values@ == old(stream).values@.skip(n)
        }),
{
    bracket_group(stream, TokenType::TokenOpenCurl, TokenType::TokenCloseCurl)
}

/// The call number of a built-in function, by name.
pub open spec fn spec_builtin(s: Seq<char>) -> Option<usize> {
    if s == "int_to_string"@ {
        Some(0x10000000)
    } else if s == "float_to_string"@ {
        Some(0x10000001)
    } else if s == "print"@ {
        Some(0x10000002)
    } else if s == "println"@ {
        Some(0x10000003)
    } else if s == "strcat"@ {
        Some(0x10000004)
    } else if s == "or"@ {
        Some(0x10000005)
    } else if s == "and"@ {
        Some(0x10000006)
    } else {
        None
    }
}

/// The call number of the built-in function named `s`, if there is one.
pub fn builtin(s: &str) -> (r: Option<usize>)
    ensures
        r == spec_builtin(s@),
{
    if str_equal(s, "int_to_string") {
        Some(0x10000000)
    } else if str_equal(s, "float_to_string") {
        Some(0x10000001)
    } else if str_equal(s, "print") {
        Some(0x10000002)
    } else if str_equal(s, "println") {
        Some(0x10000003)
    } else if str_equal(s, "strcat") {
        Some(0x10000004)
    } else if str_equal(s, "or") {
        Some(0x10000005)
    } else if str_equal(s, "and") {
        Some(0x10000006)
    } else {
        None
    }
}

/// A typed name: a variable, parameter or field.
#[derive(Debug)]
pub struct Var {
    pub vtype: Type,
    pub name: String,
}

/// A type of the bug language.
#[derive(Debug)]
pub enum Type {
    TStr,
    TInt,
    TChar,
    TFloat,
    TVoid,
    TStruct { name: String, fields: Vec<Var> },
    TFunction { return_type: Box<Type>, args: Vec<Type> },
    TPtr { tname: String },
}

/// The model of a type: names as character sequences, struct fields as (name, type)
/// pairs.
pub enum BTy {
    Str,
    Int,
    Char,
    Float,
    Void,
    Struct(Seq<char>, Seq<(Seq<char>, BTy)>),
    Function(Box<BTy>, Seq<BTy>),
    Ptr(Seq<char>),
}

pub open spec fn ty_v(t: Type) -> BTy
    decreases t,
{
    match t {
        Type::TStr => BTy::Str,
        Type::TInt => BTy::Int,
        Type::TChar => BTy::Char,
        Type::TFloat => BTy::Float,
        Type::TVoid => BTy::Void,
        Type::TStruct { name, fields } => BTy::Struct(
            name@,
            Seq::new(
                fields@.len(),
                |i: int|
                    {
                        if 0 <= i < fields@.len() {
                            proof {
                                assert(decreases_to!(t => fields));
                                assert(decreases_to!(fields => fields@));
                                assert(decreases_to!(fields@ => fields@[i]));
                                assert(decreases_to!(fields@[i] => fields@[i].vtype));
                            }
                            (fields@[i].name@, ty_v(fields@[i].vtype))
                        } else {
                            (seq![], BTy::Void)
                        }
                    },
            ),
        ),
        Type::TFunction { return_type, args } => BTy::Function(
            Box::new(ty_v(*return_type)),
            Seq::new(
                args@.len(),
                |i: int|
                    {
                        if 0 <= i < args@.len() {
                            proof {
                                assert(decreases_to!(t => args));
                                assert(decreases_to!(args => args@));
                            }
                            ty_v(args@[i])
                        } else {
                            BTy::Void
                        }
                    },
            ),
        ),
        Type::TPtr { tname } => BTy::Ptr(tname@),
    }
}

/// The models of struct fields.
pub open spec fn fields_v(s: Seq<Var>) -> Seq<(Seq<char>, BTy)> {
    Seq::new(s.len(), |i: int| (s[i].name@, ty_v(s[i].vtype)))
}

/// The models of a list of types.
pub open spec fn tys_v(s: Seq<Type>) -> Seq<BTy> {
    Seq::new(s.len(), |i: int| ty_v(s[i]))
}

pub proof fn lemma_struct_v(name: String, fields: Vec<Var>)
    ensures
        ty_v(Type::TStruct { name, fields }) == BTy::Struct(name@, fields_v(fields@)),
{
    assert(ty_v(Type::TStruct { name, fields })->Struct_1 =~= fields_v(fields@));
}

pub proof fn lemma_function_v(return_type: Box<Type>, args: Vec<Type>)
    ensures
        ty_v(Type::TFunction { return_type, args }) == BTy::Function(
            Box::new(ty_v(*return_type)),
            tys_v(args@),
        ),
{
    assert(ty_v(Type::TFunction { return_type, args })->Function_1 =~= tys_v(args@));
}

/// A copy of a type with the same model.
pub fn copy_ty(t: &Type) -> (r: Type)
    ensures
        ty_v(r) == ty_v(*t),
    decreases t,
{
    match t {
        Type::TStr => Type::TStr,
        Type::TInt => Type::TInt,
        Type::TChar => Type::TChar,
        Type::TFloat => Type::TFloat,
        Type::TVoid => Type::TVoid,
        Type::TStruct { name, fields } => {
            proof {
                assert(decreases_to!(t => fields));
            }
            let mut out: Vec<Var> = Vec::new();
            let mut i: usize = 0;
            while i < fields.len()
                invariant
                    decreases_to!(t => fields),
                    i <= fields@.len(),
                    out@.len() == i,
                    forall|j: int|
                        0 <= j < i ==> (#[trigger] out@[j]).name@ == fields@[j].name@ && ty_v(
                            out@[j].vtype,
                        ) == ty_v(fields@[j].vtype),
                decreases fields@.len() - i,
            {
                proof {
                    assert(decreases_to!(fields => fields@));
                    assert(decreases_to!(fields@ => fields@[i as int]));
                    assert(decreases_to!(fields@[i as int] => fields@[i as int].vtype));
                }
                let vt = copy_ty(&fields[i].vtype);
                let v = Var { vtype: vt, name: fields[i].name.clone() };
                out.push(v);
                i = i + 1;
            }
            let n = name.clone();
            proof {
                lemma_struct_v(n, out);
                lemma_struct_v(*name, *fields);
                assert(fields_v(out@) =~= fields_v(fields@));
            }
            Type::TStruct { name: n, fields: out }
        },
        Type::TFunction { return_type, args } => {
            proof {
                assert(decreases_to!(t => args));
            }
            let rt = copy_ty(return_type);
            let mut out: Vec<Type> = Vec::new();
            let mut i: usize = 0;
            while i < args.len()
                invariant
                    decreases_to!(t => args),
                    i <= args@.len(),
                    out@.len() == i,
                    forall|j: int| 0 <= j < i ==> ty_v(#[trigger] out@[j]) == ty_v(args@[j]),
                decreases args@.len() - i,
            {
                proof {
                    assert(decreases_to!(args => args@));
                    assert(decreases_to!(args@ => args@[i as int]));
                }
                let a = copy_ty(&args[i]);
                out.push(a);
                i = i + 1;
            }
            let b = Box::new(rt);
            proof {
                lemma_function_v(b, out);
                lemma_function_v(*return_type, *args);
                assert(tys_v(out@) =~= tys_v(args@));
            }
            Type::TFunction { return_type: b, args: out }
        },
        Type::TPtr { tname } => Type::TPtr { tname: tname.clone() },
    }
}

/// Whether two types are the same type (the same models).
pub fn ty_eq(a: &Type, b: &Type) -> (r: bool)
    ensures
        r == (ty_v(*a) == ty_v(*b)),
    decreases a,
{
    match (a, b) {
        (Type::TStr, Type::TStr) => true,
        (Type::TInt, Type::TInt) => true,
        (Type::TChar, Type::TChar) => true,
        (Type::TFloat, Type::TFloat) => true,
        (Type::TVoid, Type::TVoid) => true,
        (Type::TPtr { tname: x }, Type::TPtr { tname: y }) => str_equal(x.as_str(), y.as_str()),
        (Type::TStruct { name: n1, fields: f1 }, Type::TStruct { name: n2, fields: f2 }) => {
            proof {
                lemma_struct_v(*n1, *f1);
                lemma_struct_v(*n2, *f2);
                assert(decreases_to!(a => f1));
            }
            if !str_equal(n1.as_str(), n2.as_str()) || f1.len() != f2.len() {
                proof {
                    if f1.len() != f2.len() {
                        assert(fields_v(f1@).len() != fields_v(f2@).len());
                    }
                }
                return false;
            }
            let mut i: usize = 0;
            while i < f1.len()
                invariant
                    decreases_to!(a => f1),
                    ty_v(*a) == BTy::Struct(n1@, fields_v(f1@)),
                    ty_v(*b) == BTy::Struct(n2@, fields_v(f2@)),
                    f1@.len() == f2@.len(),
                    i <= f1@.len(),
                    forall|j: int| 0 <= j < i ==> fields_v(f1@)[j] == fields_v(f2@)[j],
                decreases f1@.len() - i,
            {
                proof {
                    assert(decreases_to!(f1 => f1@));
                    assert(decreases_to!(f1@ => f1@[i as int]));
                    assert(decreases_to!(f1@[i as int] => f1@[i as int].vtype));
                }
                if !str_equal(f1[i].name.as_str(), f2[i].name.as_str()) || !ty_eq(
                    &f1[i].vtype,
                    &f2[i].vtype,
                ) {
                    proof {
                        assert(fields_v(f1@)[i as int] != fields_v(f2@)[i as int]);
                        assert(ty_v(*a)->Struct_1[i as int] != ty_v(*b)->Struct_1[i as int]);
                    }
                    return false;
                }
                i = i + 1;
            }
            proof {
                assert(fields_v(f1@) =~= fields_v(f2@));
            }
            true
        },
        (
            Type::TFunction { return_type: r1, args: a1 },
            Type::TFunction { return_type: r2, args: a2 },
        ) => {
            proof {
                lemma_function_v(*r1, *a1);
                lemma_function_v(*r2, *a2);
                assert(decreases_to!(a => a1));
            }
            if !ty_eq(r1, r2) || a1.len() != a2.len() {
                proof {
                    if a1.len() != a2.len() {
                        assert(tys_v(a1@).len() != tys_v(a2@).len());
                    }
                }
                return false;
            }
            let mut i: usize = 0;
            while i < a1.len()
                invariant
                    decreases_to!(a => a1),
                    ty_v(*a) == BTy::Function(Box::new(ty_v(**r1)), tys_v(a1@)),
                    ty_v(*b) == BTy::Function(Box::new(ty_v(**r2)), tys_v(a2@)),
                    a1@.len() == a2@.len(),
                    i <= a1@.len(),
                    forall|j: int| 0 <= j < i ==> tys_v(a1@)[j] == tys_v(a2@)[j],
                decreases a1@.len() - i,
            {
                proof {
                    assert(decreases_to!(a1 => a1@));
                    assert(decreases_to!(a1@ => a1@[i as int]));
                }
                if !ty_eq(&a1[i], &a2[i]) {
                    proof {
                        assert(tys_v(a1@)[i as int] != tys_v(a2@)[i as int]);
                        assert(ty_v(*a)->Function_1[i as int] != ty_v(*b)->Function_1[i as int]);
                    }
                    return false;
                }
                i = i + 1;
            }
            proof {
                assert(tys_v(a1@) =~= tys_v(a2@));
            }
            true
        },
        _ => false,
    }
}

/// A statement: a loop, a branch, a declaration with its initialiser, an expression,
/// or a return.
#[derive(Debug)]
pub enum Statement {
    While { cond: Expr, list: Vec<Statement> },
    If { cond: Expr, list: Vec<Statement>, else_list: Vec<Statement> },
    Declare { v: Var, list: Expr },
    Basic { list: Expr },
    Return { list: Expr },
}

/// A function: its name, parameters, return type and body.
#[derive(Debug)]
pub struct Function {
    pub name: String,
    pub args: Vec<Var>,
    pub return_type: Type,
    pub list: Vec<Statement>,
}

/// What a program declares: types, functions, and functions defined elsewhere.
#[derive(Debug)]
pub struct Context {
    pub types: Vec<Type>,
    pub functions: Vec<Function>,
    pub externs: Vec<Function>,
}

/// The variables of a scope.
#[derive(Debug)]
pub struct Scope {
    pub vars: Vec<Var>,
}

/// The model of a statement (a declared variable by its type and name).
pub enum StmtV {
    While { cond: Seq<OprV>, list: Seq<StmtV> },
    If { cond: Seq<OprV>, list: Seq<StmtV>, else_list: Seq<StmtV> },
    Declare { vtype: Type, name: Seq<char>, list: Seq<OprV> },
    Basic { list: Seq<OprV> },
    Return { list: Seq<OprV> },
}

pub open spec fn stmt_view(st: Statement) -> StmtV
    decreases st,
{
    match st {
        Statement::While { cond, list } => StmtV::While {
            cond: oprs_view(cond.ops@),
            list: Seq::new(
                list@.len(),
                |k: int|
                    {
                        if 0 <= k < list@.len() {
                            proof {
                                assert(decreases_to!(st => list));
                                assert(decreases_to!(list => list@));
                            }
                            stmt_view(list@[k])
                        } else {
                            StmtV::Basic { list: seq![] }
                        }
                    },
            ),
        },
        Statement::If { cond, list, else_list } => StmtV::If {
            cond: oprs_view(cond.ops@),
            list: Seq::new(
                list@.len(),
                |k: int|
                    {
                        if 0 <= k < list@.len() {
                            proof {
                                assert(decreases_to!(st => list));
                                assert(decreases_to!(list => list@));
                            }
                            stmt_view(list@[k])
                        } else {
                            StmtV::Basic { list: seq![] }
                        }
                    },
            ),
            else_list: Seq::new(
                else_list@.len(),
                |k: int|
                    {
                        if 0 <= k < else_list@.len() {
                            proof {
                                assert(decreases_to!(st => else_list));
                                assert(decreases_to!(else_list => else_list@));
                            }
                            stmt_view(else_list@[k])
                        } else {
                            StmtV::Basic { list: seq![] }
                        }
                    },
            ),
        },
        Statement::Declare { v, list } => StmtV::Declare { vtype: v.vtype, name: v.name@, list: oprs_view(list.ops@) },
        Statement::Basic { list } => StmtV::Basic { list: oprs_view(list.ops@) },
        Statement::Return { list } => StmtV::Return { list: oprs_view(list.ops@) },
    }
}

/// The models of a list of statements.
pub open spec fn stmts_view(s: Seq<Statement>) -> Seq<StmtV> {
    Seq::new(s.len(), |i: int| stmt_view(s[i]))
}

pub proof fn lemma_stmt_lists(st: Statement)
    ensures
        st matches Statement::While { cond, list } ==> stmt_view(st) == (StmtV::While {
            cond: oprs_view(cond.ops@),
            list: stmts_view(list@),
        }),
        st matches Statement::If { cond, list, else_list } ==> stmt_view(st) == (StmtV::If {
            cond: oprs_view(cond.ops@),
            list: stmts_view(list@),
            else_list: stmts_view(else_list@),
        }),
{
    match st {
        Statement::While { cond, list } => {
            assert(stmt_view(st)->While_list =~= stmts_view(list@));
        },
        Statement::If { cond, list, else_list } => {
            assert(stmt_view(st)->If_list =~= stmts_view(list@));
            assert(stmt_view(st)->else_list =~= stmts_view(else_list@));
        },
        _ => {},
    }
}

/// The type a type name stands for: `int`, `float`, `string` and `char`; any other
/// name is an error.
pub open spec fn type_named(v: Seq<char>) -> Result<Type, Seq<char>> {
    if v == "int"@ {
        Ok(Type::TInt)
    } else if v == "float"@ {
        Ok(Type::TFloat)
    } else if v == "string"@ {
        Ok(Type::TStr)
    } else if v == "char"@ {
        Ok(Type::TChar)
    } else {
        Err("undefined type:"@ + v)
    }
}

/// The type that `v` names (see `type_named`).
pub fn parse_type(_context: &Context, v: &str) -> (r: Result<Type, String>)
    ensures
        match type_named(v@) {
            Ok(t) => r matches Ok(x) && x == t,
            Err(m) => r matches Err(x) && x@ == m,
        },
{
    if str_equal(v, "int") {
        return Ok(Type::TInt);
    } else if str_equal(v, "float") {
        return Ok(Type::TFloat);
    } else if str_equal(v, "string") {
        return Ok(Type::TStr);
    } else if str_equal(v, "char") {
        return Ok(Type::TChar);
    }
    let mut m = String::from_str("undefined type:");
    crate::text::push_str(&mut m, v);
    Err(m)
}

/// The position of the first `;` in the tokens, or their number.
pub open spec fn semi_at(toks: Seq<Token>, k: int) -> int
    decreases toks.len() - k,
{
    if k < 0 || k >= toks.len() {
        toks.len() as int
    } else if toks[k].tt == TokenType::TokenSemi {
        k
    } else {
        semi_at(toks, k + 1)
    }
}

/// The tokens up to the first `;`, and those after it.
pub open spec fn until_semi(toks: Seq<Token>) -> (Seq<Token>, Seq<Token>) {
    let k = semi_at(toks, 0);
    (
        toks.take(k),
        if k < toks.len() {
            toks.skip(k + 1)
        } else {
            seq![]
        },
    )
}

/// The outcome of reading a statement: a panic, an error, or the statement and the
/// tokens after it.
pub enum StmtRun {
    Stuck,
    Fail(Seq<char>),
    Done(StmtV, Seq<Token>),
}

/// The outcome of reading a block: a panic, an error, or its statements.
pub enum BlockRun {
    Stuck,
    Fail(Seq<char>),
    Done(Seq<StmtV>),
}

/// The outcome of parsing an expression's tokens.
pub open spec fn expr_run(ts: Seq<Token>) -> Parsed {
    parse_tokens(toks_v(ts))
}

/// A braced block at the front of the tokens: its statements and the tokens after it.
pub open spec fn braced(toks: Seq<Token>) -> Option<(Seq<Token>, Seq<Token>)> {
    if group_ok(toks, TokenType::TokenOpenCurl, TokenType::TokenCloseCurl) {
        let n = group_len(toks, TokenType::TokenOpenCurl, TokenType::TokenCloseCurl);
        Some((toks.subrange(1, n - 1), toks.skip(n)))
    } else {
        None
    }
}

/// A statement at the front of the tokens: `if (cond) {..}` with an optional
/// `else {..}`, `while (cond) {..}`, `let type name ...;` (the name starts the
/// initialiser expression), `return ...;`, or an expression up to `;`.
pub open spec fn parse_stmt(toks: Seq<Token>) -> StmtRun
    decreases toks.len(), 0int,
{
    if toks.len() == 0 {
        StmtRun::Stuck
    } else {
        let base = toks[0].st@;
        if base == "if"@ || base == "while"@ {
            let t1 = toks.skip(1);
            if !group_ok(t1, TokenType::TokenOpenParen, TokenType::TokenCloseParen) {
                StmtRun::Stuck
            } else {
                let n = group_len(t1, TokenType::TokenOpenParen, TokenType::TokenCloseParen);
                match expr_run(t1.subrange(1, n - 1)) {
                    Parsed::Stuck => StmtRun::Stuck,
                    Parsed::Fail(m) => StmtRun::Fail(m),
                    Parsed::Done(cond) => match braced(t1.skip(n)) {
                        None => StmtRun::Stuck,
                        Some((body, t3)) => if body.len() >= toks.len() {
                            StmtRun::Stuck
                        } else {
                            match parse_block(body) {
                                BlockRun::Stuck => StmtRun::Stuck,
                                BlockRun::Fail(m) => StmtRun::Fail(m),
                                BlockRun::Done(list) => if base == "while"@ {
                                    StmtRun::Done(StmtV::While { cond, list }, t3)
                                } else if t3.len() > 0 && t3[0].st@ == "else"@ {
                                    match braced(t3.skip(1)) {
                                        None => StmtRun::Stuck,
                                        Some((eb, t5)) => if eb.len() >= toks.len() {
                                            StmtRun::Stuck
                                        } else {
                                            match parse_block(eb) {
                                                BlockRun::Stuck => StmtRun::Stuck,
                                                BlockRun::Fail(m) => StmtRun::Fail(m),
                                                BlockRun::Done(el) => StmtRun::Done(
                                                    StmtV::If { cond, list, else_list: el },
                                                    t5,
                                                ),
                                            }
                                        },
                                    }
                                } else {
                                    StmtRun::Done(StmtV::If { cond, list, else_list: seq![] }, t3)
                                },
                            }
                        },
                    },
                }
            }
        } else if base == "let"@ {
            stmt_let(toks)
        } else {
            stmt_simple(toks)
        }
    }
}

/// `let type name ...;`: a declaration whose initialiser starts at the name.
pub open spec fn stmt_let(toks: Seq<Token>) -> StmtRun {
    if toks.len() < 2 {
        StmtRun::Stuck
    } else {
        match type_named(toks[1].st@) {
            Err(m) => StmtRun::Fail(m),
            Ok(vt) => if toks.len() < 3 {
                StmtRun::Stuck
            } else {
                let (ts, rest) = until_semi(toks.skip(2));
                match expr_run(ts) {
                    Parsed::Stuck => StmtRun::Stuck,
                    Parsed::Fail(m) => StmtRun::Fail(m),
                    Parsed::Done(list) => StmtRun::Done(StmtV::Declare { vtype: vt, name: toks[2].st@, list }, rest),
                }
            },
        }
    }
}

/// `return ...;` or an expression up to `;`.
pub open spec fn stmt_simple(toks: Seq<Token>) -> StmtRun {
    let is_return = toks.len() > 0 && toks[0].st@ == "return"@;
    let (ts, rest) = if is_return {
        until_semi(toks.skip(1))
    } else {
        until_semi(toks)
    };
    match expr_run(ts) {
        Parsed::Stuck => StmtRun::Stuck,
        Parsed::Fail(m) => StmtRun::Fail(m),
        Parsed::Done(list) => StmtRun::Done(
            if is_return {
                StmtV::Return { list }
            } else {
                StmtV::Basic { list }
            },
            rest,
        ),
    }
}

/// The statements of a block, read one after another until the tokens run out.
pub open spec fn parse_block(toks: Seq<Token>) -> BlockRun
    decreases toks.len(), 1int,
{
    if toks.len() == 0 {
        BlockRun::Done(seq![])
    } else {
        match parse_stmt(toks) {
            StmtRun::Stuck => BlockRun::Stuck,
            StmtRun::Fail(m) => BlockRun::Fail(m),
            StmtRun::Done(st, rest) => if rest.len() >= toks.len() {
                BlockRun::Stuck
            } else {
                match parse_block(rest) {
                    BlockRun::Stuck => BlockRun::Stuck,
                    BlockRun::Fail(m) => BlockRun::Fail(m),
                    BlockRun::Done(l) => BlockRun::Done(seq![st] + l),
                }
            },
        }
    }
}

/// Takes the tokens up to the first `;` and moves past it (see `until_semi`).
fn take_until_semi(tokens: &mut Stream<Token>) -> (ts: Vec<Token>)
    ensures
        ts@.len() <= old(tokens).values@.len(),
        toks_v(ts@) == toks_v(until_semi(old(tokens).values@).0),
        final(tokens).values@ == until_semi(old(tokens).values@).1,
{
    let ghost t0 = tokens.values@;
    let mut ts: Vec<Token> = Vec::new();
    let ghost mut j: int = 0;
    assert(toks_v(ts@) =~= toks_v(t0.take(0)));
    assert(t0.skip(0) =~= t0);
    loop
        invariant_except_break
            0 <= j <= t0.len(),
            tokens.values@ == t0.skip(j),
            toks_v(ts@) == toks_v(t0.take(j)),
            ts@.len() == j,
            semi_at(t0, 0) == semi_at(t0, j),
        ensures
            ts@.len() <= t0.len(),
            toks_v(ts@) == toks_v(until_semi(t0).0),
            tokens.values@ == until_semi(t0).1,
        decreases t0.len() - j,
    {
        match tokens.next() {
            Some(k) => {
                assert(tok_view(k) == tok_view(t0[j]));
                if k.tt == TokenType::TokenSemi {
                    assert(semi_at(t0, j) == j);
                    break;
                }
                assert(semi_at(t0, j) == semi_at(t0, j + 1));
                let ghost before = ts@;
                ts.push(k);
                assert(toks_v(ts@) =~= toks_v(before).push(tok_view(k)));
                assert(toks_v(t0.take(j + 1)) =~= toks_v(t0.take(j)).push(tok_view(t0[j])));
                assert(t0.skip(j).drop_first() =~= t0.skip(j + 1));
                proof {
                    j = j + 1;
                }
            },
            None => {
                assert(t0.skip(j).len() == 0);
                assert(semi_at(t0, j) == t0.len());
                assert(t0.take(j) =~= t0);
                break;
            },
        }
    }
    ts
}

/// Reads a statement (see `parse_stmt`).
pub fn parse_statement(context: &mut Context, tokens: &mut Stream<Token>) -> (r: Result<Statement, String>)
    requires
        old(tokens).values@.len() <= i64::MAX,
        !(parse_stmt(old(tokens).values@) is Stuck),
    ensures
        *final(context) == *old(context),
        match parse_stmt(old(tokens).values@) {
            StmtRun::Fail(m) => r matches Err(x) && x@ == m,
            StmtRun::Done(sv, rest) => r matches Ok(x) && stmt_view(x) == sv && final(tokens).values@ == rest,
            StmtRun::Stuck => false,
        },
    decreases old(tokens).values@.len(), 1int,
{
    let ghost toks = tokens.values@;
    let base = match tokens.peek() {
        Some(b) => b,
        None => {
            return Err(String::new());
        },
    };
    assert(tok_view(base) == tok_view(toks[0]));
    if base.equals("if") || base.equals("while") {
        parse_branch_or_loop(context, tokens)
    } else if base.equals("let") {
        parse_let(context, tokens)
    } else {
        parse_simple(tokens)
    }
}

/// Reads `return ...;` or an expression up to `;` (see `stmt_simple`).
fn parse_simple(tokens: &mut Stream<Token>) -> (r: Result<Statement, String>)
    requires
        old(tokens).values@.len() <= i64::MAX,
        old(tokens).values@.len() > 0,
        !(stmt_simple(old(tokens).values@) is Stuck),
    ensures
        match stmt_simple(old(tokens).values@) {
            StmtRun::Fail(m) => r matches Err(x) && x@ == m,
            StmtRun::Done(sv, rest) => r matches Ok(x) && stmt_view(x) == sv && final(tokens).values@ == rest,
            StmtRun::Stuck => false,
        },
{
    let ghost toks = tokens.values@;
    let is_return = match tokens.peek() {
        Some(b) => b.equals("return"),
        None => false,
    };
    {
        if is_return {
            let _ = tokens.next();
        }
        let ts = take_until_semi(tokens);
        let expr = match parse_expression(ts.as_slice()) {
            Ok(e) => e,
            Err(m) => {
                return Err(m);
            },
        };
        if is_return {
            Ok(Statement::Return { list: expr })
        } else {
            Ok(Statement::Basic { list: expr })
        }
    }
}

/// Reads `let type name ...;` (see `parse_stmt`).
fn parse_let(context: &mut Context, tokens: &mut Stream<Token>) -> (r: Result<Statement, String>)
    requires
        old(tokens).values@.len() <= i64::MAX,
        old(tokens).values@.len() > 0,
        !(stmt_let(old(tokens).values@) is Stuck),
    ensures
        *final(context) == *old(context),
        match stmt_let(old(tokens).values@) {
            StmtRun::Fail(m) => r matches Err(x) && x@ == m,
            StmtRun::Done(sv, rest) => r matches Ok(x) && stmt_view(x) == sv && final(tokens).values@ == rest,
            StmtRun::Stuck => false,
        },
{
    let ghost toks = tokens.values@;
    let _ = tokens.next();
    let tt = match tokens.next() {
        Some(t) => t,
        None => {
            return Err(String::new());
        },
    };
    assert(tok_view(tt) == tok_view(toks[1]));
    let vt = match parse_type(context, tt.st.as_str()) {
        Ok(t) => t,
        Err(m) => {
            return Err(m);
        },
    };
    let namet = match tokens.peek() {
        Some(t) => t,
        None => {
            return Err(String::new());
        },
    };
    assert(tokens.values@ =~= toks.skip(2));
    assert(tok_view(namet) == tok_view(toks[2]));
    let name = namet.st;
    let ts = take_until_semi(tokens);
    let expr = match parse_expression(ts.as_slice()) {
        Ok(e) => e,
        Err(m) => {
            return Err(m);
        },
    };
    Ok(Statement::Declare { v: Var { vtype: vt, name }, list: expr })
}

/// Reads `if (cond) {..}` with an optional `else {..}`, or `while (cond) {..}` (see
/// `parse_stmt`).
#[verifier::rlimit(30)]
fn parse_branch_or_loop(context: &mut Context, tokens: &mut Stream<Token>) -> (r: Result<Statement, String>)
    requires
        old(tokens).values@.len() <= i64::MAX,
        old(tokens).values@.len() > 0,
        old(tokens).values@[0].st@ == "if"@ || old(tokens).values@[0].st@ == "while"@,
        !(parse_stmt(old(tokens).values@) is Stuck),
    ensures
        *final(context) == *old(context),
        match parse_stmt(old(tokens).values@) {
            StmtRun::Fail(m) => r matches Err(x) && x@ == m,
            StmtRun::Done(sv, rest) => r matches Ok(x) && stmt_view(x) == sv && final(tokens).values@ == rest,
            StmtRun::Stuck => false,
        },
    decreases old(tokens).values@.len(), 0int,
{
    let ghost toks = tokens.values@;
    let is_while = match tokens.next() {
        Some(b) => b.equals("while"),
        None => false,
    };
    proof {
        lemma_group_len_le(toks.skip(1), TokenType::TokenOpenParen, TokenType::TokenCloseParen);
    }
    let exp = get_paren_expr(tokens);
    assert(exp.values@.len() <= toks.len());
    let expr = match parse_expression(exp.values) {
        Ok(e) => e,
        Err(m) => {
            return Err(m);
        },
    };
    let scpe = get_scope(tokens);
    let scope = match parse_scope(context, scpe) {
        Ok(l) => l,
        Err(m) => {
            return Err(m);
        },
    };
    if is_while {
        let st = Statement::While { cond: expr, list: scope };
        proof {
            lemma_stmt_lists(st);
        }
        return Ok(st);
    }
    let mut elscp: Vec<Statement> = Vec::new();
    assert(stmts_view(elscp@) =~= seq![]);
    let ghost t3 = tokens.values@;
    match tokens.peek() {
        Some(n) => {
            assert(tok_view(n) == tok_view(t3[0]));
            if n.equals("else") {
                let _ = tokens.next();
                let nscpe = get_scope(tokens);
                elscp = match parse_scope(context, nscpe) {
                    Ok(l) => l,
                    Err(m) => {
                        return Err(m);
                    },
                };
            }
        },
        None => {},
    }
    let st = Statement::If { cond: expr, list: scope, else_list: elscp };
    proof {
        lemma_stmt_lists(st);
    }
    Ok(st)
}

/// Reads the statements of a block until its tokens run out (see `parse_block`).
pub fn parse_scope(context: &mut Context, tokens: Stream<Token>) -> (r: Result<Vec<Statement>, String>)
    requires
        tokens.values@.len() <= i64::MAX,
        !(parse_block(tokens.values@) is Stuck),
    ensures
        *final(context) == *old(context),
        match parse_block(tokens.values@) {
            BlockRun::Fail(m) => r matches Err(x) && x@ == m,
            BlockRun::Done(l) => r matches Ok(x) && stmts_view(x@) == l,
            BlockRun::Stuck => false,
        },
    decreases tokens.values@.len(), 2int,
{
    let ghost t0 = tokens.values@;
    let mut toks = tokens;
    let mut out: Vec<Statement> = Vec::new();
    assert(stmts_view(out@) =~= seq![]);
    loop
        invariant
            *context == *old(context),
            tokens.values@ == t0,
            toks.values@.len() <= t0.len(),
            t0.len() <= i64::MAX,
            !(parse_block(t0) is Stuck),
            match parse_block(t0) {
                BlockRun::Done(l) => parse_block(toks.values@) matches BlockRun::Done(l2) && l == stmts_view(out@) + l2,
                BlockRun::Fail(m) => parse_block(toks.values@) == BlockRun::Fail(m),
                BlockRun::Stuck => false,
            },
        decreases toks.values@.len(),
    {
        if toks.values.len() == 0 {
            assert(stmts_view(out@) + seq![] =~= stmts_view(out@));
            return Ok(out);
        }
        let ghost cur = toks.values@;
        match parse_statement(context, &mut toks) {
            Ok(st) => {
                let ghost before = out@;
                let ghost sv = stmt_view(st);
                out.push(st);
                assert(stmts_view(out@) =~= stmts_view(before).push(sv));
                proof {
                    match parse_block(t0) {
                        BlockRun::Done(l) => {
                            let l2 = parse_block(cur)->Done_0;
                            let l3 = parse_block(toks.values@)->Done_0;
                            assert(l2 == seq![sv] + l3);
                            assert(stmts_view(before) + l2 =~= stmts_view(out@) + l3);
                        },
                        _ => {},
                    }
                }
            },
            Err(m) => {
                return Err(m);
            },
        }
    }
}

/// The text and kind of each token.
pub open spec fn kinds(toks: Seq<Token>) -> Seq<(Seq<char>, TokenType)> {
    Seq::new(toks.len(), |i: int| (toks[i].st@, toks[i].tt))
}

/// The text and kind of each token model.
pub open spec fn view_kinds(toks: Seq<TokenView>) -> Seq<(Seq<char>, TokenType)> {
    Seq::new(toks.len(), |i: int| (toks[i].st, toks[i].tt))
}

/// The model of a function header: name, return type and parameters.
pub struct HeadV {
    pub name: Seq<char>,
    pub rv: Type,
    pub args: Seq<(Seq<char>, Type)>,
}

/// The model of a function: its header and the model of its body.
pub struct FnV {
    pub name: Seq<char>,
    pub args: Seq<(Seq<char>, Type)>,
    pub rv: Type,
    pub list: Seq<StmtV>,
}

pub open spec fn fn_view(f: Function) -> FnV {
    FnV {
        name: f.name@,
        args: Seq::new(f.args@.len(), |i: int| (f.args@[i].name@, f.args@[i].vtype)),
        rv: f.return_type,
        list: stmts_view(f.list@),
    }
}

pub open spec fn fns_view(s: Seq<Function>) -> Seq<FnV> {
    Seq::new(s.len(), |i: int| fn_view(s[i]))
}

/// The parameters from position `j`: name and type name in turn up to `)`. `None`
/// where a name has no type; the last part tells whether a `)` ended them, and the
/// position after it (or the end).
pub open spec fn params(ks: Seq<(Seq<char>, TokenType)>, j: int, acc: Seq<(Seq<char>, Type)>) -> Option<
    Result<(Seq<(Seq<char>, Type)>, int, bool), Seq<char>>,
>
    decreases ks.len() - j,
{
    if j < 0 || j >= ks.len() {
        Some(Ok((acc, ks.len() as int, false)))
    } else if ks[j].1 == TokenType::TokenCloseParen {
        Some(Ok((acc, j + 1, true)))
    } else if j + 1 >= ks.len() {
        None
    } else {
        match type_named(ks[j + 1].0) {
            Err(m) => Some(Err(m)),
            Ok(t) => params(ks, j + 2, acc.push((ks[j].0, t))),
        }
    }
}

/// The outcome of reading a header: a panic, an error, or the header, the position
/// after it and whether its parameter list was closed.
pub enum HeadRun {
    Stuck,
    Fail(Seq<char>),
    Done(HeadV, int, bool),
}

/// A header from position `i`: the name, the return type's name, `(` and the
/// parameters.
pub open spec fn header(ks: Seq<(Seq<char>, TokenType)>, i: int) -> HeadRun {
    if i < 0 || i + 1 >= ks.len() {
        HeadRun::Stuck
    } else {
        match type_named(ks[i + 1].0) {
            Err(m) => HeadRun::Fail(m),
            Ok(rv) => if i + 2 >= ks.len() || ks[i + 2].1 != TokenType::TokenOpenParen {
                HeadRun::Stuck
            } else {
                match params(ks, i + 3, seq![]) {
                    None => HeadRun::Stuck,
                    Some(Err(m)) => HeadRun::Fail(m),
                    Some(Ok((args, j, closed))) => HeadRun::Done(HeadV { name: ks[i].0, rv, args }, j, closed),
                }
            },
        }
    }
}

/// A function with only a header.
pub open spec fn bodiless(h: HeadV) -> FnV {
    FnV { name: h.name, args: h.args, rv: h.rv, list: seq![] }
}

/// The functions an included file declares, from position `i`: each `pub defun` or
/// `pub extern defun` header. `None` where the reading panics.
pub open spec fn include_scan(ks: Seq<(Seq<char>, TokenType)>, i: int, ex: Seq<FnV>) -> Option<
    Result<Seq<FnV>, Seq<char>>,
>
    decreases ks.len() - i,
{
    if i < 0 || i >= ks.len() {
        Some(Ok(ex))
    } else if ks[i].0 == "pub"@ {
        if i + 1 >= ks.len() {
            None
        } else {
            let q = if ks[i + 1].0 == "extern"@ {
                i + 2
            } else {
                i + 1
            };
            if q >= ks.len() || ks[q].0 != "defun"@ {
                None
            } else {
                match header(ks, q + 1) {
                    HeadRun::Stuck => None,
                    HeadRun::Fail(m) => Some(Err(m)),
                    HeadRun::Done(h, j, _) => if j <= i || j > ks.len() {
                        None
                    } else {
                        include_scan(ks, j, ex.push(bodiless(h)))
                    },
                }
            }
        }
    } else {
        include_scan(ks, i + 1, ex)
    }
}

/// The path an `#include` names: its text without the surrounding double quotes.
pub open spec fn include_path(st: Seq<char>) -> Option<Seq<char>> {
    if st.len() >= 2 && st[0] == '"' && st.last() == '"' {
        Some(st.subrange(1, st.len() - 1))
    } else {
        None
    }
}

/// Including the file `path`: the functions its text declares (see `include_scan`) go
/// after `ex`; a file that `files` does not have is an error.
pub open spec fn include_run(ex: Seq<FnV>, path: Seq<char>, files: Map<Seq<char>, Seq<char>>) -> Option<
    Result<Seq<FnV>, Seq<char>>,
> {
    if !files.dom().contains(path) {
        Some(Err("cannot read "@ + path))
    } else if files[path].len() > usize::MAX / 8 {
        None
    } else {
        include_scan(view_kinds(all_tokens(files[path], 0, 1)), 0, ex)
    }
}

/// The external functions a program declares, from position `i`: `extern` headers
/// (ended by `;`), and the functions of each `#include`d file, whose text `files`
/// gives (a file it does not have is an error).
pub open spec fn externs_scan(
    ks: Seq<(Seq<char>, TokenType)>,
    i: int,
    ex: Seq<FnV>,
    files: Map<Seq<char>, Seq<char>>,
) -> Option<Result<Seq<FnV>, Seq<char>>>
    decreases ks.len() - i,
{
    if i < 0 || i >= ks.len() {
        Some(Ok(ex))
    } else if ks[i].0 == "#include"@ {
        if i + 1 >= ks.len() {
            None
        } else {
            match include_path(ks[i + 1].0) {
                None => None,
                Some(path) => match include_run(ex, path, files) {
                    None => None,
                    Some(Err(m)) => Some(Err(m)),
                    Some(Ok(ex2)) => externs_scan(ks, i + 2, ex2, files),
                },
            }
        }
    } else if ks[i].0 == "extern"@ {
        match header(ks, i + 1) {
            HeadRun::Stuck => None,
            HeadRun::Fail(m) => Some(Err(m)),
            HeadRun::Done(h, j, closed) => if !closed || j >= ks.len() || ks[j].1 != TokenType::TokenSemi || j
                <= i {
                None
            } else {
                externs_scan(ks, j + 1, ex.push(bodiless(h)), files)
            },
        }
    } else {
        externs_scan(ks, i + 1, ex, files)
    }
}

/// The functions a program defines, from position `i`: each `defun` header with the
/// statements of the braced body after it.
pub open spec fn defuns_scan(toks: Seq<Token>, i: int, fs: Seq<FnV>) -> Option<Result<Seq<FnV>, Seq<char>>>
    decreases toks.len() - i,
{
    if i < 0 || i >= toks.len() {
        Some(Ok(fs))
    } else if toks[i].st@ == "defun"@ {
        match header(kinds(toks), i + 1) {
            HeadRun::Stuck => None,
            HeadRun::Fail(m) => Some(Err(m)),
            HeadRun::Done(h, j, _) => if j < 0 || j > toks.len() {
                None
            } else {
                match braced(toks.skip(j)) {
                    None => None,
                    Some((body, rest)) => match parse_block(body) {
                        BlockRun::Stuck => None,
                        BlockRun::Fail(m) => Some(Err(m)),
                        BlockRun::Done(list) => if toks.len() - rest.len() <= i {
                            None
                        } else {
                            defuns_scan(
                                toks,
                                toks.len() - rest.len(),
                                fs.push(FnV { name: h.name, args: h.args, rv: h.rv, list }),
                            )
                        },
                    },
                }
            },
        }
    } else {
        defuns_scan(toks, i + 1, fs)
    }
}

/// The model of what a program declares.
pub struct CtxV {
    pub functions: Seq<FnV>,
    pub externs: Seq<FnV>,
}

/// Reading a program: a `deftype` anywhere panics; then the external functions (see
/// `externs_scan`), then the defined ones (see `defuns_scan`). `None` where the reading
/// panics.
pub open spec fn program_run(toks: Seq<Token>, files: Map<Seq<char>, Seq<char>>) -> Option<Result<CtxV, Seq<char>>> {
    if exists|k: int| 0 <= k < toks.len() && #[trigger] toks[k].st@ == "deftype"@ {
        None
    } else {
        program_after(toks, files)
    }
}

/// Reading a program without `deftype`: the external functions, then the defined ones.
pub open spec fn program_after(toks: Seq<Token>, files: Map<Seq<char>, Seq<char>>) -> Option<Result<CtxV, Seq<char>>> {
    {
        match externs_scan(kinds(toks), 0, seq![], files) {
            None => None,
            Some(Err(m)) => Some(Err(m)),
            Some(Ok(ex)) => match defuns_scan(toks, 0, seq![]) {
                None => None,
                Some(Err(m)) => Some(Err(m)),
                Some(Ok(fs)) => Some(Ok(CtxV { functions: fs, externs: ex })),
            },
        }
    }
}

/// The models of a list of parameters.
pub open spec fn vars_view(s: Seq<Var>) -> Seq<(Seq<char>, Type)> {
    Seq::new(s.len(), |i: int| (s[i].name@, s[i].vtype))
}

/// Reads a header from position `i` (see `header`): the name, return type,
/// parameters, the position after them and whether `)` closed them.
fn read_header(toks: &[Token], i: usize) -> (r: Result<(String, Type, Vec<Var>, usize, bool), String>)
    requires
        !(header(kinds(toks@), i as int) is Stuck),
    ensures
        match header(kinds(toks@), i as int) {
            HeadRun::Fail(m) => r matches Err(x) && x@ == m,
            HeadRun::Done(h, j, c) => r matches Ok((n, rv, args, j2, c2)) && n@ == h.name && rv == h.rv && vars_view(
                args@,
            ) == h.args && j2 == j && c2 == c,
            HeadRun::Stuck => false,
        },
{
    let ghost ks = kinds(toks@);
    let n = toks.len();
    assert(ks[i + 1] == (toks@[i + 1].st@, toks@[i + 1].tt));
    let rv = match parse_type(&Context { types: Vec::new(), functions: Vec::new(), externs: Vec::new() }, toks[i + 1].st.as_str()) {
        Ok(t) => t,
        Err(m) => {
            return Err(m);
        },
    };
    assert(ks[i as int] == (toks@[i as int].st@, toks@[i as int].tt));
    assert(ks[i + 2] == (toks@[i + 2].st@, toks@[i + 2].tt));
    let name = toks[i].st.clone();
    let mut args: Vec<Var> = Vec::new();
    assert(vars_view(args@) =~= seq![]);
    let mut j: usize = i + 3;
    let mut closed = false;
    loop
        invariant_except_break
            n == toks@.len(),
            ks == kinds(toks@),
            i + 3 <= j <= n,
            !closed,
            params(ks, i + 3, seq![]) == params(ks, j as int, vars_view(args@)),
            params(ks, i + 3, seq![]) is Some,
            header(ks, i as int) == (match params(ks, i + 3, seq![]) {
                None => HeadRun::Stuck,
                Some(Err(m)) => HeadRun::Fail(m),
                Some(Ok((a, j3, c))) => HeadRun::Done(HeadV { name: ks[i as int].0, rv, args: a }, j3, c),
            }),
        ensures
            params(ks, i + 3, seq![]) == Some(Ok::<(Seq<(Seq<char>, Type)>, int, bool), Seq<char>>((vars_view(args@), j as int, closed))),
        decreases n - j,
    {
        if j >= n {
            break;
        }
        assert(ks[j as int] == (toks@[j as int].st@, toks@[j as int].tt));
        if toks[j].tt == TokenType::TokenCloseParen {
            j += 1;
            closed = true;
            break;
        }
        assert(ks[j + 1] == (toks@[j + 1].st@, toks@[j + 1].tt));
        let vt = match parse_type(&Context { types: Vec::new(), functions: Vec::new(), externs: Vec::new() }, toks[j + 1].st.as_str()) {
            Ok(t) => t,
            Err(m) => {
                return Err(m);
            },
        };
        let ghost before = args@;
        let v = Var { vtype: vt, name: toks[j].st.clone() };
        let ghost vv = (v.name@, v.vtype);
        args.push(v);
        assert(vars_view(args@) =~= vars_view(before).push(vv));
        j += 2;
    }
    Ok((name, rv, args, j, closed))
}

/// The texts of files by name, as models.
pub open spec fn files_view(files: Table<String>) -> Map<Seq<char>, Seq<char>> {
    files.map().map_values(|t: String| t@)
}

proof fn lemma_kinds_view(r: Seq<Token>)
    ensures
        kinds(r) == view_kinds(r.map_values(|t: Token| token_view(t))),
{
    assert(kinds(r) =~= view_kinds(r.map_values(|t: Token| token_view(t))));
}

/// Appends the function a header describes, with no body.
fn push_bodiless(out: &mut Vec<Function>, name: String, rv: Type, args: Vec<Var>)
    ensures
        fns_view(final(out)@) == fns_view(old(out)@).push(
            bodiless(HeadV { name: name@, rv, args: vars_view(args@) }),
        ),
{
    let ghost h = HeadV { name: name@, rv, args: vars_view(args@) };
    let f = Function { name, args, return_type: rv, list: Vec::new() };
    assert(fn_view(f).args =~= h.args);
    assert(fn_view(f).list =~= seq![]);
    let ghost before = out@;
    out.push(f);
    assert(fns_view(out@) =~= fns_view(before).push(bodiless(h)));
}

/// Includes the file `s` (see `include_run`): the functions that its text declares as
/// `pub defun` or `pub extern defun` become external functions of the context. The
/// text comes from `files` (the caller reads the files); a file not there is an error.
pub fn include_file(context: &mut Context, s: &str, files: &Table<String>) -> (r: Result<(), String>)
    requires
        files.wf(),
        include_run(fns_view(old(context).externs@), s@, files_view(*files)) is Some,
    ensures
        match include_run(fns_view(old(context).externs@), s@, files_view(*files)) {
            Some(Ok(ex)) => r is Ok && fns_view(final(context).externs@) == ex,
            Some(Err(m)) => r matches Err(x) && x@ == m,
            None => false,
        },
        final(context).functions == old(context).functions,
        final(context).types == old(context).types,
{
    let text = match files.get(s) {
        Some(t) => t,
        None => {
            let mut m = String::from_str("cannot read ");
            crate::text::push_str(&mut m, s);
            return Err(m);
        },
    };
    assert(files_view(*files)[s@] == text@);
    let mut stream = TokenStream::new(text.as_str(), s);
    let toks = stream.collect();
    proof {
        lemma_kinds_view(toks@);
    }
    let ghost ks = kinds(toks@);
    let ghost ex0 = fns_view(context.externs@);
    let n = toks.len();
    let mut i: usize = 0;
    while i < n
        invariant
            n == toks@.len(),
            ks == kinds(toks@),
            i <= n,
            include_scan(ks, 0, ex0) == include_scan(ks, i as int, fns_view(context.externs@)),
            include_scan(ks, 0, ex0) is Some,
            include_run(fns_view(old(context).externs@), s@, files_view(*files)) == include_scan(ks, 0, ex0),
            context.functions == old(context).functions,
            context.types == old(context).types,
        decreases n - i,
    {
        assert(ks[i as int] == (toks@[i as int].st@, toks@[i as int].tt));
        if toks[i].equals("pub") {
            let mut q = i + 1;
            assert(ks[q as int] == (toks@[q as int].st@, toks@[q as int].tt));
            if toks[q].equals("extern") {
                q = q + 1;
            }
            assert(ks[q as int] == (toks@[q as int].st@, toks@[q as int].tt));
            if !toks[q].equals("defun") {
                return Err(String::new());
            }
            match read_header(toks.as_slice(), q + 1) {
                Ok((name, rv, args, j, _)) => {
                    push_bodiless(&mut context.externs, name, rv, args);
                    i = j;
                },
                Err(m) => {
                    return Err(m);
                },
            }
        } else {
            i += 1;
        }
    }
    Ok(())
}

/// The paths that `#include` tokens from position `k` on name (see `include_path`), in
/// order.
pub open spec fn paths_from(toks: Seq<Token>, k: int) -> Seq<Seq<char>>
    decreases toks.len() - k,
{
    if k < 0 || k + 1 >= toks.len() {
        seq![]
    } else {
        (if toks[k].st@ == "#include"@ && include_path(toks[k + 1].st@) is Some {
            seq![include_path(toks[k + 1].st@)->Some_0]
        } else {
            seq![]
        }) + paths_from(toks, k + 1)
    }
}

/// The paths that `#include` tokens name (see `paths_from`): the files that reading
/// the program may need.
pub fn include_paths(tokens: &Vec<Token>) -> (r: Vec<String>)
    ensures
        r@.map_values(|t: String| t@) == paths_from(tokens@, 0),
{
    let mut out: Vec<String> = Vec::new();
    let mut k: usize = 0;
    assert(out@.map_values(|t: String| t@) + paths_from(tokens@, 0) =~= paths_from(tokens@, 0));
    while k < tokens.len()
        invariant
            out@.map_values(|t: String| t@) + paths_from(tokens@, k as int) == paths_from(tokens@, 0),
        decreases tokens@.len() - k,
    {
        let ghost before = out@.map_values(|t: String| t@);
        if k + 1 < tokens.len() && tokens[k].equals("#include") {
            let v = crate::text::to_chars(tokens[k + 1].st.as_str());
            let n = v.len();
            if n >= 2 && v[0] == '"' && v[n - 1] == '"' {
                let p = crate::text::from_chars(&v.as_slice()[1..n - 1]);
                assert(p@ =~= include_path(tokens@[k + 1].st@)->Some_0);
                out.push(p);
                assert(out@.map_values(|t: String| t@) =~= before.push(p@));
            }
        }
        assert(out@.map_values(|t: String| t@) + paths_from(tokens@, k + 1) =~= before + paths_from(tokens@, k as int));
        k += 1;
    }
    assert(paths_from(tokens@, k as int) =~= seq![]);
    assert(out@.map_values(|t: String| t@) =~= out@.map_values(|t: String| t@) + paths_from(tokens@, k as int));
    out
}

/// Reads the functions a program defines (see `defuns_scan`) after those the context
/// has.
#[verifier::rlimit(30)]
fn read_defuns(context: &mut Context, tokens: &Vec<Token>) -> (r: Result<(), String>)
    requires
        tokens@.len() <= i64::MAX,
        defuns_scan(tokens@, 0, fns_view(old(context).functions@)) is Some,
    ensures
        match defuns_scan(tokens@, 0, fns_view(old(context).functions@)) {
            Some(Ok(fs)) => r is Ok && fns_view(final(context).functions@) == fs,
            Some(Err(m)) => r matches Err(x) && x@ == m,
            None => false,
        },
        final(context).externs == old(context).externs,
        final(context).types == old(context).types,
{
    let ghost f0 = fns_view(context.functions@);
    let n = tokens.len();
    let mut i: usize = 0;
    while i < n
        invariant
            n == tokens@.len(),
            tokens@.len() <= i64::MAX,
            i <= n,
            defuns_scan(tokens@, 0, f0) == defuns_scan(tokens@, i as int, fns_view(context.functions@)),
            defuns_scan(tokens@, 0, f0) is Some,
            f0 == fns_view(old(context).functions@),
            context.externs == old(context).externs,
            context.types == old(context).types,
        decreases n - i,
    {
        if tokens[i].equals("defun") {
            match read_header(tokens.as_slice(), i + 1) {
                Ok((name, rv, args, j, _)) => {
                    let mut strem = Stream::new(&tokens.as_slice()[j..n]);
                    assert(strem.values@ =~= tokens@.skip(j as int));
                    proof {
                        lemma_group_len_le(strem.values@, TokenType::TokenOpenCurl, TokenType::TokenCloseCurl);
                    }
                    let body = get_scope(&mut strem);
                    assert(body.values@.len() <= n);
                    let list = match parse_scope(context, body) {
                        Ok(l) => l,
                        Err(e) => {
                            return Err(e);
                        },
                    };
                    let f = Function { name, args, return_type: rv, list };
                    let ghost fvw = fn_view(f);
                    assert(fvw.args =~= vars_view(args@));
                    let ghost before = context.functions@;
                    context.functions.push(f);
                    assert(fns_view(context.functions@) =~= fns_view(before).push(fvw));
                    i = n - strem.values.len();
                },
                Err(e) => {
                    return Err(e);
                },
            }
        } else {
            i += 1;
        }
    }
    Ok(())
}

/// Reads a program (see `program_run`): its external functions (`extern` headers and
/// the `pub` functions of the files it includes, whose texts `files` gives) and its
/// functions with their bodies.
pub fn parse_program(tokens: Vec<Token>, files: &Table<String>) -> (r: Result<Context, String>)
    requires
        tokens@.len() <= i64::MAX,
        files.wf(),
        program_run(tokens@, files_view(*files)) is Some,
    ensures
        match program_run(tokens@, files_view(*files)) {
            Some(Ok(cv)) => r matches Ok(c) && fns_view(c.functions@) == cv.functions && fns_view(c.externs@)
                == cv.externs && c.types@.len() == 0,
            Some(Err(m)) => r matches Err(x) && x@ == m,
            None => false,
        },
{
    let ghost fv = files_view(*files);
    let ghost ks = kinds(tokens@);
    let n = tokens.len();
    let mut k: usize = 0;
    while k < n
        invariant
            n == tokens@.len(),
            k <= n,
            program_run(tokens@, fv) is Some,
            forall|a: int| 0 <= a < k ==> tokens@[a].st@ != "deftype"@,
        decreases n - k,
    {
        if tokens[k].equals("deftype") {
            return Err(String::new());
        }
        k += 1;
    }
    assert(program_run(tokens@, fv) == program_after(tokens@, fv));
    let mut context = Context { types: Vec::new(), functions: Vec::new(), externs: Vec::new() };
    assert(fns_view(context.externs@) =~= seq![]);
    let mut i: usize = 0;
    while i < n
        invariant
            n == tokens@.len(),
            ks == kinds(tokens@),
            tokens@.len() <= i64::MAX,
            files.wf(),
            fv == files_view(*files),
            i <= n,
            program_run(tokens@, fv) == program_after(tokens@, fv),
            program_run(tokens@, fv) is Some,
            externs_scan(ks, 0, seq![], fv) == externs_scan(ks, i as int, fns_view(context.externs@), fv),
            context.functions@.len() == 0,
            context.types@.len() == 0,
        decreases n - i,
    {
        assert(ks[i as int] == (tokens@[i as int].st@, tokens@[i as int].tt));
        if tokens[i].equals("#include") {
            assert(ks[i + 1] == (tokens@[i + 1].st@, tokens@[i + 1].tt));
            let v = crate::text::to_chars(tokens[i + 1].st.as_str());
            let m = v.len();
            if !(m >= 2 && v[0] == '"' && v[m - 1] == '"') {
                return Err(String::new());
            }
            let path = crate::text::from_chars(&v.as_slice()[1..m - 1]);
            assert(path@ =~= include_path(tokens@[i + 1].st@)->Some_0);
            match include_file(&mut context, path.as_str(), files) {
                Ok(()) => {},
                Err(e) => {
                    return Err(e);
                },
            }
            i += 2;
        } else if tokens[i].equals("extern") {
            match read_header(tokens.as_slice(), i + 1) {
                Ok((name, rv, args, j, closed)) => {
                    if !closed || j >= n {
                        return Err(String::new());
                    }
                    assert(ks[j as int] == (tokens@[j as int].st@, tokens@[j as int].tt));
                    if tokens[j].tt != TokenType::TokenSemi {
                        return Err(String::new());
                    }
                    push_bodiless(&mut context.externs, name, rv, args);
                    i = j + 1;
                },
                Err(e) => {
                    return Err(e);
                },
            }
        } else {
            i += 1;
        }
    }
    let ghost ex = fns_view(context.externs@);
    assert(fns_view(context.functions@) =~= seq![]);
    match read_defuns(&mut context, &tokens) {
        Ok(()) => {},
        Err(e) => {
            return Err(e);
        },
    }
    Ok(context)
}

} // verus!
