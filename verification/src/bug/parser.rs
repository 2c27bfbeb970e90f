//! Operators of bug expressions and the search for a token outside nested brackets.
use crate::bug::tokens::{tok_view, toks_v, Token, TokenType, TokenV};
use crate::bug::bug::{ty_v, BTy, Type};
use vstd::prelude::*;

verus! {

/// The operations of the bug intermediate code.
#[allow(non_camel_case_types)]
#[derive(Debug, Clone, Copy, PartialEq, Eq, Structural)]
pub enum OpType {
    o_ad,
    o_sb,
    o_ml,
    o_dv,
    o_as,
    o_gt,
    o_cgt,
    o_dec,
    o_type,
    o_num,
    o_flt,
    o_str,
    o_idnt,
    o_fld,
    o_call,
    o_lable,
    o_return,
    o_clear,
    o_function,
    o_func_begin,
    o_auto_dec,
}

/// The operators of bug expressions.
#[derive(Debug, Clone, Copy, PartialEq, Eq, Structural)]
pub enum Op {
    Er,
    OpenParen,
    CloseParen,
    Add,
    Sub,
    Mul,
    Div,
    Call,
    Dot,
    Colon,
    ColonEquals,
    Assign,
}

/// The operators that have a precedence.
pub open spec fn has_prior(o: Op) -> bool {
    !(o == Op::Er || o == Op::CloseParen || o == Op::Call)
}

/// Operator precedence: declarations bind tightest, then field access, then `*` and `/`,
/// then `+` and `-`, then assignment; an open parenthesis is below all of them.
pub open spec fn spec_op_prior(o: Op) -> int {
    match o {
        Op::Mul | Op::Div => 2,
        Op::Sub | Op::Add => 1,
        Op::Assign => 0,
        Op::Dot => 3,
        Op::Colon | Op::ColonEquals => 4,
        _ => -1,
    }
}

/// The precedence of operator `o`.
pub fn op_prior(o: Op) -> (r: i32)
    requires
        has_prior(o),
    ensures
        r == spec_op_prior(o),
{
    if o == Op::Mul {
        2
    } else if o == Op::Div {
        return 2;
    } else if o == Op::Sub {
        return 1;
    } else if o == Op::Add {
        return 1;
    } else if o == Op::Assign {
        return 0;
    } else if o == Op::Dot {
        return 3;
    } else if o == Op::Colon {
        return 4;
    } else if o == Op::ColonEquals {
        return 4;
    } else {
        return -1;
    }
}

/// The net nesting of `open`/`close` tokens in `toks[start..end]`.
pub open spec fn span_depth(
    toks: Seq<Token>,
    start: int,
    end: int,
    open: TokenType,
    close: TokenType,
) -> int
    decreases end - start,
{
    if end <= start {
        0
    } else {
        span_depth(toks, start, end - 1, open, close) + if toks[end - 1].tt == open {
            1int
        } else if toks[end - 1].tt == close {
            -1int
        } else {
            0int
        }
    }
}

/// Position `j` is outside every parenthesis and brace opened since `start`, and holds a
/// token of kind `t`.
pub open spec fn outside_at(toks: Seq<Token>, start: int, j: int, t: TokenType) -> bool {
    &&& start <= j < toks.len()
    &&& span_depth(toks, start, j, TokenType::TokenOpenParen, TokenType::TokenCloseParen) == 0
    &&& span_depth(toks, start, j, TokenType::TokenOpenCurl, TokenType::TokenCloseCurl) == 0
    &&& toks[j].tt == t
}

/// The first position from `start` on that holds a `t` outside nested brackets, or -1.
/// An empty slice panics. A slice of tokens (each several words long) never holds more
/// than `i64::MAX` of them, as no allocation exceeds `isize::MAX` bytes, so positions fit
/// the result.
pub fn get_next_outside_of_expr(tokens: &[Token], start: usize, t: TokenType) -> (r: i64)
    requires
        tokens@.len() > 0,
        tokens@.len() <= i64::MAX,
    ensures
        r == -1 || (start <= r && outside_at(tokens@, start as int, r as int, t)),
        r == -1 ==> forall|j: int| start <= j ==> !outside_at(tokens@, start as int, j, t),
        r != -1 ==> forall|j: int| start <= j < r ==> !outside_at(tokens@, start as int, j, t),
{
    let mut paren_count: i64 = 0;
    let mut curly_count: i64 = 0;
    let mut i = start;
    while i < tokens.len()
        invariant
            tokens@.len() <= i64::MAX,
            start <= i || tokens@.len() <= start,
            i == start || i <= tokens@.len(),
            paren_count == span_depth(
                tokens@,
                start as int,
                i as int,
                TokenType::TokenOpenParen,
                TokenType::TokenCloseParen,
            ),
            curly_count == span_depth(
                tokens@,
                start as int,
                i as int,
                TokenType::TokenOpenCurl,
                TokenType::TokenCloseCurl,
            ),
            -(i - start) <= paren_count <= i - start,
            -(i - start) <= curly_count <= i - start,
            forall|j: int| start <= j < i ==> !outside_at(tokens@, start as int, j, t),
        decreases tokens@.len() - i,
    {
        if paren_count == 0 && curly_count == 0 && tokens[i].tt == t {
            return i as i64;
        }
        if tokens[i].tt == TokenType::TokenOpenParen {
            paren_count += 1;
        } else if tokens[i].tt == TokenType::TokenCloseParen {
            paren_count -= 1;
        }
        if tokens[i].tt == TokenType::TokenOpenCurl {
            curly_count += 1;
        } else if tokens[i].tt == TokenType::TokenCloseCurl {
            curly_count -= 1;
        }
        i += 1;
    }
    -1
}

/// A copy of a token.
pub fn copy_token(t: &Token) -> (r: Token)
    ensures
        tok_view(r) == tok_view(*t),
{
    Token { st: t.st.clone(), file: t.file.clone(), line: t.line, tt: t.tt }
}

/// An operation of the intermediate code: its kind, a string operand, an integer
/// operand, a float operand (as its text), the token it comes from, and the type that a
/// declaration names.
#[derive(Debug)]
pub struct Opr {
    pub t: OpType,
    pub s: String,
    pub v: i64,
    pub f: String,
    pub token: Token,
    pub vt: Type,
}

/// The model of an operation.
pub struct OprV {
    pub t: OpType,
    pub s: Seq<char>,
    pub v: i64,
    pub f: Seq<char>,
    pub token: TokenV,
    pub vt: BTy,
}

pub open spec fn opr_view(o: Opr) -> OprV {
    OprV { t: o.t, s: o.s@, v: o.v, f: o.f@, token: tok_view(o.token), vt: ty_v(o.vt) }
}

pub open spec fn oprs_view(s: Seq<Opr>) -> Seq<OprV> {
    Seq::new(s.len(), |i: int| opr_view(s[i]))
}

/// The token an operation made by an operator carries: empty.
pub open spec fn blank_token() -> TokenV {
    TokenV { st: seq![], file: seq![], line: 0, tt: TokenType::TokenNone }
}

/// A fresh operation: an addition with no operands (integer -1, float "-1").
pub open spec fn blank_opr() -> OprV {
    OprV { t: OpType::o_ad, s: seq![], v: -1i64, f: "-1"@, token: blank_token(), vt: BTy::Void }
}

impl Opr {
    /// A fresh operation (see `blank_opr`).
    pub fn new() -> (r: Self)
        ensures
            opr_view(r) == blank_opr(),
    {
        Opr {
            t: OpType::o_ad,
            s: String::new(),
            v: -1,
            f: String::from_str("-1"),
            token: Token { st: String::new(), file: String::new(), line: 0, tt: TokenType::TokenNone },
            vt: Type::TVoid,
        }
    }
}

/// A parsed expression: its operations in postfix order.
#[derive(Debug)]
pub struct Expr {
    pub ops: Vec<Opr>,
}

/// An operand waiting for its operator.
#[derive(Debug)]
pub struct Var {
    pub t: Token,
    pub sv: i32,
}

/// The state of the expression parser: the operations so far, the pending operators
/// and operands.
#[derive(Debug)]
pub struct Eval {
    pub oprs: Vec<Opr>,
    pub ops: Vec<Op>,
    pub vars: Vec<Var>,
    pub sp: i32,
}

/// The model of the parser's state (each operand by its token).
pub struct EvV {
    pub oprs: Seq<OprV>,
    pub ops: Seq<Op>,
    pub vars: Seq<TokenV>,
}

pub open spec fn ev_view(e: Eval) -> EvV {
    EvV {
        oprs: oprs_view(e.oprs@),
        ops: e.ops@,
        vars: Seq::new(e.vars@.len(), |i: int| tok_view(e.vars@[i].t)),
    }
}

/// The operation for an operand token: an integer (which `i64::from_str` must read),
/// a float (which `f64::from_str` must read; kept as its text), a string or an
/// identifier; `None` for any other token, or a number that does not read.
pub open spec fn operand_opr(t: TokenV) -> Option<OprV> {
    let b = OprV { token: t, ..blank_opr() };
    if t.tt == TokenType::TokenInt {
        match crate::number::i64_text(t.st) {
            Some(v) => Some(OprV { t: OpType::o_num, v, ..b }),
            None => None,
        }
    } else if t.tt == TokenType::TokenFloat {
        if crate::number::float_text(t.st) {
            Some(OprV { t: OpType::o_flt, f: t.st, ..b })
        } else {
            None
        }
    } else if t.tt == TokenType::TokenStr {
        Some(OprV { t: OpType::o_str, s: t.st, ..b })
    } else if t.tt == TokenType::TokenIdent {
        Some(OprV { t: OpType::o_idnt, s: t.st, ..b })
    } else {
        None
    }
}

/// The state after writing an operand's operation.
pub open spec fn write_var_v(e: EvV, t: TokenV) -> Option<EvV> {
    match operand_opr(t) {
        Some(o) => Some(EvV { oprs: e.oprs.push(o), ..e }),
        None => None,
    }
}

/// The operation kind of an operator that has one.
pub open spec fn op_type_of(o: Op) -> Option<OpType> {
    match o {
        Op::Add => Some(OpType::o_ad),
        Op::Sub => Some(OpType::o_sb),
        Op::Div => Some(OpType::o_dv),
        Op::Mul => Some(OpType::o_ml),
        Op::Assign => Some(OpType::o_as),
        Op::Dot => Some(OpType::o_fld),
        Op::Colon => Some(OpType::o_dec),
        Op::ColonEquals => Some(OpType::o_auto_dec),
        _ => None,
    }
}

/// The state after applying an operator: the last operand and then the one before it
/// (where there are any) are written, then the operator's operation.
pub open spec fn eval_op_v(e: EvV, o: Op) -> Option<EvV> {
    let e1: Option<EvV> = if e.vars.len() > 0 {
        write_var_v(EvV { vars: e.vars.drop_last(), ..e }, e.vars.last())
    } else {
        Some(e)
    };
    match e1 {
        None => None,
        Some(e1) => {
            let e2: Option<EvV> = if e1.vars.len() > 0 {
                write_var_v(EvV { vars: e1.vars.drop_last(), ..e1 }, e1.vars.last())
            } else {
                Some(e1)
            };
            match (e2, op_type_of(o)) {
                (Some(e2), Some(t)) => Some(EvV { oprs: e2.oprs.push(OprV { t, ..blank_opr() }), ..e2 }),
                _ => None,
            }
        },
    }
}

/// The net nesting of `open`/`close` tokens in `toks[start..end]` (on models).
pub open spec fn depth_v(toks: Seq<TokenV>, start: int, end: int, open: TokenType, close: TokenType) -> int
    decreases end - start,
{
    if end <= start {
        0
    } else {
        depth_v(toks, start, end - 1, open, close) + if toks[end - 1].tt == open {
            1int
        } else if toks[end - 1].tt == close {
            -1int
        } else {
            0int
        }
    }
}

/// The first position from `j` on that holds a `t` outside the parentheses and braces
/// opened since `start`, or -1.
pub open spec fn next_outside(toks: Seq<TokenV>, start: int, j: int, t: TokenType) -> int
    decreases toks.len() - j,
{
    if j < start || j >= toks.len() {
        -1
    } else if depth_v(toks, start, j, TokenType::TokenOpenParen, TokenType::TokenCloseParen) == 0 && depth_v(
        toks,
        start,
        j,
        TokenType::TokenOpenCurl,
        TokenType::TokenCloseCurl,
    ) == 0 && toks[j].tt == t {
        j
    } else {
        next_outside(toks, start, j + 1, t)
    }
}

pub proof fn lemma_next_outside_range(toks: Seq<TokenV>, start: int, j: int, t: TokenType)
    ensures
        next_outside(toks, start, j, t) == -1 || (j <= next_outside(toks, start, j, t) < toks.len() && start
            <= next_outside(toks, start, j, t)),
    decreases toks.len() - j,
{
    if start <= j < toks.len() {
        lemma_next_outside_range(toks, start, j + 1, t);
    }
}

/// The operator a token stands for, if any.
pub open spec fn op_for(t: TokenV) -> Option<Op> {
    if t.tt == TokenType::TokenDot {
        Some(Op::Dot)
    } else if t.st == "+"@ {
        Some(Op::Add)
    } else if t.st == "-"@ {
        Some(Op::Sub)
    } else if t.st == "*"@ {
        Some(Op::Mul)
    } else if t.st == "/"@ {
        Some(Op::Div)
    } else if t.st == ":"@ {
        Some(Op::Colon)
    } else if t.st == ":="@ {
        Some(Op::ColonEquals)
    } else if t.st == "="@ {
        Some(Op::Assign)
    } else {
        None
    }
}

/// A closing parenthesis: the pending operators down to the matching open one are
/// applied, and that one is dropped; `None` where none is pending.
pub open spec fn close_paren(e: EvV) -> Option<EvV>
    decreases e.ops.len(),
{
    if e.ops.len() == 0 {
        None
    } else if e.ops.last() == Op::OpenParen {
        Some(EvV { ops: e.ops.drop_last(), ..e })
    } else {
        match eval_op_v(EvV { ops: e.ops.drop_last(), ..e }, e.ops.last()) {
            None => None,
            Some(e2) => if e2.ops.len() < e.ops.len() {
                close_paren(e2)
            } else {
                None
            },
        }
    }
}

/// Before pushing operator `o`: the pending operators that bind at least as tightly
/// are applied (an open parenthesis stops it and is dropped when reached).
pub open spec fn reduce(e: EvV, o: Op) -> Option<EvV>
    decreases e.ops.len(),
{
    if e.ops.len() == 0 {
        Some(e)
    } else if !has_prior(e.ops.last()) {
        None
    } else if spec_op_prior(e.ops.last()) < spec_op_prior(o) {
        Some(e)
    } else {
        let t = e.ops.last();
        let e1 = EvV { ops: e.ops.drop_last(), ..e };
        if t == Op::OpenParen {
            Some(e1)
        } else {
            match eval_op_v(e1, t) {
                None => None,
                Some(e2) => if e2.ops.len() < e.ops.len() {
                    reduce(e2, o)
                } else {
                    None
                },
            }
        }
    }
}

/// The precedence: `:` and `:=` bind tightest, then `.`, then `*` and `/` alike, then
/// `+` and `-` alike, then `=`, and an open parenthesis is below all of them.
pub proof fn law_op_precedence()
    ensures
        spec_op_prior(Op::Colon) == spec_op_prior(Op::ColonEquals),
        spec_op_prior(Op::Colon) > spec_op_prior(Op::Dot),
        spec_op_prior(Op::Dot) > spec_op_prior(Op::Mul),
        spec_op_prior(Op::Mul) == spec_op_prior(Op::Div),
        spec_op_prior(Op::Div) > spec_op_prior(Op::Add),
        spec_op_prior(Op::Div) > spec_op_prior(Op::Sub),
        spec_op_prior(Op::Add) == spec_op_prior(Op::Sub),
        spec_op_prior(Op::Sub) > spec_op_prior(Op::Assign),
        spec_op_prior(Op::Assign) > spec_op_prior(Op::OpenParen),
{
}

/// Before an operator is pushed, a pending `+` or `-` stays pending when the new
/// operator is `*`, `/`, `.`, `:` or `:=` (they bind tighter), while a pending `*` or `/`
/// is applied first when the new operator is `+`, `-`, `*`, `/` or `=`.
pub proof fn law_reduce_by_precedence(e: EvV, o: Op)
    requires
        e.ops.len() > 0,
    ensures
        ((e.ops.last() == Op::Add || e.ops.last() == Op::Sub) && (o == Op::Mul || o == Op::Div || o == Op::Dot
            || o == Op::Colon || o == Op::ColonEquals)) ==> reduce(e, o) == Some(e),
        ((e.ops.last() == Op::Mul || e.ops.last() == Op::Div) && (o == Op::Add || o == Op::Sub || o == Op::Mul
            || o == Op::Div || o == Op::Assign)) ==> reduce(e, o) == match eval_op_v(
            EvV { ops: e.ops.drop_last(), ..e },
            e.ops.last(),
        ) {
            None => None,
            Some(e2) => if e2.ops.len() < e.ops.len() {
                reduce(e2, o)
            } else {
                None
            },
        },
{
}

/// The symbols `+`, `-`, `*`, `/`, `=`, `:` and `:=` stand for addition, subtraction,
/// multiplication, division, assignment, declaration and declaration with inferred
/// type, each written with its own operation.
pub proof fn law_operator_symbols(t: TokenV)
    requires
        t.tt != TokenType::TokenDot,
    ensures
        t.st == "+"@ ==> op_for(t) == Some(Op::Add) && op_type_of(Op::Add) == Some(OpType::o_ad),
        t.st == "-"@ ==> op_for(t) == Some(Op::Sub) && op_type_of(Op::Sub) == Some(OpType::o_sb),
        t.st == "*"@ ==> op_for(t) == Some(Op::Mul) && op_type_of(Op::Mul) == Some(OpType::o_ml),
        t.st == "/"@ ==> op_for(t) == Some(Op::Div) && op_type_of(Op::Div) == Some(OpType::o_dv),
        t.st == "="@ ==> op_for(t) == Some(Op::Assign) && op_type_of(Op::Assign) == Some(OpType::o_as),
        t.st == ":"@ ==> op_for(t) == Some(Op::Colon) && op_type_of(Op::Colon) == Some(OpType::o_dec),
        t.st == ":="@ ==> op_for(t) == Some(Op::ColonEquals) && op_type_of(Op::ColonEquals) == Some(
            OpType::o_auto_dec,
        ),
{
    reveal_strlit("+");
    reveal_strlit("-");
    reveal_strlit("*");
    reveal_strlit("/");
    reveal_strlit("=");
    reveal_strlit(":");
    reveal_strlit(":=");
    let syms = seq!["+"@, "-"@, "*"@, "/"@, ":"@, ":="@, "="@];
    assert forall|i: int, j: int| 0 <= i < j < 7 implies syms[i] != syms[j] by {
        if syms[i].len() == syms[j].len() {
            assert(syms[i][0] != syms[j][0] || syms[i][syms[i].len() - 1] != syms[j][syms[j].len() - 1]);
        }
    }
}

/// Applying an operator to two pending operands `x` (read first) and `y` writes the
/// operation of `y`, then that of `x`, then the operator's own operation.
pub proof fn law_apply_operator_order(e: EvV, pre: Seq<TokenV>, x: TokenV, y: TokenV, o: Op)
    requires
        e.vars == pre.push(x).push(y),
        operand_opr(x) is Some,
        operand_opr(y) is Some,
        op_type_of(o) is Some,
    ensures
        eval_op_v(e, o) == Some(
            EvV {
                oprs: e.oprs.push(operand_opr(y)->Some_0).push(operand_opr(x)->Some_0).push(
                    OprV { t: op_type_of(o)->Some_0, ..blank_opr() },
                ),
                vars: pre,
                ops: e.ops,
            },
        ),
{
    assert(e.vars.drop_last() == pre.push(x));
    assert(pre.push(x).drop_last() == pre);
}

/// At the end: the pending operators are applied, parentheses skipped.
pub open spec fn drain(e: EvV) -> Option<EvV>
    decreases e.ops.len(),
{
    if e.ops.len() == 0 {
        Some(e)
    } else {
        let t = e.ops.last();
        let e1 = EvV { ops: e.ops.drop_last(), ..e };
        if t == Op::OpenParen || t == Op::CloseParen {
            drain(e1)
        } else {
            match eval_op_v(e1, t) {
                None => None,
                Some(e2) => if e2.ops.len() < e.ops.len() {
                    drain(e2)
                } else {
                    None
                },
            }
        }
    }
}

/// The outcome of parsing: a panic, an error message, or the operations.
pub enum Parsed {
    Stuck,
    Fail(Seq<char>),
    Done(Seq<OprV>),
}

/// The outcome of parsing a call's arguments: a panic, an error message, or the
/// operations so far, the number of arguments and the position reached.
pub enum Args {
    Stuck,
    Fail(Seq<char>),
    Done(Seq<OprV>, int, int),
}

/// The end of parsing: a lone operand is written, then the pending operators drained.
pub open spec fn parse_end(e: EvV) -> Parsed {
    let e1: Option<EvV> = if e.ops.len() == 0 && e.vars.len() == 1 {
        write_var_v(EvV { vars: seq![], ..e }, e.vars[0])
    } else {
        Some(e)
    };
    match e1 {
        None => Parsed::Stuck,
        Some(e1) => match drain(e1) {
            None => Parsed::Stuck,
            Some(e2) => Parsed::Done(e2.oprs),
        },
    }
}

/// Parsing the tokens of an expression (see `parse_from`).
pub open spec fn parse_tokens(toks: Seq<TokenV>) -> Parsed
    decreases toks.len(), toks.len() + 3,
{
    parse_from(toks, 0, EvV { oprs: seq![], ops: seq![], vars: seq![] }, false)
}

/// The arguments of a call from position `i` up to the closing parenthesis at `end`:
/// each runs to the next comma outside brackets (or to `end`) and is parsed on its own.
pub open spec fn call_args(toks: Seq<TokenV>, i: int, end: int, oprs: Seq<OprV>, count: int) -> Args
    decreases toks.len(), end - i + 1,
{
    if i >= end || end >= toks.len() || i < 1 {
        Args::Done(oprs, count, i)
    } else {
        let e0 = next_outside(toks, i, i, TokenType::TokenComma);
        let e = if e0 == -1 || e0 > end {
            end
        } else {
            e0
        };
        if e < i {
            Args::Stuck
        } else {
            match parse_tokens(toks.subrange(i, e)) {
                Parsed::Stuck => Args::Stuck,
                Parsed::Fail(m) => Args::Fail(m),
                Parsed::Done(ops) => call_args(toks, e + 1, end, oprs + ops, count + 1),
            }
        }
    }
}

/// Parsing from token `i` on with the state `e` (`lw`: the last token ended an
/// operand). Operands wait on a stack; an operand followed by `(` is a call whose
/// arguments are parsed one by one (the operations of the name and of the call take
/// the token where the arguments end); `)` applies the operators down to its `(`;
/// an operator first applies those that bind at least as tightly. Any other token is
/// an error.
pub open spec fn parse_from(toks: Seq<TokenV>, i: int, e: EvV, lw: bool) -> Parsed
    decreases toks.len(), toks.len() - i + 2,
{
    if i < 0 || i >= toks.len() {
        parse_end(e)
    } else {
        let t = toks[i];
        if t.tt == TokenType::TokenInt || t.tt == TokenType::TokenFloat || t.tt == TokenType::TokenStr || t.tt
            == TokenType::TokenIdent {
            parse_from(toks, i + 1, EvV { vars: e.vars.push(t), ..e }, true)
        } else if t.tt == TokenType::TokenOpenParen {
            if lw {
                if e.vars.len() == 0 {
                    Parsed::Stuck
                } else {
                    let v = e.vars.last();
                    let end = next_outside(toks, i + 1, i + 1, TokenType::TokenCloseParen);
                    if end == -1 {
                        Parsed::Fail("expected close paren"@)
                    } else {
                        proof {
                            lemma_next_outside_range(toks, i + 1, i + 1, TokenType::TokenCloseParen);
                        }
                        match call_args(toks, i + 1, end, e.oprs, 0) {
                            Args::Stuck => Parsed::Stuck,
                            Args::Fail(m) => Parsed::Fail(m),
                            Args::Done(oprs, count, j) => {
                                let j2 = if count > 0 {
                                    j - 1
                                } else {
                                    j
                                };
                                if j2 <= i || j2 >= toks.len() {
                                    Parsed::Stuck
                                } else {
                                    let tok = toks[j2];
                                    let name = OprV { t: OpType::o_idnt, s: v.st, v: 0, f: "0"@, token: tok, vt: BTy::Void };
                                    let call = OprV { t: OpType::o_call, s: seq![], v: #[verifier::truncate] (count as i64), f: "-1"@, token: tok, vt: BTy::Void };
                                    parse_from(
                                        toks,
                                        j2 + 1,
                                        EvV { oprs: oprs.push(name).push(call), vars: e.vars.drop_last(), ..e },
                                        true,
                                    )
                                }
                            },
                        }
                    }
                }
            } else {
                parse_from(toks, i + 1, EvV { ops: e.ops.push(Op::OpenParen), ..e }, false)
            }
        } else if t.tt == TokenType::TokenCloseParen {
            match close_paren(e) {
                None => Parsed::Stuck,
                Some(e2) => parse_from(toks, i + 1, e2, true),
            }
        } else if t.tt == TokenType::TokenDot || t.tt == TokenType::TokenOperator || t.tt == TokenType::TokenColon {
            match op_for(t) {
                None => Parsed::Fail("invalid expression"@),
                Some(o) => match reduce(e, o) {
                    None => Parsed::Stuck,
                    Some(e2) => parse_from(toks, i + 1, EvV { ops: e2.ops.push(o), ..e2 }, false),
                },
            }
        } else {
            Parsed::Fail("unsupported_token"@)
        }
    }
}

/// Writes the operation of an operand (see `write_var_v`).
pub fn write_var(ev: &mut Eval, v: Var)
    requires
        operand_opr(tok_view(v.t)) is Some,
    ensures
        ev_view(*final(ev)) == write_var_v(ev_view(*old(ev)), tok_view(v.t))->Some_0,
{
    let mut o = Opr::new();
    let tt = v.t.tt;
    let ghost tv = tok_view(v.t);
    if tt == TokenType::TokenInt {
        o.t = OpType::o_num;
        o.v = match crate::number::parse_i64(v.t.st.as_str()) {
            Some(x) => x,
            None => 0,
        };
    } else if tt == TokenType::TokenFloat {
        o.t = OpType::o_flt;
        o.f = v.t.st.clone();
    } else if tt == TokenType::TokenStr {
        o.t = OpType::o_str;
        o.s = v.t.st.clone();
    } else {
        o.t = OpType::o_idnt;
        o.s = v.t.st.clone();
    }
    o.token = v.t;
    let ghost ov = opr_view(o);
    assert(ov == operand_opr(tv)->Some_0);
    let ghost before = ev.oprs@;
    ev.oprs.push(o);
    assert(oprs_view(ev.oprs@) =~= oprs_view(before).push(ov));
    assert(ev_view(*ev).vars =~= ev_view(*old(ev)).vars);
}

/// Pops the last operand.
fn pop_var(ev: &mut Eval) -> (v: Var)
    requires
        old(ev).vars@.len() > 0,
    ensures
        tok_view(v.t) == ev_view(*old(ev)).vars.last(),
        ev_view(*final(ev)) == (EvV { vars: ev_view(*old(ev)).vars.drop_last(), ..ev_view(*old(ev)) }),
{
    let ghost n = ev.vars@.len();
    let v = match ev.vars.pop() {
        Some(v) => v,
        None => Var { t: Token { st: String::new(), file: String::new(), line: 0, tt: TokenType::TokenNone }, sv: -1 },
    };
    assert(ev_view(*ev).vars =~= ev_view(*old(ev)).vars.drop_last());
    v
}

/// Applies an operator (see `eval_op_v`).
pub fn eval_op(o: Op, ev: &mut Eval)
    requires
        eval_op_v(ev_view(*old(ev)), o) is Some,
    ensures
        ev_view(*final(ev)) == eval_op_v(ev_view(*old(ev)), o)->Some_0,
{
    if ev.vars.len() > 0 {
        let v0 = pop_var(ev);
        write_var(ev, v0);
    }
    if ev.vars.len() > 0 {
        let v1 = pop_var(ev);
        write_var(ev, v1);
    }
    let mut op = Opr::new();
    op.t = match o {
        Op::Add => OpType::o_ad,
        Op::Sub => OpType::o_sb,
        Op::Div => OpType::o_dv,
        Op::Mul => OpType::o_ml,
        Op::Assign => OpType::o_as,
        Op::Dot => OpType::o_fld,
        Op::Colon => OpType::o_dec,
        _ => OpType::o_auto_dec,
    };
    let ghost ov = opr_view(op);
    let ghost before = *ev;
    ev.oprs.push(op);
    assert(oprs_view(ev.oprs@) =~= oprs_view(before.oprs@).push(ov));
    assert(ev_view(*ev).vars =~= ev_view(before).vars);
}

/// Applies the pending operators down to the matching open parenthesis, which is
/// dropped (see `close_paren`).
fn close_paren_exec(ev: &mut Eval)
    requires
        close_paren(ev_view(*old(ev))) is Some,
    ensures
        ev_view(*final(ev)) == close_paren(ev_view(*old(ev)))->Some_0,
{
    loop
        invariant
            close_paren(ev_view(*old(ev))) == close_paren(ev_view(*ev)),
            close_paren(ev_view(*ev)) is Some,
        decreases ev.ops@.len(),
    {
        let n = ev.ops.len();
        let top = ev.ops[n - 1];
        let ghost e0 = ev_view(*ev);
        let _ = ev.ops.pop();
        assert(ev_view(*ev) == (EvV { ops: e0.ops.drop_last(), ..e0 }));
        if top == Op::OpenParen {
            return;
        }
        eval_op(top, ev);
    }
}

/// Applies the pending operators that bind at least as tightly as `o` (see `reduce`).
fn reduce_exec(ev: &mut Eval, o: Op)
    requires
        reduce(ev_view(*old(ev)), o) is Some,
        has_prior(o),
    ensures
        ev_view(*final(ev)) == reduce(ev_view(*old(ev)), o)->Some_0,
{
    while ev.ops.len() > 0
        invariant
            reduce(ev_view(*old(ev)), o) == reduce(ev_view(*ev), o),
            reduce(ev_view(*ev), o) is Some,
            has_prior(o),
        decreases ev.ops@.len(),
    {
        let n = ev.ops.len();
        let top = ev.ops[n - 1];
        if op_prior(top) < op_prior(o) {
            return;
        }
        let ghost e0 = ev_view(*ev);
        let _ = ev.ops.pop();
        assert(ev_view(*ev) == (EvV { ops: e0.ops.drop_last(), ..e0 }));
        if top == Op::OpenParen {
            return;
        }
        eval_op(top, ev);
    }
}

/// Applies the pending operators, skipping parentheses (see `drain`).
fn drain_exec(ev: &mut Eval)
    requires
        drain(ev_view(*old(ev))) is Some,
    ensures
        ev_view(*final(ev)) == drain(ev_view(*old(ev)))->Some_0,
{
    while ev.ops.len() > 0
        invariant
            drain(ev_view(*old(ev))) == drain(ev_view(*ev)),
            drain(ev_view(*ev)) is Some,
        decreases ev.ops@.len(),
    {
        let n = ev.ops.len();
        let top = ev.ops[n - 1];
        let ghost e0 = ev_view(*ev);
        let _ = ev.ops.pop();
        assert(ev_view(*ev) == (EvV { ops: e0.ops.drop_last(), ..e0 }));
        if top == Op::OpenParen || top == Op::CloseParen {
            continue;
        }
        eval_op(top, ev);
    }
}

/// The operator a token stands for (see `op_for`).
fn op_for_exec(t: &Token) -> (r: Option<Op>)
    ensures
        r == op_for(tok_view(*t)),
{
    if t.tt == TokenType::TokenDot {
        Some(Op::Dot)
    } else if t.equals("+") {
        Some(Op::Add)
    } else if t.equals("-") {
        Some(Op::Sub)
    } else if t.equals("*") {
        Some(Op::Mul)
    } else if t.equals("/") {
        Some(Op::Div)
    } else if t.equals(":") {
        Some(Op::Colon)
    } else if t.equals(":=") {
        Some(Op::ColonEquals)
    } else if t.equals("=") {
        Some(Op::Assign)
    } else {
        None
    }
}

proof fn lemma_depth_view(toks: Seq<Token>, start: int, end: int, open: TokenType, close: TokenType)
    requires
        0 <= start,
        end <= toks.len(),
    ensures
        span_depth(toks, start, end, open, close) == depth_v(toks_v(toks), start, end, open, close),
    decreases end - start,
{
    if end > start {
        lemma_depth_view(toks, start, end - 1, open, close);
        if 0 <= end - 1 < toks.len() {
            assert(toks_v(toks)[end - 1].tt == toks[end - 1].tt);
        }
    }
}

proof fn lemma_next_outside_exec(toks: Seq<Token>, start: int, j: int, r: int, t: TokenType)
    requires
        0 <= start <= j,
        r == -1 || (j <= r && outside_at(toks, start, r, t)),
        r == -1 ==> forall|k: int| j <= k ==> !outside_at(toks, start, k, t),
        r != -1 ==> forall|k: int| j <= k < r ==> !outside_at(toks, start, k, t),
    ensures
        next_outside(toks_v(toks), start, j, t) == r,
    decreases toks.len() - j,
{
    let tv = toks_v(toks);
    if j < toks.len() {
        lemma_depth_view(toks, start, j, TokenType::TokenOpenParen, TokenType::TokenCloseParen);
        lemma_depth_view(toks, start, j, TokenType::TokenOpenCurl, TokenType::TokenCloseCurl);
        assert(tv[j].tt == toks[j].tt);
        if r == j {
        } else {
            assert(!outside_at(toks, start, j, t));
            lemma_next_outside_exec(toks, start, j + 1, r, t);
        }
    }
}

/// The tokens of `tokens[i..e]`.
fn copy_range(tokens: &[Token], i: usize, e: usize) -> (r: Vec<Token>)
    requires
        i <= e <= tokens@.len(),
    ensures
        toks_v(r@) == toks_v(tokens@).subrange(i as int, e as int),
{
    let mut out: Vec<Token> = Vec::new();
    let mut k: usize = i;
    while k < e
        invariant
            i <= k <= e,
            e <= tokens@.len(),
            toks_v(out@) == toks_v(tokens@).subrange(i as int, k as int),
        decreases e - k,
    {
        let ghost before = out@;
        let c = copy_token(&tokens[k]);
        assert(toks_v(tokens@)[k as int] == tok_view(tokens@[k as int]));
        out.push(c);
        assert(toks_v(out@) =~= toks_v(before).push(tok_view(c)));
        k += 1;
        assert(toks_v(out@) =~= toks_v(tokens@).subrange(i as int, k as int));
    }
    out
}

proof fn lemma_oprs_view_add(a: Seq<Opr>, b: Seq<Opr>)
    ensures
        oprs_view(a + b) == oprs_view(a) + oprs_view(b),
{
    assert(oprs_view(a + b) =~= oprs_view(a) + oprs_view(b));
}

/// Parses the tokens of an expression into its operations in postfix order (see
/// `parse_tokens`): `expected close paren`, `invalid expression` and
/// `unsupported_token` are its errors.
pub fn parse_expression(tokens: &[Token]) -> (r: Result<Expr, String>)
    requires
        tokens@.len() <= i64::MAX,
        !(parse_tokens(toks_v(tokens@)) is Stuck),
    ensures
        match parse_tokens(toks_v(tokens@)) {
            Parsed::Fail(m) => r matches Err(x) && x@ == m,
            Parsed::Done(ops) => r matches Ok(x) && oprs_view(x.ops@) == ops,
            Parsed::Stuck => false,
        },
    decreases tokens@.len(),
{
    let ghost tv = toks_v(tokens@);
    let mut ev = Eval { ops: Vec::new(), oprs: Vec::new(), vars: Vec::new(), sp: 0 };
    assert(ev_view(ev).oprs =~= seq![]);
    assert(ev_view(ev).vars =~= seq![]);
    let mut i: usize = 0;
    let mut last_was_v = false;
    while i < tokens.len()
        invariant
            tv == toks_v(tokens@),
            tokens@.len() <= i64::MAX,
            i <= tokens@.len(),
            parse_tokens(tv) == parse_from(tv, i as int, ev_view(ev), last_was_v),
            !(parse_tokens(tv) is Stuck),
        decreases tokens@.len() - i,
    {
        let tt = tokens[i].tt;
        assert(tv[i as int] == tok_view(tokens@[i as int]));
        if tt == TokenType::TokenInt || tt == TokenType::TokenFloat || tt == TokenType::TokenStr || tt
            == TokenType::TokenIdent {
            let ghost e0 = ev_view(ev);
            ev.vars.push(Var { t: copy_token(&tokens[i]), sv: -1 });
            assert(ev_view(ev).vars =~= e0.vars.push(tv[i as int]));
            last_was_v = true;
        } else if tt == TokenType::TokenOpenParen {
            if last_was_v {
                let ghost e0 = ev_view(ev);
                let v = pop_var(&mut ev);
                let end_i = get_next_outside_of_expr(tokens, i + 1, TokenType::TokenCloseParen);
                proof {
                    lemma_next_outside_exec(tokens@, i + 1, i + 1, end_i as int, TokenType::TokenCloseParen);
                    lemma_next_outside_range(tv, i + 1, i + 1, TokenType::TokenCloseParen);
                }
                if end_i == -1 {
                    return Err(String::from_str("expected close paren"));
                }
                let end = end_i as usize;
                let ghost o0 = e0.oprs;
                let mut j: usize = i + 1;
                let mut arg_count: i64 = 0;
                let tl = tokens.len();
                assert(call_args(tv, i + 1, end as int, o0, 0) is Fail ==> parse_tokens(tv) == Parsed::Fail(
                    call_args(tv, i + 1, end as int, o0, 0)->Fail_0,
                ));
                while j < end
                    invariant
                        tl == tokens@.len(),
                        tv == toks_v(tokens@),
                        tokens@.len() <= i64::MAX,
                        i + 1 <= j,
                        end < tokens@.len(),
                        0 <= arg_count <= j - (i + 1),
                        call_args(tv, i + 1, end as int, o0, 0) == call_args(tv, j as int, end as int, oprs_view(ev.oprs@), arg_count as int),
                        !(call_args(tv, i + 1, end as int, o0, 0) is Stuck),
                        ev_view(ev).ops == e0.ops,
                        ev_view(ev).vars == e0.vars.drop_last(),
                        j <= tl,
                        call_args(tv, i + 1, end as int, o0, 0) is Fail ==> parse_tokens(tv) == Parsed::Fail(
                            call_args(tv, i + 1, end as int, o0, 0)->Fail_0,
                        ),
                    decreases tl - j,
                {
                    let e_i = get_next_outside_of_expr(tokens, j, TokenType::TokenComma);
                    proof {
                        lemma_next_outside_exec(tokens@, j as int, j as int, e_i as int, TokenType::TokenComma);
                        lemma_next_outside_range(tv, j as int, j as int, TokenType::TokenComma);
                    }
                    assert(e_i == -1 || (j <= e_i < tl));
                    let e: usize = if e_i < 0 {
                        end
                    } else {
                        let eu = e_i as usize;
                        assert(eu == e_i);
                        if eu > end {
                            end
                        } else {
                            eu
                        }
                    };
                    let sub = copy_range(tokens, j, e);
                    assert(toks_v(sub@).len() == sub@.len());
                    assert(sub@.len() == e - j);
                    match parse_expression(sub.as_slice()) {
                        Ok(ep) => {
                            let mut ops = ep.ops;
                            let ghost before = ev.oprs@;
                            let ghost added = ops@;
                            ev.oprs.append(&mut ops);
                            proof {
                                lemma_oprs_view_add(before, added);
                            }
                            assert(ev_view(ev).vars =~= e0.vars.drop_last());
                        },
                        Err(m) => {
                            return Err(m);
                        },
                    }
                    arg_count += 1;
                    j = e + 1;
                }
                let j2 = if arg_count > 0 {
                    j - 1
                } else {
                    j
                };
                let ghost before = ev.oprs@;
                let name = Opr { t: OpType::o_idnt, s: v.t.st.clone(), v: 0, f: String::from_str("0"), token: copy_token(&tokens[j2]), vt: Type::TVoid };
                let call = Opr { t: OpType::o_call, s: String::new(), v: arg_count, f: String::from_str("-1"), token: copy_token(&tokens[j2]), vt: Type::TVoid };
                assert(tv[j2 as int] == tok_view(tokens@[j2 as int]));
                let ghost nv = opr_view(name);
                let ghost cv = opr_view(call);
                ev.oprs.push(name);
                ev.oprs.push(call);
                assert(oprs_view(ev.oprs@) =~= oprs_view(before).push(nv).push(cv));
                assert(ev_view(ev).vars =~= e0.vars.drop_last());
                last_was_v = true;
                i = j2;
            } else {
                let ghost e0 = ev_view(ev);
                ev.ops.push(Op::OpenParen);
                assert(ev_view(ev).vars =~= e0.vars);
                last_was_v = false;
            }
        } else if tt == TokenType::TokenCloseParen {
            close_paren_exec(&mut ev);
            last_was_v = true;
        } else if tt == TokenType::TokenDot || tt == TokenType::TokenOperator || tt == TokenType::TokenColon {
            match op_for_exec(&tokens[i]) {
                None => {
                    return Err(String::from_str("invalid expression"));
                },
                Some(o) => {
                    reduce_exec(&mut ev, o);
                    let ghost e0 = ev_view(ev);
                    ev.ops.push(o);
                    assert(ev_view(ev).vars =~= e0.vars);
                    last_was_v = false;
                },
            }
        } else {
            return Err(String::from_str("unsupported_token"));
        }
        i += 1;
    }
    if ev.ops.len() == 0 && ev.vars.len() == 1 {
        let ghost e0 = ev_view(ev);
        let l = pop_var(&mut ev);
        assert(ev_view(ev).vars =~= seq![]);
        write_var(&mut ev, l);
    }
    drain_exec(&mut ev);
    Ok(Expr { ops: ev.oprs })
}

} // verus!
