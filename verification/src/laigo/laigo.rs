//! The laigo assembly language: its tokens, operands and instructions, and the reading of
//! source lines into instructions.
use crate::number::{float_text, i64_text, int_error_text, parse_i64, parse_unsigned, unsigned_text, is_float_text, IntError};
use crate::table::{NumTable, Table};
use crate::text::{decimal, from_chars, push_decimal, push_str, str_equal, to_chars};
use vstd::prelude::*;

verus! {

/// The binary operations; `Unknown` marks an operator word that names none.
#[derive(Clone, Copy, Debug, PartialEq, Eq, Structural)]
pub enum BinopType {
    Unknown,
    Add,
    Sub,
    Mul,
    Div,
    Equal,
    Greater,
    Less,
    And,
    Or,
    Xor,
}

/// The registers: integer argument registers, general registers, floating-point
/// registers and the two result registers.
#[derive(Clone, Copy, Debug, PartialEq, Eq, Structural)]
pub enum Register {
    I0,
    I1,
    I2,
    I3,
    I4,
    I5,
    I6,
    I7,
    R0,
    R1,
    R2,
    R3,
    R4,
    R5,
    R6,
    R7,
    F0,
    F1,
    F2,
    F3,
    F4,
    F5,
    F6,
    F7,
    Out0,
    Out1,
}

/// An operand.  A floating-point literal is kept as the text it was written with, text
/// that `f64::from_str` accepts.
#[derive(Debug)]
pub enum LaigoOp {
    Deref { to_deref: Box<LaigoOp> },
    Register { idx: Register },
    TakeRef { to_take_ref: Box<LaigoOp> },
    StackOperand { word_offset: u64 },
    Index { base: Box<LaigoOp>, amount: Box<LaigoOp>, scale: u8 },
    Ptr { v: u64 },
    Integer { v: i64 },
    Double { v: String },
    Symbol { v: String },
}

/// The view of an operand.
pub enum OpV {
    Deref { to_deref: Box<OpV> },
    Register { idx: Register },
    TakeRef { to_take_ref: Box<OpV> },
    StackOperand { word_offset: u64 },
    Index { base: Box<OpV>, amount: Box<OpV>, scale: u8 },
    Ptr { v: u64 },
    Integer { v: i64 },
    Double { v: Seq<char> },
    Symbol { v: Seq<char> },
}

/// The view of an operand.
pub open spec fn op_view(o: LaigoOp) -> OpV
    decreases o,
{
    match o {
        LaigoOp::Deref { to_deref } => OpV::Deref { to_deref: Box::new(op_view(*to_deref)) },
        LaigoOp::Register { idx } => OpV::Register { idx },
        LaigoOp::TakeRef { to_take_ref } => OpV::TakeRef {
            to_take_ref: Box::new(op_view(*to_take_ref)),
        },
        LaigoOp::StackOperand { word_offset } => OpV::StackOperand { word_offset },
        LaigoOp::Index { base, amount, scale } => OpV::Index {
            base: Box::new(op_view(*base)),
            amount: Box::new(op_view(*amount)),
            scale,
        },
        LaigoOp::Ptr { v } => OpV::Ptr { v },
        LaigoOp::Integer { v } => OpV::Integer { v },
        LaigoOp::Double { v } => OpV::Double { v: v@ },
        LaigoOp::Symbol { v } => OpV::Symbol { v: v@ },
    }
}

impl View for LaigoOp {
    type V = OpV;

    open spec fn view(&self) -> OpV {
        op_view(*self)
    }
}

fn copy_op(o: &LaigoOp) -> (r: LaigoOp)
    ensures
        r@ == o@,
    decreases o,
{
    match o {
        LaigoOp::Deref { to_deref } => LaigoOp::Deref { to_deref: Box::new(copy_op(to_deref)) },
        LaigoOp::Register { idx } => LaigoOp::Register { idx: *idx },
        LaigoOp::TakeRef { to_take_ref } => LaigoOp::TakeRef {
            to_take_ref: Box::new(copy_op(to_take_ref)),
        },
        LaigoOp::StackOperand { word_offset } => LaigoOp::StackOperand {
            word_offset: *word_offset,
        },
        LaigoOp::Index { base, amount, scale } => LaigoOp::Index {
            base: Box::new(copy_op(base)),
            amount: Box::new(copy_op(amount)),
            scale: *scale,
        },
        LaigoOp::Ptr { v } => LaigoOp::Ptr { v: *v },
        LaigoOp::Integer { v } => LaigoOp::Integer { v: *v },
        LaigoOp::Double { v } => LaigoOp::Double { v: v.clone() },
        LaigoOp::Symbol { v } => LaigoOp::Symbol { v: v.clone() },
    }
}

impl Clone for LaigoOp {
    fn clone(&self) -> (r: Self)
        ensures
            r@ == self@,
    {
        copy_op(self)
    }
}

/// One instruction.
#[derive(Debug)]
pub enum LaigoIns {
    Declare { count: usize },
    Binop { output: LaigoOp, left: LaigoOp, right: LaigoOp, binop_type: BinopType },
    Not { left: LaigoOp, right: LaigoOp },
    Assign { left: LaigoOp, right: LaigoOp },
    Jmp { target: LaigoOp },
    If { condition: LaigoOp, left: LaigoOp, right: LaigoOp },
    Call { to_call: LaigoOp },
    Syscall { call: u64 },
    Ret,
    Noop,
    FnBegin,
    FnEnd,
}

/// The view of an instruction.
pub enum InsV {
    Declare { count: usize },
    Binop { output: OpV, left: OpV, right: OpV, binop_type: BinopType },
    Not { left: OpV, right: OpV },
    Assign { left: OpV, right: OpV },
    Jmp { target: OpV },
    If { condition: OpV, left: OpV, right: OpV },
    Call { to_call: OpV },
    Syscall { call: u64 },
    Ret,
    Noop,
    FnBegin,
    FnEnd,
}

impl View for LaigoIns {
    type V = InsV;

    open spec fn view(&self) -> InsV {
        match self {
            LaigoIns::Declare { count } => InsV::Declare { count: *count },
            LaigoIns::Binop { output, left, right, binop_type } => InsV::Binop {
                output: output@,
                left: left@,
                right: right@,
                binop_type: *binop_type,
            },
            LaigoIns::Not { left, right } => InsV::Not { left: left@, right: right@ },
            LaigoIns::Assign { left, right } => InsV::Assign { left: left@, right: right@ },
            LaigoIns::Jmp { target } => InsV::Jmp { target: target@ },
            LaigoIns::If { condition, left, right } => InsV::If {
                condition: condition@,
                left: left@,
                right: right@,
            },
            LaigoIns::Call { to_call } => InsV::Call { to_call: to_call@ },
            LaigoIns::Syscall { call } => InsV::Syscall { call: *call },
            LaigoIns::Ret => InsV::Ret,
            LaigoIns::Noop => InsV::Noop,
            LaigoIns::FnBegin => InsV::FnBegin,
            LaigoIns::FnEnd => InsV::FnEnd,
        }
    }
}

/// The views of a list of instructions.
pub open spec fn ins_view(v: Seq<LaigoIns>) -> Seq<InsV> {
    v.map_values(|i: LaigoIns| i@)
}

/// A value of the data table.  A floating-point value is kept as the bits of its `f64`.
#[derive(Debug)]
pub enum LaigoValue {
    String { v: String },
    Bytes { v: Vec<u8> },
    Integer { v: i64 },
    Float { bits: u64 },
    Unsigned { u: u64 },
}

/// A token and the line it is on.
#[derive(Debug)]
pub struct TokenOwned {
    s: String,
    line: usize,
}

/// The view of a token.
pub struct TokV {
    pub s: Seq<char>,
    pub line: usize,
}

impl View for TokenOwned {
    type V = TokV;

    closed spec fn view(&self) -> TokV {
        TokV { s: self.s@, line: self.line }
    }
}

impl TokenOwned {
    /// The token's text.
    pub fn text(&self) -> (r: &str)
        ensures
            r@ == self@.s,
    {
        self.s.as_str()
    }

    /// The line the token is on.
    pub fn line(&self) -> (r: usize)
        ensures
            r == self@.line,
    {
        self.line
    }
}

/// The views of a line of tokens.
pub open spec fn toks_view(v: Seq<TokenOwned>) -> Seq<TokV> {
    v.map_values(|t: TokenOwned| t@)
}

/// The views of the lines of tokens.
pub open spec fn lines_view(v: Seq<Vec<TokenOwned>>) -> Seq<Seq<TokV>> {
    v.map_values(|l: Vec<TokenOwned>| toks_view(l@))
}

/// The characters that are tokens of their own outside string literals.
pub open spec fn is_delim(c: char) -> bool {
    c == '+' || c == '-' || c == '*' || c == '/' || c == ',' || c == '=' || c == '&' || c == '|'
        || c == '^' || c == '<' || c == '>'
}

/// The state of the tokenizer: finished lines, the tokens of the current line, the text
/// of the current token, the line number, and whether a string literal and a backslash
/// in it are open.
pub struct TokState {
    pub out: Seq<Seq<TokV>>,
    pub tmp: Seq<TokV>,
    pub st: Seq<char>,
    pub lc: nat,
    pub in_string: bool,
    pub slash: bool,
}

/// The current token ends (it may be empty; empty tokens are dropped at the end).
pub open spec fn tok_emit(t: TokState) -> TokState {
    TokState { tmp: t.tmp.push(TokV { s: t.st, line: t.lc as usize }), st: seq![], ..t }
}

/// The tokenizer reads one character.  Inside a string literal a backslash escapes: `\\`
/// is a backslash, `\n` is kept as the two characters, an escaped newline is skipped and
/// any other escaped character is dropped; a newline inside a literal counts a line.
/// Outside, spaces and tabs end a token, a newline ends the line, `"` starts a literal and
/// each delimiter is a token of its own.
pub open spec fn tok_step(t: TokState, c: char) -> TokState {
    if t.in_string {
        if c == '\\' {
            if t.slash {
                TokState { st: t.st.push('\\'), slash: false, ..t }
            } else {
                TokState { slash: true, ..t }
            }
        } else if t.slash {
            if c == '\n' {
                t
            } else if c == 'n' {
                TokState { st: t.st + seq!['\\', 'n'], slash: false, ..t }
            } else {
                TokState { slash: false, ..t }
            }
        } else if c == '\n' {
            TokState { lc: t.lc + 1, st: t.st.push(c), slash: false, ..t }
        } else if c == '"' {
            TokState {
                in_string: false,
                slash: false,
                ..tok_emit(TokState { st: t.st.push(c), ..t })
            }
        } else {
            TokState { st: t.st.push(c), slash: false, ..t }
        }
    } else if c == ' ' || c == '\t' {
        tok_emit(t)
    } else if c == '\n' {
        let e = tok_emit(t);
        TokState { out: e.out.push(e.tmp), tmp: seq![], lc: t.lc + 1, ..e }
    } else if c == '"' {
        TokState { st: seq!['"'], in_string: true, ..tok_emit(t) }
    } else if is_delim(c) {
        tok_emit(TokState { st: seq![c], ..tok_emit(t) })
    } else {
        TokState { st: t.st.push(c), ..t }
    }
}

/// The tokenizer's state after reading `s`.
pub open spec fn tok_state(s: Seq<char>) -> TokState
    decreases s.len(),
{
    if s.len() == 0 {
        TokState { out: seq![], tmp: seq![], st: seq![], lc: 1, in_string: false, slash: false }
    } else {
        tok_step(tok_state(s.drop_last()), s.last())
    }
}

/// The lines without their empty tokens, and without lines left empty.
pub open spec fn clean_lines(out: Seq<Seq<TokV>>) -> Seq<Seq<TokV>> {
    out.map_values(|l: Seq<TokV>| l.filter(|t: TokV| t.s.len() > 0)).filter(
        |l: Seq<TokV>| l.len() > 0,
    )
}

/// The tokens of a laigo source, line by line: the last token and line are closed, then
/// empty tokens and empty lines are dropped.
pub open spec fn laigo_tokens(s: Seq<char>) -> Seq<Seq<TokV>> {
    let t = tok_state(s);
    let t1 = if t.st.len() > 0 {
        tok_emit(t)
    } else {
        t
    };
    clean_lines(
        if t1.tmp.len() > 0 {
            t1.out.push(t1.tmp)
        } else {
            t1.out
        },
    )
}

proof fn lemma_tok_lc(s: Seq<char>)
    ensures
        1 <= tok_state(s).lc <= s.len() + 1,
    decreases s.len(),
{
    if s.len() > 0 {
        lemma_tok_lc(s.drop_last());
    }
}

proof fn lemma_toks_push(v: Seq<TokenOwned>, x: TokenOwned)
    ensures
        toks_view(v.push(x)) == toks_view(v).push(x@),
{
    assert(toks_view(v.push(x)) =~= toks_view(v).push(x@));
}

proof fn lemma_lines_push(v: Seq<Vec<TokenOwned>>, x: Vec<TokenOwned>)
    ensures
        lines_view(v.push(x)) == lines_view(v).push(toks_view(x@)),
{
    assert(lines_view(v.push(x)) =~= lines_view(v).push(toks_view(x@)));
}

/// Ends the current token (see `tok_emit`).
fn emit(tmp: &mut Vec<TokenOwned>, st: &mut Vec<char>, lc: usize)
    ensures
        toks_view(final(tmp)@) == toks_view(old(tmp)@).push(TokV { s: old(st)@, line: lc }),
        final(st)@ == Seq::<char>::empty(),
{
    let ghost before = tmp@;
    tmp.push(TokenOwned { s: from_chars(st.as_slice()), line: lc });
    proof {
        lemma_toks_push(before, tmp@.last());
    }
    *st = Vec::new();
}

/// Drops the empty tokens of each line and the lines left empty (see `clean_lines`).
fn clean(out: Vec<Vec<TokenOwned>>) -> (r: Vec<Vec<TokenOwned>>)
    ensures
        lines_view(r@) == clean_lines(lines_view(out@)),
{
    let ghost lv = lines_view(out@);
    let ghost f = |t: TokV| t.s.len() > 0;
    let ghost g = |l: Seq<TokV>| l.len() > 0;
    let ghost mapped = lv.map_values(|l: Seq<TokV>| l.filter(|t: TokV| t.s.len() > 0));
    let mut res: Vec<Vec<TokenOwned>> = Vec::new();
    let mut i: usize = 0;
    while i < out.len()
        invariant
            i <= out@.len(),
            lv == lines_view(out@),
            mapped == lv.map_values(|l: Seq<TokV>| l.filter(|t: TokV| t.s.len() > 0)),
            lines_view(res@) == mapped.take(i as int).filter(|l: Seq<TokV>| l.len() > 0),
        decreases out@.len() - i,
    {
        let line = &out[i];
        let ghost lt = toks_view(line@);
        assert(lt == lv[i as int]);
        let mut kept: Vec<TokenOwned> = Vec::new();
        let mut j: usize = 0;
        while j < line.len()
            invariant
                j <= line@.len(),
                lt == toks_view(line@),
                toks_view(kept@) == lt.take(j as int).filter(|t: TokV| t.s.len() > 0),
            decreases line@.len() - j,
        {
            let tok = &line[j];
            assert(tok@ == lt[j as int]);
            assert(lt.take(j + 1) =~= lt.take(j as int).push(lt[j as int]));
            proof {
                lt.take(j as int).lemma_filter_push(lt[j as int], |t: TokV| t.s.len() > 0);
            }
            if tok.s.as_str().unicode_len() > 0 {
                let ghost before = kept@;
                kept.push(TokenOwned { s: tok.s.clone(), line: tok.line });
                proof {
                    lemma_toks_push(before, kept@.last());
                }
            }
            j += 1;
        }
        assert(lt.take(j as int) =~= lt);
        assert(mapped.take(i + 1) =~= mapped.take(i as int).push(mapped[i as int]));
        proof {
            mapped.take(i as int).lemma_filter_push(mapped[i as int], |l: Seq<TokV>| l.len() > 0);
        }
        if kept.len() > 0 {
            let ghost before = res@;
            res.push(kept);
            proof {
                lemma_lines_push(before, res@.last());
            }
        }
        i += 1;
    }
    assert(mapped.take(i as int) =~= mapped);
    res
}

/// Splits a laigo source into its lines of tokens (see `laigo_tokens`).
pub fn tokenize(s: &str) -> (r: Vec<Vec<TokenOwned>>)
    requires
        s@.len() < usize::MAX,
    ensures
        lines_view(r@) == laigo_tokens(s@),
{
    let v = to_chars(s);
    let mut out: Vec<Vec<TokenOwned>> = Vec::new();
    let mut tmp: Vec<TokenOwned> = Vec::new();
    let mut st: Vec<char> = Vec::new();
    let mut lc: usize = 1;
    let mut in_string = false;
    let mut last_was_slash = false;
    let mut i: usize = 0;
    while i < v.len()
        invariant
            v@ == s@,
            s@.len() < usize::MAX,
            i <= v@.len(),
            ({
                let t = tok_state(s@.take(i as int));
                &&& lines_view(out@) == t.out
                &&& toks_view(tmp@) == t.tmp
                &&& st@ == t.st
                &&& lc == t.lc
                &&& in_string == t.in_string
                &&& last_was_slash == t.slash
            }),
        decreases v@.len() - i,
    {
        let c = v[i];
        let ghost pre = s@.take(i + 1);
        assert(pre.drop_last() =~= s@.take(i as int));
        assert(pre.last() == c);
        proof {
            lemma_tok_lc(s@.take(i as int));
        }
        if in_string {
            if c == '\\' {
                if last_was_slash {
                    st.push('\\');
                    last_was_slash = false;
                } else {
                    last_was_slash = true;
                }
            } else if last_was_slash {
                if c == '\n' {
                } else if c == 'n' {
                    st.push('\\');
                    st.push('n');
                    last_was_slash = false;
                } else {
                    last_was_slash = false;
                }
            } else if c == '\n' {
                lc += 1;
                st.push(c);
                last_was_slash = false;
            } else if c == '"' {
                st.push(c);
                emit(&mut tmp, &mut st, lc);
                in_string = false;
                last_was_slash = false;
            } else {
                st.push(c);
                last_was_slash = false;
            }
        } else if c == ' ' || c == '\t' {
            emit(&mut tmp, &mut st, lc);
        } else if c == '\n' {
            emit(&mut tmp, &mut st, lc);
            lc += 1;
            let ghost before = out@;
            out.push(tmp);
            proof {
                lemma_lines_push(before, out@.last());
            }
            tmp = Vec::new();
        } else if c == '"' {
            emit(&mut tmp, &mut st, lc);
            st.push(c);
            in_string = true;
        } else if c == '+' || c == '-' || c == '*' || c == '/' || c == ',' || c == '=' || c == '&'
            || c == '|' || c == '^' || c == '<' || c == '>' {
            emit(&mut tmp, &mut st, lc);
            st.push(c);
            emit(&mut tmp, &mut st, lc);
        } else {
            st.push(c);
        }
        proof {
            let t = tok_state(pre);
            assert(st@ =~= t.st);
            assert(toks_view(tmp@) =~= t.tmp);
            assert(lines_view(out@) =~= t.out);
        }
        i += 1;
    }
    assert(s@.take(i as int) =~= s@);
    if st.len() > 0 {
        emit(&mut tmp, &mut st, lc);
    }
    if tmp.len() > 0 {
        let ghost before = out@;
        out.push(tmp);
        proof {
            lemma_lines_push(before, out@.last());
        }
    }
    clean(out)
}

/// The outcome of reading an operand: the operand and the position after it, or an error
/// message and the position reached, or a panic (an index past the end of the line).
pub enum OpParse {
    Done { op: OpV, next: int },
    Fail { msg: Seq<char>, next: int },
    Panics,
}

/// The register that a prefix letter and a number name, if any.
pub open spec fn reg_named(prefix: char, i: nat) -> Option<Register> {
    if i > 7 {
        None
    } else if prefix == 'i' {
        Some(
            if i == 0 { Register::I0 } else if i == 1 { Register::I1 } else if i == 2 { Register::I2 }
            else if i == 3 { Register::I3 } else if i == 4 { Register::I4 } else if i == 5 {
                Register::I5 } else if i == 6 { Register::I6 } else { Register::I7 },
        )
    } else if prefix == 'r' {
        Some(
            if i == 0 { Register::R0 } else if i == 1 { Register::R1 } else if i == 2 { Register::R2 }
            else if i == 3 { Register::R3 } else if i == 4 { Register::R4 } else if i == 5 {
                Register::R5 } else if i == 6 { Register::R6 } else { Register::R7 },
        )
    } else {
        Some(
            if i == 0 { Register::F0 } else if i == 1 { Register::F1 } else if i == 2 { Register::F2 }
            else if i == 3 { Register::F3 } else if i == 4 { Register::F4 } else if i == 5 {
                Register::F5 } else if i == 6 { Register::F6 } else { Register::F7 },
        )
    }
}

/// The largest `u64`.
pub open spec fn u64_max() -> nat {
    0xffff_ffff_ffff_ffffnat
}

/// The operand that one word spells, or an error message: `x<n>` a stack slot,
/// `i<n>`/`r<n>`/`f<n>` (n at most 7) a register, `out0`/`out1` a result register, and
/// otherwise a `u64` pointer, an `i64` integer, a float literal or a symbol.
pub open spec fn word_op(s: Seq<char>, line: usize) -> Result<OpV, Seq<char>> {
    let rest = s.drop_first();
    if s.len() > 0 && s[0] == 'x' {
        match unsigned_text(rest, u64_max()) {
            Ok(i) => Ok(OpV::StackOperand { word_offset: i as u64 }),
            Err(e) => Err(int_error_text(e)),
        }
    } else if s.len() > 0 && (s[0] == 'i' || s[0] == 'r' || s[0] == 'f') {
        match unsigned_text(rest, u64_max()) {
            Ok(i) => match reg_named(s[0], i) {
                Some(r) => Ok(OpV::Register { idx: r }),
                None => Err("line:"@ + decimal(line as nat) + ", no such register"@ + s),
            },
            Err(e) => Err(int_error_text(e)),
        }
    } else if s == "out0"@ {
        Ok(OpV::Register { idx: Register::Out0 })
    } else if s == "out1"@ {
        Ok(OpV::Register { idx: Register::Out1 })
    } else if unsigned_text(s, u64_max()) is Ok {
        Ok(OpV::Ptr { v: unsigned_text(s, u64_max())->Ok_0 as u64 })
    } else if i64_text(s) is Some {
        Ok(OpV::Integer { v: i64_text(s)->0 })
    } else if float_text(s) {
        Ok(OpV::Double { v: s })
    } else {
        Ok(OpV::Symbol { v: s })
    }
}

/// Reading the operand at position `idx` of a line: `&` and `*` take the address of and
/// dereference the operand after them; a plain operand may be followed by `[ amount ]` or
/// `[ amount * scale ]`, an indexed operand.
pub open spec fn op_parse(line: Seq<TokV>, idx: int) -> OpParse
    decreases line.len() - idx,
{
    if idx < 0 {
        OpParse::Panics
    } else if idx >= line.len() {
        if line.len() == 0 {
            OpParse::Panics
        } else {
            OpParse::Fail {
                msg: "line "@ + decimal(line[0].line as nat) + ", expected operand found end of line"@,
                next: idx,
            }
        }
    } else if line[idx].s == "&"@ {
        match op_parse(line, idx + 1) {
            OpParse::Done { op, next } => OpParse::Done {
                op: OpV::TakeRef { to_take_ref: Box::new(op) },
                next,
            },
            other => other,
        }
    } else if line[idx].s == "*"@ {
        match op_parse(line, idx + 1) {
            OpParse::Done { op, next } => OpParse::Done {
                op: OpV::Deref { to_deref: Box::new(op) },
                next,
            },
            other => other,
        }
    } else {
        match word_op(line[idx].s, line[idx].line) {
            Err(msg) => OpParse::Fail { msg, next: idx },
            Ok(base) => {
                let i1 = idx + 1;
                if i1 < line.len() && line[i1].s == "["@ {
                    match op_parse(line, i1 + 1) {
                        OpParse::Done { op: amount, next: j } => {
                            if j < line.len() {
                                if line[j].s == "*"@ && j + 1 >= line.len() {
                                    OpParse::Fail {
                                        msg: "line:"@ + decimal(line[0].line as nat)
                                            + ", expected ] instead found end of line"@,
                                        next: j + 1,
                                    }
                                } else if line[j].s == "*"@ && unsigned_text(line[j + 1].s, 255) is Err {
                                    OpParse::Fail {
                                        msg: int_error_text(unsigned_text(line[j + 1].s, 255)->Err_0),
                                        next: j + 1,
                                    }
                                } else {
                                    let scale: u8 = if line[j].s == "*"@ {
                                        unsigned_text(line[j + 1].s, 255)->Ok_0 as u8
                                    } else {
                                        1
                                    };
                                    let j2 = if line[j].s == "*"@ {
                                        j + 2
                                    } else {
                                        j
                                    };
                                    if j2 >= line.len() {
                                        OpParse::Panics
                                    } else if line[j2].s != "]"@ {
                                        OpParse::Fail {
                                            msg: "line:"@ + decimal(line[j2].line as nat)
                                                + ", expected ] instead found"@ + decimal(
                                                line[j2].line as nat,
                                            ),
                                            next: j2,
                                        }
                                    } else {
                                        OpParse::Done {
                                            op: OpV::Index {
                                                base: Box::new(base),
                                                amount: Box::new(amount),
                                                scale,
                                            },
                                            next: j2 + 1,
                                        }
                                    }
                                }
                            } else {
                                OpParse::Fail {
                                    msg: "line:"@ + decimal(line[0].line as nat)
                                        + ", expected ] instead found end of line"@,
                                    next: j,
                                }
                            }
                        },
                        other => other,
                    }
                } else {
                    OpParse::Done { op: base, next: i1 }
                }
            },
        }
    }
}

/// `pre`, the decimal number `n`, then `post`.
pub fn line_msg(pre: &str, n: usize, post: &str) -> (r: String)
    ensures
        r@ == pre@ + decimal(n as nat) + post@,
{
    let mut s = String::from_str(pre);
    push_decimal(&mut s, n as u64);
    push_str(&mut s, post);
    s
}

fn register_op(prefix: char, i: u64) -> (r: Option<Register>)
    ensures
        r == reg_named(prefix, i as nat),
{
    if i > 7 {
        None
    } else if prefix == 'i' {
        Some(
            if i == 0 { Register::I0 } else if i == 1 { Register::I1 } else if i == 2 { Register::I2 }
            else if i == 3 { Register::I3 } else if i == 4 { Register::I4 } else if i == 5 {
                Register::I5 } else if i == 6 { Register::I6 } else { Register::I7 },
        )
    } else if prefix == 'r' {
        Some(
            if i == 0 { Register::R0 } else if i == 1 { Register::R1 } else if i == 2 { Register::R2 }
            else if i == 3 { Register::R3 } else if i == 4 { Register::R4 } else if i == 5 {
                Register::R5 } else if i == 6 { Register::R6 } else { Register::R7 },
        )
    } else {
        Some(
            if i == 0 { Register::F0 } else if i == 1 { Register::F1 } else if i == 2 { Register::F2 }
            else if i == 3 { Register::F3 } else if i == 4 { Register::F4 } else if i == 5 {
                Register::F5 } else if i == 6 { Register::F6 } else { Register::F7 },
        )
    }
}

/// The operand that one word spells (see `word_op`).
fn parse_word(s: &str, line: usize) -> (r: Result<LaigoOp, String>)
    ensures
        match word_op(s@, line) {
            Ok(o) => r matches Ok(x) && x@ == o,
            Err(m) => r matches Err(e) && e@ == m,
        },
{
    let n = s.unicode_len();
    let first: char = if n > 0 { s.get_char(0) } else { ' ' };
    let rest: &str = if n > 0 { s.substring_char(1, n) } else { s };
    assert(n > 0 ==> rest@ =~= s@.drop_first());
    if n > 0 && first == 'x' {
        return match parse_unsigned(rest, u64::MAX) {
            Ok(i) => Ok(LaigoOp::StackOperand { word_offset: i }),
            Err(e) => Err(String::from_str(e.message())),
        };
    }
    if n > 0 && (first == 'i' || first == 'r' || first == 'f') {
        return match parse_unsigned(rest, u64::MAX) {
            Ok(i) => match register_op(first, i) {
                Some(r) => Ok(LaigoOp::Register { idx: r }),
                None => {
                    let mut m = line_msg("line:", line, ", no such register");
                    push_str(&mut m, s);
                    Err(m)
                },
            },
            Err(e) => Err(String::from_str(e.message())),
        };
    }
    if str_equal(s, "out0") {
        return Ok(LaigoOp::Register { idx: Register::Out0 });
    }
    if str_equal(s, "out1") {
        return Ok(LaigoOp::Register { idx: Register::Out1 });
    }
    match parse_unsigned(s, u64::MAX) {
        Ok(p) => {
            return Ok(LaigoOp::Ptr { v: p });
        },
        Err(_) => {},
    }
    match parse_i64(s) {
        Some(p) => {
            return Ok(LaigoOp::Integer { v: p });
        },
        None => {},
    }
    if is_float_text(s) {
        return Ok(LaigoOp::Double { v: String::from_str(s) });
    }
    Ok(LaigoOp::Symbol { v: String::from_str(s) })
}

/// Whether the token at position `i` is the word `w`.
fn tok_is(line: &[TokenOwned], i: usize, w: &str) -> (r: bool)
    requires
        i < line@.len(),
    ensures
        r == (toks_view(line@)[i as int].s == w@),
{
    assert(toks_view(line@)[i as int] == line@[i as int]@);
    str_equal(line[i].s.as_str(), w)
}

impl Compiler {
    /// Reads the operand at position `*idx` of the line and moves `*idx` past it (see
    /// `op_parse`); on an error `*idx` is where reading stopped.
    pub fn expect_op(line: &[TokenOwned], idx: &mut usize) -> (r: Result<LaigoOp, String>)
        requires
            !(op_parse(toks_view(line@), *old(idx) as int) is Panics),
        ensures
            match op_parse(toks_view(line@), *old(idx) as int) {
                OpParse::Done { op, next } => r matches Ok(o) && o@ == op && *final(idx) == next,
                OpParse::Fail { msg, next } => r matches Err(e) && e@ == msg && *final(idx)
                    == next,
                OpParse::Panics => false,
            },
        decreases line@.len() - *old(idx),
    {
        let ghost lv = toks_view(line@);
        if *idx >= line.len() {
            assert(lv[0] == line@[0]@);
            return Err(line_msg("line ", line[0].line, ", expected operand found end of line"));
        }
        if tok_is(line, *idx, "&") {
            *idx += 1;
            let inner = match Self::expect_op(line, idx) {
                Ok(o) => o,
                Err(e) => return Err(e),
            };
            return Ok(LaigoOp::TakeRef { to_take_ref: Box::new(inner) });
        }
        if tok_is(line, *idx, "*") {
            *idx += 1;
            let inner = match Self::expect_op(line, idx) {
                Ok(o) => o,
                Err(e) => return Err(e),
            };
            return Ok(LaigoOp::Deref { to_deref: Box::new(inner) });
        }
        assert(lv[*idx as int] == line@[*idx as int]@);
        let out = match parse_word(line[*idx].s.as_str(), line[*idx].line) {
            Ok(o) => o,
            Err(e) => return Err(e),
        };
        *idx += 1;
        if *idx < line.len() && tok_is(line, *idx, "[") {
            *idx += 1;
            let amount = match Self::expect_op(line, idx) {
                Ok(o) => o,
                Err(e) => return Err(e),
            };
            if *idx < line.len() {
                let mut scale: u8 = 1;
                if tok_is(line, *idx, "*") {
                    *idx += 1;
                    if *idx >= line.len() {
                        assert(lv[0] == line@[0]@);
                        return Err(
                            line_msg("line:", line[0].line, ", expected ] instead found end of line"),
                        );
                    }
                    assert(lv[*idx as int] == line@[*idx as int]@);
                    let n = match parse_unsigned(line[*idx].s.as_str(), 255) {
                        Ok(n) => n,
                        Err(e) => return Err(String::from_str(e.message())),
                    };
                    scale = n as u8;
                    *idx += 1;
                }
                assert(*idx < line@.len());
                assert(lv[*idx as int] == line@[*idx as int]@);
                if !tok_is(line, *idx, "]") {
                    let mut m = line_msg("line:", line[*idx].line, ", expected ] instead found");
                    push_decimal(&mut m, line[*idx].line as u64);
                    return Err(m);
                }
                *idx += 1;
                return Ok(LaigoOp::Index { base: Box::new(out), amount: Box::new(amount), scale });
            } else {
                assert(lv[0] == line@[0]@);
                return Err(
                    line_msg("line:", line[0].line, ", expected ] instead found end of line"),
                );
            }
        }
        Ok(out)
    }
}

/// The reader of laigo lines: the instructions so far and the declarations.
pub struct Compiler {
    pub in_fn: bool,
    pub ins: Vec<LaigoIns>,
    pub statics: Table<LaigoValue>,
    pub externs: Vec<String>,
    pub labels: Table<usize>,
    pub label_idxes: NumTable<String>,
    pub globals: Vec<String>,
}

/// The view of a value of the data table.
pub enum ValV {
    String { v: Seq<char> },
    Bytes { v: Seq<u8> },
    Integer { v: i64 },
    Float { bits: u64 },
    Unsigned { u: u64 },
}

impl View for LaigoValue {
    type V = ValV;

    open spec fn view(&self) -> ValV {
        match self {
            LaigoValue::String { v } => ValV::String { v: v@ },
            LaigoValue::Bytes { v } => ValV::Bytes { v: v@ },
            LaigoValue::Integer { v } => ValV::Integer { v: *v },
            LaigoValue::Float { bits } => ValV::Float { bits: *bits },
            LaigoValue::Unsigned { u } => ValV::Unsigned { u: *u },
        }
    }
}

/// The views of a list of names.
pub open spec fn names_view(v: Seq<String>) -> Seq<Seq<char>> {
    v.map_values(|s: String| s@)
}

/// The view of the reader's state.
#[verifier::ext_equal]
pub struct CompV {
    pub in_fn: bool,
    pub ins: Seq<InsV>,
    pub statics: Map<Seq<char>, ValV>,
    pub externs: Seq<Seq<char>>,
    pub labels: Map<Seq<char>, usize>,
    pub label_idxes: Map<usize, Seq<char>>,
    pub globals: Seq<Seq<char>>,
}

impl View for Compiler {
    type V = CompV;

    open spec fn view(&self) -> CompV {
        CompV {
            in_fn: self.in_fn,
            ins: ins_view(self.ins@),
            statics: self.statics.map().map_values(|v: LaigoValue| v@),
            externs: names_view(self.externs@),
            labels: self.labels.map(),
            label_idxes: self.label_idxes.map().map_values(|s: String| s@),
            globals: names_view(self.globals@),
        }
    }
}

/// The outcome of reading a line: the new state; or the state and an error message; or a
/// panic.
pub enum LineResult {
    Done { st: CompV },
    Failed { st: CompV, msg: Seq<char> },
    Panics,
}

/// The state with one more instruction.
pub open spec fn with_ins(st: CompV, i: InsV) -> CompV {
    CompV { ins: st.ins.push(i), ..st }
}

/// The operation that an operator word names.
pub open spec fn binop_named(w: Seq<char>) -> BinopType {
    if w == "+"@ {
        BinopType::Add
    } else if w == "-"@ {
        BinopType::Sub
    } else if w == "*"@ {
        BinopType::Mul
    } else if w == "/"@ {
        BinopType::Div
    } else if w == "="@ {
        BinopType::Equal
    } else if w == "<"@ {
        BinopType::Less
    } else if w == ">"@ {
        BinopType::Greater
    } else if w == "|"@ {
        BinopType::Or
    } else if w == "&"@ {
        BinopType::And
    } else if w == "^"@ {
        BinopType::Xor
    } else {
        BinopType::Unknown
    }
}

/// `line <n>, excess tokens after instruction`.
pub open spec fn excess_msg(l: Seq<TokV>) -> Seq<char> {
    "line "@ + decimal(l[0].line as nat) + ", excess tokens after instruction"@
}

/// A line that is an operand, or an assignment `a = b`, `a = ! ...`, or `a = b op c`.
pub open spec fn general_step(st: CompV, l: Seq<TokV>) -> LineResult {
    match op_parse(l, 0) {
        OpParse::Panics => LineResult::Panics,
        OpParse::Fail { msg, .. } => LineResult::Failed { st, msg },
        OpParse::Done { op: op1, next: i } => {
            if i >= l.len() {
                LineResult::Done { st }
            } else if l[i].s == "="@ {
                let i1 = i + 1;
                if i1 >= l.len() {
                    LineResult::Panics
                } else if l[i1].s == "!"@ {
                    match op_parse(l, i1) {
                        OpParse::Done { op: op2, next: j } => {
                            let st2 = with_ins(st, InsV::Not { left: op1, right: op2 });
                            if j + 1 < l.len() {
                                LineResult::Failed { st: st2, msg: excess_msg(l) }
                            } else {
                                LineResult::Done { st: st2 }
                            }
                        },
                        OpParse::Fail { msg, .. } => LineResult::Failed { st, msg },
                        OpParse::Panics => LineResult::Panics,
                    }
                } else {
                    match op_parse(l, i1) {
                        OpParse::Done { op: op2, next: j } => {
                            if j >= l.len() {
                                LineResult::Done {
                                    st: with_ins(st, InsV::Assign { left: op1, right: op2 }),
                                }
                            } else {
                                match op_parse(l, j + 1) {
                                    OpParse::Done { op: op3, next: k } => {
                                        let st2 = with_ins(
                                            st,
                                            InsV::Binop {
                                                output: op1,
                                                left: op2,
                                                right: op3,
                                                binop_type: binop_named(l[j].s),
                                            },
                                        );
                                        if k < l.len() {
                                            LineResult::Failed { st: st2, msg: excess_msg(l) }
                                        } else {
                                            LineResult::Done { st: st2 }
                                        }
                                    },
                                    OpParse::Fail { msg, .. } => LineResult::Failed { st, msg },
                                    OpParse::Panics => LineResult::Panics,
                                }
                            }
                        },
                        OpParse::Fail { msg, .. } => LineResult::Failed { st, msg },
                        OpParse::Panics => LineResult::Panics,
                    }
                }
            } else {
                LineResult::Failed { st, msg: "expected assignment found not that"@ }
            }
        },
    }
}

/// `if c a b`: a conditional jump.
pub open spec fn if_step(st: CompV, l: Seq<TokV>) -> LineResult {
    match op_parse(l, 1) {
        OpParse::Done { op: c, next: i } => match op_parse(l, i) {
            OpParse::Done { op: a, next: j } => match op_parse(l, j) {
                OpParse::Done { op: b, .. } => LineResult::Done {
                    st: with_ins(st, InsV::If { condition: c, left: a, right: b }),
                },
                OpParse::Fail { msg, .. } => LineResult::Failed { st, msg },
                OpParse::Panics => LineResult::Panics,
            },
            OpParse::Fail { msg, .. } => LineResult::Failed { st, msg },
            OpParse::Panics => LineResult::Panics,
        },
        OpParse::Fail { msg, .. } => LineResult::Failed { st, msg },
        OpParse::Panics => LineResult::Panics,
    }
}

/// A line after its label: a statement keyword (`let`, `call`, `ret`, `int`, `noop`,
/// `begin func`, `end func`, `global`, `extern`, `if`, `jmp`) or a general line.
pub open spec fn body_step(st: CompV, l: Seq<TokV>) -> LineResult {
    let w = l[0].s;
    let n = l[0].line as nat;
    if w == "let"@ {
        general_step(with_ins(st, InsV::Declare { count: 1 }), l.drop_first())
    } else if w == "call"@ {
        match op_parse(l, 1) {
            OpParse::Done { op, .. } => LineResult::Done { st: with_ins(st, InsV::Call { to_call: op }) },
            OpParse::Fail { msg, .. } => LineResult::Failed { st, msg },
            OpParse::Panics => LineResult::Panics,
        }
    } else if w == "ret"@ {
        LineResult::Done { st: with_ins(st, InsV::Ret) }
    } else if w == "int"@ {
        if l.len() < 2 {
            LineResult::Failed { st, msg: "line:"@ + decimal(n) + " expected operand"@ }
        } else {
            match unsigned_text(l[1].s, u64_max()) {
                Ok(v) => LineResult::Done { st: with_ins(st, InsV::Syscall { call: v as u64 }) },
                Err(e) => LineResult::Failed { st, msg: int_error_text(e) },
            }
        }
    } else if w == "noop"@ {
        LineResult::Done { st: with_ins(st, InsV::Noop) }
    } else if w == "begin"@ && (l.len() < 2 || l[1].s == "func"@) {
        if l.len() < 2 {
            LineResult::Failed { st, msg: "line:"@ + decimal(n) + " expected func"@ }
        } else if st.in_fn {
            LineResult::Failed {
                st,
                msg: "line:"@ + decimal(n) + " cannot declare function in function"@,
            }
        } else {
            LineResult::Done { st: CompV { in_fn: true, ..with_ins(st, InsV::FnBegin) } }
        }
    } else if w == "end"@ {
        if l.len() < 2 {
            LineResult::Failed { st, msg: "line:"@ + decimal(n) + " expected operand"@ }
        } else if !st.in_fn {
            LineResult::Failed {
                st,
                msg: "line:"@ + decimal(n) + " cannot end function in function"@,
            }
        } else if l[1].s == "func"@ {
            LineResult::Done { st: with_ins(st, InsV::FnEnd) }
        } else {
            LineResult::Failed { st, msg: "line:"@ + decimal(n) + " expected func"@ }
        }
    } else if w == "global"@ {
        if l.len() < 2 {
            LineResult::Panics
        } else {
            LineResult::Done { st: CompV { globals: st.globals.push(l[1].s), ..st } }
        }
    } else if w == "extern"@ {
        if l.len() < 2 {
            LineResult::Panics
        } else {
            LineResult::Done { st: CompV { externs: st.externs.push(l[1].s), ..st } }
        }
    } else if w == "if"@ {
        if_step(st, l)
    } else if w == "jmp"@ {
        match op_parse(l, 1) {
            OpParse::Done { op, .. } => LineResult::Done { st: with_ins(st, InsV::Jmp { target: op }) },
            OpParse::Fail { msg, .. } => LineResult::Failed { st, msg },
            OpParse::Panics => LineResult::Panics,
        }
    } else {
        general_step(st, l)
    }
}

/// Reading one line: a first token ending in `:` labels the current position; the rest,
/// if any, is read by `body_step`.
#[verifier::opaque]
pub open spec fn line_step(st: CompV, line: Seq<TokV>) -> LineResult {
    if line.len() == 0 {
        LineResult::Panics
    } else if line[0].s.len() > 0 && line[0].s.last() == ':' {
        let name = line[0].s.drop_last();
        let n = st.ins.len() as usize;
        let st1 = CompV {
            labels: st.labels.insert(name, n),
            label_idxes: st.label_idxes.insert(n, name),
            ..st
        };
        if line.len() == 1 {
            LineResult::Done { st: st1 }
        } else {
            body_step(st1, line.drop_first())
        }
    } else {
        body_step(st, line)
    }
}

/// `r` and the state `new` are what `res` describes.
pub open spec fn line_matches(new: CompV, r: Result<(), String>, res: LineResult) -> bool {
    match res {
        LineResult::Done { st } => new == st && r is Ok,
        LineResult::Failed { st, msg } => new == st && (r matches Err(e) && e@ == msg),
        LineResult::Panics => false,
    }
}

/// Copies of the tokens after the first.
fn tail_toks(line: &[TokenOwned]) -> (r: Vec<TokenOwned>)
    requires
        line@.len() >= 1,
    ensures
        toks_view(r@) == toks_view(line@).drop_first(),
{
    let mut out: Vec<TokenOwned> = Vec::new();
    let mut i: usize = 1;
    while i < line.len()
        invariant
            1 <= i <= line@.len(),
            toks_view(out@) == toks_view(line@).subrange(1, i as int),
        decreases line@.len() - i,
    {
        let ghost before = out@;
        out.push(TokenOwned { s: line[i].s.clone(), line: line[i].line });
        proof {
            lemma_toks_push(before, out@.last());
            assert(toks_view(line@)[i as int] == line@[i as int]@);
            assert(toks_view(out@) =~= toks_view(line@).subrange(1, i + 1));
        }
        i += 1;
    }
    assert(toks_view(out@) =~= toks_view(line@).drop_first());
    out
}

/// The operation that an operator token names.
fn binop_word(w: &str) -> (r: BinopType)
    ensures
        r == binop_named(w@),
{
    if str_equal(w, "+") {
        BinopType::Add
    } else if str_equal(w, "-") {
        BinopType::Sub
    } else if str_equal(w, "*") {
        BinopType::Mul
    } else if str_equal(w, "/") {
        BinopType::Div
    } else if str_equal(w, "=") {
        BinopType::Equal
    } else if str_equal(w, "<") {
        BinopType::Less
    } else if str_equal(w, ">") {
        BinopType::Greater
    } else if str_equal(w, "|") {
        BinopType::Or
    } else if str_equal(w, "&") {
        BinopType::And
    } else if str_equal(w, "^") {
        BinopType::Xor
    } else {
        BinopType::Unknown
    }
}

impl Compiler {
    /// The tables keep their keys distinct.
    pub open spec fn wf(&self) -> bool {
        &&& self.statics.wf()
        &&& self.labels.wf()
        &&& self.label_idxes.wf()
    }

    /// A reader that has read nothing.
    pub fn new() -> (r: Self)
        ensures
            r.wf(),
            r@ == (CompV {
                in_fn: false,
                ins: seq![],
                statics: Map::empty(),
                externs: seq![],
                labels: Map::empty(),
                label_idxes: Map::empty(),
                globals: seq![],
            }),
    {
        let r = Compiler {
            in_fn: false,
            ins: Vec::new(),
            statics: Table::new(),
            labels: Table::new(),
            label_idxes: NumTable::new(),
            globals: Vec::new(),
            externs: Vec::new(),
        };
        assert(r@ =~= (CompV {
            in_fn: false,
            ins: seq![],
            statics: Map::empty(),
            externs: seq![],
            labels: Map::empty(),
            label_idxes: Map::empty(),
            globals: seq![],
        }));
        r
    }

    fn push_ins(&mut self, i: LaigoIns)
        requires
            old(self).wf(),
        ensures
            final(self).wf(),
            final(self)@ == with_ins(old(self)@, i@),
    {
        let ghost before = self.ins@;
        self.ins.push(i);
        assert(ins_view(self.ins@) =~= ins_view(before).push(i@));
        assert(self@ =~= with_ins(old(self)@, i@));
    }

    fn general(&mut self, l: &[TokenOwned]) -> (r: Result<(), String>)
        requires
            old(self).wf(),
            !(general_step(old(self)@, toks_view(l@)) is Panics),
        ensures
            final(self).wf(),
            line_matches(final(self)@, r, general_step(old(self)@, toks_view(l@))),
    {
        let ghost lv = toks_view(l@);
        let mut idx: usize = 0;
        let op1 = match Self::expect_op(l, &mut idx) {
            Ok(o) => o,
            Err(e) => return Err(e),
        };
        if idx >= l.len() {
            return Ok(());
        }
        if !tok_is(l, idx, "=") {
            return Err(String::from_str("expected assignment found not that"));
        }
        idx += 1;
        if tok_is(l, idx, "!") {
            let op2 = match Self::expect_op(l, &mut idx) {
                Ok(o) => o,
                Err(e) => return Err(e),
            };
            self.push_ins(LaigoIns::Not { left: op1, right: op2 });
            if idx < l.len() && l.len() - idx > 1 {
                assert(lv[0] == l@[0]@);
                return Err(line_msg("line ", l[0].line, ", excess tokens after instruction"));
            }
            return Ok(());
        }
        let op2 = match Self::expect_op(l, &mut idx) {
            Ok(o) => o,
            Err(e) => return Err(e),
        };
        if idx >= l.len() {
            self.push_ins(LaigoIns::Assign { left: op1, right: op2 });
            return Ok(());
        }
        assert(lv[idx as int] == l@[idx as int]@);
        let operator = binop_word(l[idx].s.as_str());
        idx += 1;
        let op3 = match Self::expect_op(l, &mut idx) {
            Ok(o) => o,
            Err(e) => return Err(e),
        };
        self.push_ins(LaigoIns::Binop { output: op1, left: op2, right: op3, binop_type: operator });
        if idx < l.len() {
            assert(lv[0] == l@[0]@);
            return Err(line_msg("line ", l[0].line, ", excess tokens after instruction"));
        }
        Ok(())
    }

    fn if_line(&mut self, l: &[TokenOwned]) -> (r: Result<(), String>)
        requires
            old(self).wf(),
            !(if_step(old(self)@, toks_view(l@)) is Panics),
        ensures
            final(self).wf(),
            line_matches(final(self)@, r, if_step(old(self)@, toks_view(l@))),
    {
        let mut idx: usize = 1;
        let cond = match Self::expect_op(l, &mut idx) {
            Ok(o) => o,
            Err(e) => return Err(e),
        };
        let l1 = match Self::expect_op(l, &mut idx) {
            Ok(o) => o,
            Err(e) => return Err(e),
        };
        let l2 = match Self::expect_op(l, &mut idx) {
            Ok(o) => o,
            Err(e) => return Err(e),
        };
        self.push_ins(LaigoIns::If { condition: cond, left: l1, right: l2 });
        Ok(())
    }

    #[verifier::spinoff_prover]
    #[verifier::rlimit(60)]
    fn body(&mut self, l: &[TokenOwned]) -> (r: Result<(), String>)
        requires
            old(self).wf(),
            l@.len() > 0,
            !(body_step(old(self)@, toks_view(l@)) is Panics),
        ensures
            final(self).wf(),
            line_matches(final(self)@, r, body_step(old(self)@, toks_view(l@))),
    {
        let ghost lv = toks_view(l@);
        assert(lv[0] == l@[0]@);
        let n = l[0].line;
        if tok_is(l, 0, "let") {
            let rest = tail_toks(l);
            self.push_ins(LaigoIns::Declare { count: 1 });
            return self.general(rest.as_slice());
        }
        if tok_is(l, 0, "call") {
            let mut idx: usize = 1;
            let op = match Self::expect_op(l, &mut idx) {
                Ok(o) => o,
                Err(e) => return Err(e),
            };
            self.push_ins(LaigoIns::Call { to_call: op });
            return Ok(());
        }
        if tok_is(l, 0, "ret") {
            self.push_ins(LaigoIns::Ret);
            return Ok(());
        }
        if tok_is(l, 0, "int") {
            if l.len() < 2 {
                return Err(line_msg("line:", n, " expected operand"));
            }
            assert(lv[1] == l@[1]@);
            let op = match parse_unsigned(l[1].s.as_str(), u64::MAX) {
                Ok(v) => v,
                Err(e) => return Err(String::from_str(e.message())),
            };
            self.push_ins(LaigoIns::Syscall { call: op });
            return Ok(());
        }
        if tok_is(l, 0, "noop") {
            self.push_ins(LaigoIns::Noop);
            return Ok(());
        }
        if tok_is(l, 0, "begin") {
            if l.len() < 2 {
                return Err(line_msg("line:", n, " expected func"));
            }
            if tok_is(l, 1, "func") {
                if self.in_fn {
                    return Err(line_msg("line:", n, " cannot declare function in function"));
                }
                self.in_fn = true;
                self.push_ins(LaigoIns::FnBegin);
                return Ok(());
            }
            proof {
                reveal_strlit("begin");
                reveal_strlit("end");
                reveal_strlit("global");
                reveal_strlit("extern");
                reveal_strlit("if");
                reveal_strlit("jmp");
                assert(body_step(old(self)@, lv) == general_step(old(self)@, lv));
            }
            return self.general(l);
        }
        if tok_is(l, 0, "end") {
            if l.len() < 2 {
                return Err(line_msg("line:", n, " expected operand"));
            }
            if !self.in_fn {
                return Err(line_msg("line:", n, " cannot end function in function"));
            }
            if tok_is(l, 1, "func") {
                self.push_ins(LaigoIns::FnEnd);
                return Ok(());
            } else {
                return Err(line_msg("line:", n, " expected func"));
            }
        }
        if tok_is(l, 0, "global") {
            assert(lv[1] == l@[1]@);
            let ghost before = self.globals@;
            self.globals.push(l[1].s.clone());
            assert(names_view(self.globals@) =~= names_view(before).push(lv[1].s));
            assert(self@ =~= (CompV { globals: old(self)@.globals.push(lv[1].s), ..old(self)@ }));
            return Ok(());
        }
        if tok_is(l, 0, "extern") {
            assert(lv[1] == l@[1]@);
            let ghost before = self.externs@;
            self.externs.push(l[1].s.clone());
            assert(names_view(self.externs@) =~= names_view(before).push(lv[1].s));
            assert(self@ =~= (CompV { externs: old(self)@.externs.push(lv[1].s), ..old(self)@ }));
            return Ok(());
        }
        if tok_is(l, 0, "if") {
            return self.if_line(l);
        }
        if tok_is(l, 0, "jmp") {
            let mut idx: usize = 1;
            let to = match Self::expect_op(l, &mut idx) {
                Ok(o) => o,
                Err(e) => return Err(e),
            };
            self.push_ins(LaigoIns::Jmp { target: to });
            return Ok(());
        }
        self.general(l)
    }

    /// Reads one line of tokens (see `line_step`).  An error leaves what the line did
    /// before the error.
    pub fn compile_line(&mut self, line: &[TokenOwned]) -> (r: Result<(), String>)
        requires
            old(self).wf(),
            !(line_step(old(self)@, toks_view(line@)) is Panics),
        ensures
            final(self).wf(),
            line_matches(final(self)@, r, line_step(old(self)@, toks_view(line@))),
    {
        reveal(line_step);
        let ghost lv = toks_view(line@);
        assert(lv[0] == line@[0]@);
        let w = line[0].s.as_str();
        let chars = to_chars(w);
        if chars.len() > 0 && chars[chars.len() - 1] == ':' {
            let name = from_chars(slice_prefix(&chars));
            let n = self.ins.len();
            self.labels.insert(name.clone(), n);
            self.label_idxes.insert(n, name);
            proof {
                assert(self@.label_idxes =~= old(self)@.label_idxes.insert(n, lv[0].s.drop_last()));
            }
            if line.len() == 1 {
                assert(self@ =~= (CompV {
                    labels: old(self)@.labels.insert(lv[0].s.drop_last(), n),
                    label_idxes: old(self)@.label_idxes.insert(n, lv[0].s.drop_last()),
                    ..old(self)@
                }));
                return Ok(());
            }
            let rest = tail_toks(line);
            assert(self@ =~= (CompV {
                labels: old(self)@.labels.insert(lv[0].s.drop_last(), n),
                label_idxes: old(self)@.label_idxes.insert(n, lv[0].s.drop_last()),
                ..old(self)@
            }));
            return self.body(rest.as_slice());
        }
        self.body(line)
    }
}

/// All characters but the last.
fn slice_prefix(v: &Vec<char>) -> (r: &[char])
    requires
        v@.len() > 0,
    ensures
        r@ == v@.drop_last(),
{
    let n = v.len() - 1;
    let r = vstd::slice::slice_subrange(v.as_slice(), 0, n);
    assert(r@ =~= v@.drop_last());
    r
}

/// A read laigo unit: the instructions, the labels both ways, the data table, and the
/// global and extern names.
#[derive(Debug)]
pub struct LaigoUnit {
    pub label_indexs: NumTable<String>,
    pub labels: Table<usize>,
    pub instructions: Vec<LaigoIns>,
    pub data_table: Table<LaigoValue>,
    pub globals: Vec<String>,
    pub externs: Vec<String>,
}

/// The view of a unit.
#[verifier::ext_equal]
pub struct UnitV {
    pub label_indexs: Map<usize, Seq<char>>,
    pub labels: Map<Seq<char>, usize>,
    pub instructions: Seq<InsV>,
    pub data_table: Map<Seq<char>, ValV>,
    pub globals: Seq<Seq<char>>,
    pub externs: Seq<Seq<char>>,
}

impl View for LaigoUnit {
    type V = UnitV;

    open spec fn view(&self) -> UnitV {
        UnitV {
            label_indexs: self.label_indexs.map().map_values(|s: String| s@),
            labels: self.labels.map(),
            instructions: ins_view(self.instructions@),
            data_table: self.data_table.map().map_values(|v: LaigoValue| v@),
            globals: names_view(self.globals@),
            externs: names_view(self.externs@),
        }
    }
}

impl LaigoUnit {
    /// The tables keep their keys distinct.
    pub open spec fn wf(&self) -> bool {
        &&& self.label_indexs.wf()
        &&& self.labels.wf()
        &&& self.data_table.wf()
    }
}

/// The unit that a reader's state makes.
pub open spec fn unit_of(st: CompV) -> UnitV {
    UnitV {
        label_indexs: st.label_idxes,
        labels: st.labels,
        instructions: st.ins,
        data_table: st.statics,
        globals: st.globals,
        externs: st.externs,
    }
}

/// The reader's state when nothing has been read.
pub open spec fn empty_comp() -> CompV {
    CompV {
        in_fn: false,
        ins: seq![],
        statics: Map::empty(),
        externs: seq![],
        labels: Map::empty(),
        label_idxes: Map::empty(),
        globals: seq![],
    }
}

/// Reading lines in order, stopping at the first that fails.
pub open spec fn run_lines(st: CompV, ls: Seq<Seq<TokV>>) -> LineResult
    decreases ls.len(),
{
    if ls.len() == 0 {
        LineResult::Done { st }
    } else {
        match run_lines(st, ls.drop_last()) {
            LineResult::Done { st: s1 } => line_step(s1, ls.last()),
            other => other,
        }
    }
}

proof fn lemma_run_lines_stop(st: CompV, ls: Seq<Seq<TokV>>, k: int)
    requires
        0 <= k <= ls.len(),
        !(run_lines(st, ls.take(k)) is Done),
    ensures
        run_lines(st, ls) == run_lines(st, ls.take(k)),
    decreases ls.len() - k,
{
    if k < ls.len() {
        assert(ls.take(k + 1).drop_last() =~= ls.take(k));
        lemma_run_lines_stop(st, ls, k + 1);
    } else {
        assert(ls.take(k) =~= ls);
    }
}

/// Reads a laigo source into a unit: its lines of tokens in turn; the first line that
/// fails gives the error.
pub fn parse_to_unit(s: &str) -> (r: Result<LaigoUnit, String>)
    requires
        s@.len() < usize::MAX,
        !(run_lines(empty_comp(), laigo_tokens(s@)) is Panics),
    ensures
        match run_lines(empty_comp(), laigo_tokens(s@)) {
            LineResult::Done { st } => r matches Ok(u) && u.wf() && u@ == unit_of(st),
            LineResult::Failed { msg, .. } => r matches Err(e) && e@ == msg,
            LineResult::Panics => false,
        },
{
    let tokens = tokenize(s);
    let ghost ls = laigo_tokens(s@);
    let mut compiler = Compiler::new();
    assert(compiler@ =~= empty_comp());
    let mut i: usize = 0;
    while i < tokens.len()
        invariant
            i <= tokens@.len(),
            ls == lines_view(tokens@),
            ls == laigo_tokens(s@),
            compiler.wf(),
            !(run_lines(empty_comp(), ls) is Panics),
            run_lines(empty_comp(), ls.take(i as int)) == (LineResult::Done { st: compiler@ }),
        decreases tokens@.len() - i,
    {
        assert(ls.take(i + 1).drop_last() =~= ls.take(i as int));
        assert(ls.take(i + 1).last() == ls[i as int]);
        assert(ls[i as int] == toks_view(tokens@[i as int]@));
        let ghost before = compiler@;
        assert(run_lines(empty_comp(), ls.take(i + 1)) == line_step(before, ls[i as int]));
        proof {
            if line_step(compiler@, ls[i as int]) is Panics {
                lemma_run_lines_stop(empty_comp(), ls, i + 1);
            }
        }
        let line = tokens[i].as_slice();
        assert(toks_view(line@) == ls[i as int]);
        let r = compiler.compile_line(line);
        assert(line_matches(compiler@, r, line_step(before, ls[i as int])));
        match r {
            Ok(()) => {},
            Err(e) => {
                proof {
                    let res = line_step(before, ls[i as int]);
                    assert(res matches LineResult::Failed { .. });
                    lemma_run_lines_stop(empty_comp(), ls, i + 1);
                    assert(run_lines(empty_comp(), ls) == res);
                }
                return Err(e);
            },
        }
        i += 1;
    }
    assert(ls.take(i as int) =~= ls);
    let u = LaigoUnit {
        labels: compiler.labels,
        label_indexs: compiler.label_idxes,
        instructions: compiler.ins,
        data_table: compiler.statics,
        globals: compiler.globals,
        externs: compiler.externs,
    };
    assert(u@ =~= unit_of(compiler@));
    Ok(u)
}

/// The x86 name of a register that has one (the floating-point registers have none).
pub open spec fn x86_reg(r: Register) -> Seq<char> {
    match r {
        Register::I0 | Register::R0 => "rdi"@,
        Register::I1 | Register::R1 => "rsi"@,
        Register::I2 | Register::R2 => "rdx"@,
        Register::I3 | Register::R3 => "rcx"@,
        Register::I4 | Register::R4 => "r8"@,
        Register::I5 | Register::R5 => "r9"@,
        Register::I6 | Register::R6 | Register::Out0 => "rax"@,
        _ => "rbx"@,
    }
}

/// The ARM name of a register that has one (the floating-point registers have none).
pub open spec fn arm_reg(r: Register) -> Seq<char> {
    match r {
        Register::I0 | Register::R0 | Register::Out0 => "x0"@,
        Register::I1 | Register::R1 | Register::Out1 => "x1"@,
        Register::I2 | Register::R2 => "x2"@,
        Register::I3 | Register::R3 => "x3"@,
        Register::I4 | Register::R4 => "x4"@,
        Register::I5 | Register::R5 => "x5"@,
        Register::I6 | Register::R6 => "x6"@,
        _ => "x7"@,
    }
}

/// A floating-point register.
pub open spec fn is_fp_reg(r: Register) -> bool {
    r == Register::F0 || r == Register::F1 || r == Register::F2 || r == Register::F3 || r
        == Register::F4 || r == Register::F5 || r == Register::F6 || r == Register::F7
}

/// The operand has an immediate spelling: a register other than a floating-point one, an
/// integer, a pointer or a symbol.
pub open spec fn has_imm(o: OpV) -> bool {
    match o {
        OpV::Register { idx } => !is_fp_reg(idx),
        OpV::Integer { .. } | OpV::Ptr { .. } | OpV::Symbol { .. } => true,
        _ => false,
    }
}

/// The x86 immediate spelling of an operand that has one.
pub open spec fn imm_x86(o: OpV) -> Seq<char> {
    match o {
        OpV::Register { idx } => x86_reg(idx),
        OpV::Integer { v } => crate::text::signed_decimal(v as int),
        OpV::Ptr { v } => decimal(v as nat),
        OpV::Symbol { v } => v,
        _ => seq![],
    }
}

/// The ARM immediate spelling of an operand that has one.
pub open spec fn imm_arm(o: OpV) -> Seq<char> {
    match o {
        OpV::Register { idx } => arm_reg(idx),
        OpV::Integer { v } => "#"@ + crate::text::signed_decimal(v as int),
        OpV::Ptr { v } => "#"@ + decimal(v as nat),
        OpV::Symbol { v } => "_"@ + v,
        _ => seq![],
    }
}

/// A stack slot whose byte offset fits in a `u64`.
pub open spec fn is_slot(o: OpV) -> bool {
    o matches OpV::StackOperand { word_offset } && word_offset * 8 <= u64::MAX
}

/// The operand has an ARM memory spelling: a stack slot, a dereferenced register with a
/// spelling, or a symbol.
pub open spec fn has_mem_arm(o: OpV) -> bool {
    ||| is_slot(o)
    ||| (o matches OpV::Deref { to_deref } && (*to_deref matches OpV::Register { idx } && !is_fp_reg(idx)))
    ||| o is Symbol
}

/// The ARM memory spelling of an operand that has one.
pub open spec fn mem_arm(o: OpV) -> Seq<char> {
    match o {
        OpV::StackOperand { word_offset } => "[fp,#-"@ + decimal((word_offset * 8) as nat) + "]"@,
        OpV::Deref { to_deref } => "["@ + imm_arm(*to_deref) + ",#0]"@,
        OpV::Symbol { v } => v,
        _ => seq![],
    }
}

/// The x86 memory spelling of a stack slot.
pub open spec fn mem_x86(o: OpV) -> Seq<char> {
    match o {
        OpV::StackOperand { word_offset } => "[rbp-"@ + decimal((word_offset * 8) as nat) + "]"@,
        _ => seq![],
    }
}

impl LaigoOp {
    /// A register, a pointer or an integer.
    pub fn is_num_or_reg(&self) -> (r: bool)
        ensures
            r == (self@ is Register || self@ is Ptr || self@ is Integer),
    {
        match self {
            Self::Register { idx: _ } => true,
            Self::Ptr { v: _ } => true,
            Self::Integer { v: _ } => true,
            _ => false,
        }
    }

    /// A register.
    pub fn is_reg(&self) -> (r: bool)
        ensures
            r == (self@ is Register),
    {
        match self {
            Self::Register { idx: _ } => true,
            _ => false,
        }
    }

    /// The ARM immediate spelling of the operand.
    pub fn get_imm_arm(&self) -> (r: String)
        requires
            has_imm(self@),
        ensures
            r@ == imm_arm(self@),
    {
        match self {
            Self::Register { idx } => String::from_str(
                match idx {
                    Register::I0 | Register::R0 | Register::Out0 => "x0",
                    Register::I1 | Register::R1 | Register::Out1 => "x1",
                    Register::I2 | Register::R2 => "x2",
                    Register::I3 | Register::R3 => "x3",
                    Register::I4 | Register::R4 => "x4",
                    Register::I5 | Register::R5 => "x5",
                    Register::I6 | Register::R6 => "x6",
                    _ => "x7",
                },
            ),
            Self::Integer { v } => {
                let mut s = String::from_str("#");
                push_str(&mut s, crate::text::i64_to_string(*v).as_str());
                s
            },
            Self::Ptr { v } => {
                let mut s = String::from_str("#");
                push_decimal(&mut s, *v);
                s
            },
            Self::Symbol { v } => {
                let mut s = String::from_str("_");
                push_str(&mut s, v.as_str());
                s
            },
            _ => String::new(),
        }
    }

    /// The ARM memory spelling of the operand.
    pub fn get_mem_op_arm(&self) -> (r: String)
        requires
            has_mem_arm(self@),
        ensures
            r@ == mem_arm(self@),
    {
        match self {
            Self::StackOperand { word_offset } => {
                let mut s = String::from_str("[fp,#-");
                push_decimal(&mut s, *word_offset * 8);
                push_str(&mut s, "]");
                s
            },
            Self::Deref { to_deref } => {
                let mut s = String::from_str("[");
                push_str(&mut s, to_deref.get_imm_arm().as_str());
                push_str(&mut s, ",#0]");
                s
            },
            Self::Symbol { v } => v.clone(),
            _ => String::new(),
        }
    }

    /// The base register and byte offset of a stack slot, for taking its address on ARM.
    pub fn get_as_ref_arm(&self) -> (r: (String, String))
        requires
            is_slot(self@),
        ensures
            r.0@ == "fp"@,
            r.1@ == decimal((self@->word_offset * 8) as nat),
    {
        match self {
            Self::StackOperand { word_offset } => (
                String::from_str("fp"),
                crate::text::u64_to_string(*word_offset * 8),
            ),
            _ => (String::new(), String::new()),
        }
    }

    /// The x86 immediate spelling of the operand.
    pub fn get_imm_x86(&self) -> (r: String)
        requires
            has_imm(self@),
        ensures
            r@ == imm_x86(self@),
    {
        match self {
            Self::Register { idx } => String::from_str(
                match idx {
                    Register::I0 | Register::R0 => "rdi",
                    Register::I1 | Register::R1 => "rsi",
                    Register::I2 | Register::R2 => "rdx",
                    Register::I3 | Register::R3 => "rcx",
                    Register::I4 | Register::R4 => "r8",
                    Register::I5 | Register::R5 => "r9",
                    Register::I6 | Register::R6 | Register::Out0 => "rax",
                    _ => "rbx",
                },
            ),
            Self::Integer { v } => crate::text::i64_to_string(*v),
            Self::Ptr { v } => crate::text::u64_to_string(*v),
            Self::Symbol { v } => v.clone(),
            _ => String::new(),
        }
    }

    /// The x86 memory spelling of a stack slot.
    pub fn get_mem_op_x86(&self) -> (r: String)
        requires
            is_slot(self@),
        ensures
            r@ == mem_x86(self@),
    {
        match self {
            Self::StackOperand { word_offset } => {
                let mut s = String::from_str("[rbp-");
                push_decimal(&mut s, *word_offset * 8);
                push_str(&mut s, "]");
                s
            },
            _ => String::new(),
        }
    }
}

} // verus!
