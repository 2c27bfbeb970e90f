//! The bytecode runtime of the beam language: a stack machine that runs the bytes the
//! compiler emits. Values are tagged; local variables live in a fixed stack of slots;
//! strings live on a heap from which, after each step, the strings that no live slot
//! refers to are freed.
use crate::beam::fast::{instr_code, le8, le_bytes, Instr, RtImage, Tag};
use crate::beam::mach::Binop;
use crate::beam::run::{int_arith, int_arith_exec};
use crate::table::Table;
use vstd::prelude::*;

verus! {

/// The number of slots of the variable stack, and the most values the operand and
/// return stacks hold.
pub const STACK_SLOTS: usize = 65536;

/// A runtime value. A string refers to an entry of the string heap (`None` is the null
/// string of a fresh slot); a pointer refers to an entry of the object heap (`None` is
/// null); an l-value is a slot of the variable stack, or a field of an object.
#[derive(Clone, Copy, Debug, PartialEq, Eq, Structural)]
pub enum RtVal {
    Void,
    Integer { v: i64 },
    Float { bits: u64 },
    Bool { v: bool },
    Str { at: Option<usize> },
    Ptr { obj: Option<usize> },
    LValue { at: usize },
    Field { obj: usize, idx: usize },
}

/// What the collector keeps for an allocation (nothing: marks live in the collector).
#[derive(Clone, Debug)]
pub struct GcInfo {}

impl GcInfo {
    /// The information of a fresh allocation.
    pub fn new() -> (r: Self) {
        GcInfo {}
    }
}

/// Where a call returns to: the instruction, and the variable stack's top and base.
#[derive(Clone, Copy, Debug, PartialEq, Eq, Structural)]
pub struct RetInfo {
    pub ip: usize,
    pub var_sp: usize,
    pub var_bp: usize,
}

/// The tag of a value.
pub open spec fn tag_of(v: RtVal) -> Tag {
    match v {
        RtVal::Void => Tag::Void,
        RtVal::Integer { .. } => Tag::Integer,
        RtVal::Float { .. } => Tag::Float,
        RtVal::Bool { .. } => Tag::Bool,
        RtVal::Str { .. } => Tag::String,
        RtVal::Ptr { .. } => Tag::Ptr,
        RtVal::LValue { .. } => Tag::LValue,
        RtVal::Field { .. } => Tag::LValue,
    }
}

/// The instruction a byte encodes (see `instr_code`).
pub open spec fn instr_of(b: u8) -> Option<Instr> {
        if b == 0u8 {
            Some(Instr::Jmp)
        }
        else if b == 1u8 {
            Some(Instr::JmpCond)
        }
        else if b == 2u8 {
            Some(Instr::Call)
        }
        else if b == 3u8 {
            Some(Instr::CallObj)
        }
        else if b == 4u8 {
            Some(Instr::Ret)
        }
        else if b == 5u8 {
            Some(Instr::DefLocalVoid)
        }
        else if b == 6u8 {
            Some(Instr::DefLocalInt)
        }
        else if b == 7u8 {
            Some(Instr::DefLocalFloat)
        }
        else if b == 8u8 {
            Some(Instr::DefLocalBool)
        }
        else if b == 9u8 {
            Some(Instr::DefLocalPtr)
        }
        else if b == 10u8 {
            Some(Instr::DefLocalStr)
        }
        else if b == 11u8 {
            Some(Instr::LoadVoid)
        }
        else if b == 12u8 {
            Some(Instr::LoadInt)
        }
        else if b == 13u8 {
            Some(Instr::LoadFloat)
        }
        else if b == 14u8 {
            Some(Instr::LoadBool)
        }
        else if b == 15u8 {
            Some(Instr::LoadPtr)
        }
        else if b == 16u8 {
            Some(Instr::LoadStr)
        }
        else if b == 17u8 {
            Some(Instr::LoadMember)
        }
        else if b == 18u8 {
            Some(Instr::LoadVarAddr)
        }
        else if b == 19u8 {
            Some(Instr::LoadMemberAddr)
        }
        else if b == 20u8 {
            Some(Instr::StoreVoid)
        }
        else if b == 21u8 {
            Some(Instr::StoreInt)
        }
        else if b == 22u8 {
            Some(Instr::StoreFloat)
        }
        else if b == 23u8 {
            Some(Instr::StoreBool)
        }
        else if b == 24u8 {
            Some(Instr::StorePtr)
        }
        else if b == 25u8 {
            Some(Instr::StoreStr)
        }
        else if b == 26u8 {
            Some(Instr::ConstVoid)
        }
        else if b == 27u8 {
            Some(Instr::ConstInt)
        }
        else if b == 28u8 {
            Some(Instr::ConstFloat)
        }
        else if b == 29u8 {
            Some(Instr::ConstBool)
        }
        else if b == 30u8 {
            Some(Instr::ConstPtr)
        }
        else if b == 31u8 {
            Some(Instr::ConstStr)
        }
        else if b == 32u8 {
            Some(Instr::IntAdd)
        }
        else if b == 33u8 {
            Some(Instr::IntSub)
        }
        else if b == 34u8 {
            Some(Instr::IntMul)
        }
        else if b == 35u8 {
            Some(Instr::IntDiv)
        }
        else if b == 36u8 {
            Some(Instr::IntEq)
        }
        else if b == 37u8 {
            Some(Instr::IntNEq)
        }
        else if b == 38u8 {
            Some(Instr::IntLess)
        }
        else if b == 39u8 {
            Some(Instr::IntGreater)
        }
        else if b == 40u8 {
            Some(Instr::FloatAdd)
        }
        else if b == 41u8 {
            Some(Instr::FloatSub)
        }
        else if b == 42u8 {
            Some(Instr::FloatMul)
        }
        else if b == 43u8 {
            Some(Instr::FloatDiv)
        }
        else if b == 44u8 {
            Some(Instr::FloatEq)
        }
        else if b == 45u8 {
            Some(Instr::FloatNeq)
        }
        else if b == 46u8 {
            Some(Instr::FloatLess)
        }
        else if b == 47u8 {
            Some(Instr::FloatGreater)
        }
        else if b == 48u8 {
            Some(Instr::BoolEq)
        }
        else if b == 49u8 {
            Some(Instr::BoolNeq)
        }
        else if b == 50u8 {
            Some(Instr::BoolAnd)
        }
        else if b == 51u8 {
            Some(Instr::BoolOr)
        }
        else if b == 52u8 {
            Some(Instr::StrAdd)
        }
        else if b == 53u8 {
            Some(Instr::StrEq)
        }
        else if b == 54u8 {
            Some(Instr::StrNeq)
        }
        else if b == 55u8 {
            Some(Instr::New)
        }
        else {
            None
        }
}

/// The instruction a byte encodes (see `instr_of`).
pub fn decode_instr(b: u8) -> (r: Option<Instr>)
    ensures
        r == instr_of(b),
{
    match b {
        0u8 => Some(Instr::Jmp),
        1u8 => Some(Instr::JmpCond),
        2u8 => Some(Instr::Call),
        3u8 => Some(Instr::CallObj),
        4u8 => Some(Instr::Ret),
        5u8 => Some(Instr::DefLocalVoid),
        6u8 => Some(Instr::DefLocalInt),
        7u8 => Some(Instr::DefLocalFloat),
        8u8 => Some(Instr::DefLocalBool),
        9u8 => Some(Instr::DefLocalPtr),
        10u8 => Some(Instr::DefLocalStr),
        11u8 => Some(Instr::LoadVoid),
        12u8 => Some(Instr::LoadInt),
        13u8 => Some(Instr::LoadFloat),
        14u8 => Some(Instr::LoadBool),
        15u8 => Some(Instr::LoadPtr),
        16u8 => Some(Instr::LoadStr),
        17u8 => Some(Instr::LoadMember),
        18u8 => Some(Instr::LoadVarAddr),
        19u8 => Some(Instr::LoadMemberAddr),
        20u8 => Some(Instr::StoreVoid),
        21u8 => Some(Instr::StoreInt),
        22u8 => Some(Instr::StoreFloat),
        23u8 => Some(Instr::StoreBool),
        24u8 => Some(Instr::StorePtr),
        25u8 => Some(Instr::StoreStr),
        26u8 => Some(Instr::ConstVoid),
        27u8 => Some(Instr::ConstInt),
        28u8 => Some(Instr::ConstFloat),
        29u8 => Some(Instr::ConstBool),
        30u8 => Some(Instr::ConstPtr),
        31u8 => Some(Instr::ConstStr),
        32u8 => Some(Instr::IntAdd),
        33u8 => Some(Instr::IntSub),
        34u8 => Some(Instr::IntMul),
        35u8 => Some(Instr::IntDiv),
        36u8 => Some(Instr::IntEq),
        37u8 => Some(Instr::IntNEq),
        38u8 => Some(Instr::IntLess),
        39u8 => Some(Instr::IntGreater),
        40u8 => Some(Instr::FloatAdd),
        41u8 => Some(Instr::FloatSub),
        42u8 => Some(Instr::FloatMul),
        43u8 => Some(Instr::FloatDiv),
        44u8 => Some(Instr::FloatEq),
        45u8 => Some(Instr::FloatNeq),
        46u8 => Some(Instr::FloatLess),
        47u8 => Some(Instr::FloatGreater),
        48u8 => Some(Instr::BoolEq),
        49u8 => Some(Instr::BoolNeq),
        50u8 => Some(Instr::BoolAnd),
        51u8 => Some(Instr::BoolOr),
        52u8 => Some(Instr::StrAdd),
        53u8 => Some(Instr::StrEq),
        54u8 => Some(Instr::StrNeq),
        55u8 => Some(Instr::New),
        _ => None,
    }
}

/// Every instruction is decoded from its code.
pub proof fn law_decode_code(i: Instr)
    ensures
        instr_of(instr_code(i)) == Some(i),
{
}

/// The 64-bit word that eight bytes spell, least significant first.
pub open spec fn word_of(s: Seq<u8>) -> nat {
    s[0] as nat + 0x100 * s[1] as nat + 0x1_0000 * s[2] as nat + 0x100_0000 * s[3] as nat + 0x1_0000_0000
        * s[4] as nat + 0x100_0000_0000 * s[5] as nat + 0x1_0000_0000_0000 * s[6] as nat + 0x100_0000_0000_0000
        * s[7] as nat
}

/// The word at `at` in the bytes (see `word_of`).
pub fn read_word(code: &Vec<u8>, at: usize) -> (r: u64)
    requires
        at + 8 <= code@.len(),
    ensures
        r == word_of(code@.subrange(at as int, at + 8)),
{
    let ghost w = code@.subrange(at as int, at + 8);
    assert(w[0] == code@[at as int] && w[7] == code@[at + 7]);
    assert(w[1] == code@[at + 1] && w[2] == code@[at + 2] && w[3] == code@[at + 3]);
    assert(w[4] == code@[at + 4] && w[5] == code@[at + 5] && w[6] == code@[at + 6]);
    let n = code.len();
    assert(at + 8 <= n);
    let b0: u64 = code[at] as u64;
    let b1: u64 = code[at + 1] as u64;
    let b2: u64 = code[at + 2] as u64;
    let b3: u64 = code[at + 3] as u64;
    let b4: u64 = code[at + 4] as u64;
    let b5: u64 = code[at + 5] as u64;
    let b6: u64 = code[at + 6] as u64;
    let b7: u64 = code[at + 7] as u64;
    b0 + 0x100 * b1 + 0x1_0000 * b2 + 0x100_0000 * b3 + 0x1_0000_0000 * b4 + 0x100_0000_0000 * b5
        + 0x1_0000_0000_0000 * b6 + 0x100_0000_0000_0000 * b7
}

/// What the compiler writes as a word, the runtime reads back: the bytes of `le8(v)`
/// spell `v`.
pub proof fn law_word_round_trip(v: u64)
    ensures
        word_of(le8(v)) == v,
{
    reveal_with_fuel(le_bytes, 9);
    let s = le8(v);
    let v1 = v / 256;
    let v2 = v1 / 256;
    let v3 = v2 / 256;
    let v4 = v3 / 256;
    let v5 = v4 / 256;
    let v6 = v5 / 256;
    let v7 = v6 / 256;
    assert(s =~= seq![(v % 256) as u8, (v1 % 256) as u8, (v2 % 256) as u8, (v3 % 256) as u8, (v4 % 256) as u8, (v5 % 256) as u8, (v6 % 256) as u8, (v7 % 256) as u8]);
    assert(v == (v % 256) + 0x100 * (v1 % 256) + 0x1_0000 * (v2 % 256) + 0x100_0000 * (v3 % 256)
        + 0x1_0000_0000 * (v4 % 256) + 0x100_0000_0000 * (v5 % 256) + 0x1_0000_0000_0000 * (v6 % 256)
        + 0x100_0000_0000_0000 * (v7 % 256)) by (bit_vector)
        requires
            v1 == v / 256,
            v2 == v1 / 256,
            v3 == v2 / 256,
            v4 == v3 / 256,
            v5 == v4 / 256,
            v6 == v5 / 256,
            v7 == v6 / 256,
    ;
}

/// The runtime: the operand stack, the bytecode and the instruction pointer, the
/// variable stack (all its slots) with its top and the current frame's base, the
/// return stack, whether the program has returned, the symbol table, the string heap
/// (freed entries are `None`), the string constants, and the object heap (freed
/// entries are `None`; a live object holds its fields).
#[derive(Debug)]
pub struct Rt {
    pub op_stack: Vec<RtVal>,
    pub instructions: Vec<u8>,
    pub ip: usize,
    pub var_stack: Vec<RtVal>,
    pub var_stack_ptr: usize,
    pub var_base_ptr: usize,
    pub ret_info: Vec<RetInfo>,
    pub halted: bool,
    pub symbol_table: Table<usize>,
    pub heap: Vec<Option<String>>,
    pub strings: Vec<String>,
    pub objects: Vec<Option<Vec<RtVal>>>,
}

/// The model of the runtime's state.
pub struct RtState {
    pub ops: Seq<RtVal>,
    pub code: Seq<u8>,
    pub ip: usize,
    pub vars: Seq<RtVal>,
    pub sp: usize,
    pub bp: usize,
    pub rets: Seq<RetInfo>,
    pub heap: Seq<Option<Seq<char>>>,
    pub strings: Seq<Seq<char>>,
    pub objs: Seq<Option<Seq<RtVal>>>,
}

impl Rt {
    pub open spec fn state(&self) -> RtState {
        RtState {
            ops: self.op_stack@,
            code: self.instructions@,
            ip: self.ip,
            vars: self.var_stack@,
            sp: self.var_stack_ptr,
            bp: self.var_base_ptr,
            rets: self.ret_info@,
            heap: self.heap@.map_values(|o: Option<String>| match o {
                Some(t) => Some(t@),
                None => None,
            }),
            strings: self.strings@.map_values(|t: String| t@),
            objs: self.objects@.map_values(|o: Option<Vec<RtVal>>| match o {
                Some(v) => Some(v@),
                None => None,
            }),
        }
    }

    /// The variable stack has all its slots, its top is within them, and the operand
    /// and return stacks are within their bounds.
    pub open spec fn wf(&self) -> bool {
        &&& self.var_stack@.len() == STACK_SLOTS
        &&& self.var_stack_ptr <= STACK_SLOTS
        &&& self.op_stack@.len() <= STACK_SLOTS
        &&& self.ret_info@.len() <= STACK_SLOTS
        &&& forall|k: int| 0 <= k < self.ret_info@.len() ==> (#[trigger] self.ret_info@[k]).var_sp <= STACK_SLOTS
    }
}

/// What a step ends with: the next instruction is due, the program has returned a
/// value, or a float operation is to be done by the caller, who pushes its result.
#[derive(Clone, Copy, Debug, PartialEq, Eq, Structural)]
pub enum RtStep {
    Continue,
    Returned { value: RtVal },
    Float { op: Binop, l: u64, r: u64 },
}

/// What an instruction does before the collector runs: a panic (or undefined
/// behaviour), the state and outcome, or a return from the outermost function.
pub enum Effect {
    Stuck,
    Next(RtState, RtStep),
    Halt(RtState, RtVal),
}

/// The word at the instruction pointer, and the state past it.
pub open spec fn take_word(s: RtState) -> Option<(RtState, u64)> {
    if s.ip + 8 <= s.code.len() {
        Some((RtState { ip: (s.ip + 8) as usize, ..s }, word_of(s.code.subrange(s.ip as int, s.ip + 8)) as u64))
    } else {
        None
    }
}

/// The operand stack's top, and the state without it.
pub open spec fn pop_op(s: RtState) -> Option<(RtState, RtVal)> {
    if s.ops.len() == 0 {
        None
    } else {
        Some((RtState { ops: s.ops.drop_last(), ..s }, s.ops.last()))
    }
}

/// The state with a value pushed on the operand stack.
pub open spec fn push_op(s: RtState, v: RtVal) -> Effect {
    if s.ops.len() >= STACK_SLOTS {
        Effect::Stuck
    } else {
        Effect::Next(RtState { ops: s.ops.push(v), ..s }, RtStep::Continue)
    }
}

/// The slot of local `idx` of the current frame.
pub open spec fn slot_of(s: RtState, idx: u64) -> Option<usize> {
    let a = s.bp as int + (idx as usize) as int;
    if a < STACK_SLOTS {
        Some(a as usize)
    } else {
        None
    }
}

/// The slot's initial value for a new local of each kind.
pub open spec fn fresh_value(i: Instr) -> RtVal {
    match i {
        Instr::DefLocalVoid => RtVal::Void,
        Instr::DefLocalFloat => RtVal::Float { bits: 0 },
        Instr::DefLocalBool => RtVal::Bool { v: false },
        Instr::DefLocalPtr => RtVal::Ptr { obj: None },
        Instr::DefLocalStr => RtVal::Str { at: None },
        _ => RtVal::Integer { v: 0 },
    }
}

/// The tag a store or an operation expects.
pub open spec fn store_tag(i: Instr) -> Tag {
    match i {
        Instr::StoreVoid => Tag::Void,
        Instr::StoreInt => Tag::Integer,
        Instr::StoreFloat => Tag::Float,
        Instr::StoreBool => Tag::Bool,
        Instr::StorePtr => Tag::Ptr,
        _ => Tag::String,
    }
}

/// The operation of an arithmetic or comparison instruction.
pub open spec fn op_of(i: Instr) -> Binop {
    match i {
        Instr::IntAdd | Instr::FloatAdd => Binop::Add,
        Instr::IntSub | Instr::FloatSub => Binop::Sub,
        Instr::IntMul | Instr::FloatMul => Binop::Mul,
        Instr::IntDiv | Instr::FloatDiv => Binop::Div,
        Instr::IntEq | Instr::FloatEq | Instr::BoolEq | Instr::StrEq => Binop::Equal,
        Instr::IntNEq | Instr::FloatNeq | Instr::BoolNeq | Instr::StrNeq => Binop::NotEqual,
        Instr::IntLess | Instr::FloatLess => Binop::Less,
        Instr::IntGreater | Instr::FloatGreater => Binop::Greater,
        Instr::BoolAnd => Binop::And,
        _ => Binop::Or,
    }
}

/// The result of an integer instruction: arithmetic where it neither overflows nor
/// divides by zero, or a comparison.
pub open spec fn int_result(op: Binop, a: i64, b: i64) -> Option<RtVal> {
    match op {
        Binop::Equal => Some(RtVal::Bool { v: a == b }),
        Binop::NotEqual => Some(RtVal::Bool { v: a != b }),
        Binop::Less => Some(RtVal::Bool { v: a < b }),
        Binop::Greater => Some(RtVal::Bool { v: a > b }),
        _ => match int_arith(op, a, b) {
            Some(v) => Some(RtVal::Integer { v }),
            None => None,
        },
    }
}

/// The result of a boolean instruction; `or` computes the conjunction, as the
/// runtime does.
pub open spec fn bool_result(op: Binop, a: bool, b: bool) -> RtVal {
    match op {
        Binop::Equal => RtVal::Bool { v: a == b },
        Binop::NotEqual => RtVal::Bool { v: a != b },
        _ => RtVal::Bool { v: a && b },
    }
}

/// The live string a value refers to.
pub open spec fn live_str(s: RtState, v: RtVal) -> Option<Seq<char>> {
    match v {
        RtVal::Str { at: Some(i) } => if i < s.heap.len() && s.heap[i as int] is Some {
            s.heap[i as int]
        } else {
            None
        },
        _ => None,
    }
}

/// The state with a new string allocated and a reference to it pushed.
pub open spec fn push_new_str(s: RtState, t: Seq<char>) -> Effect {
    push_op(RtState { heap: s.heap.push(Some(t)), ..s }, RtVal::Str { at: Some(s.heap.len() as usize) })
}

/// The live object a value points to: its index and fields.
pub open spec fn live_obj(s: RtState, v: RtVal) -> Option<(usize, Seq<RtVal>)> {
    match v {
        RtVal::Ptr { obj: Some(o) } => if o < s.objs.len() && s.objs[o as int] is Some {
            Some((o, s.objs[o as int]->Some_0))
        } else {
            None
        },
        _ => None,
    }
}

/// The fields of an object made by `New` with word `w`, whose low 32 bits count the
/// fields. Each starts as the integer 0, all but the last: the runtime writes the
/// first of its fresh values over the allocation's header, so the last field is never
/// written and reading it reads nothing defined.
pub open spec fn new_fields(w: u64) -> Seq<RtVal> {
    let fc = (w % 0x1_0000_0000) as int;
    Seq::new(
        if fc > 0 {
            (fc - 1) as nat
        } else {
            0
        },
        |i: int| RtVal::Integer { v: 0 },
    )
}

/// What the instruction `i` does, the instruction pointer being past its code.
pub open spec fn instr_effect(s: RtState, i: Instr) -> Effect {
    match i {
        Instr::Jmp => match take_word(s) {
            Some((s1, w)) => Effect::Next(RtState { ip: w as usize, ..s1 }, RtStep::Continue),
            None => Effect::Stuck,
        },
        Instr::JmpCond => match pop_op(s) {
            Some((s1, RtVal::Bool { v })) => match take_word(s1) {
                Some((s2, w)) => Effect::Next(
                    if v {
                        RtState { ip: w as usize, ..s2 }
                    } else {
                        s2
                    },
                    RtStep::Continue,
                ),
                None => Effect::Stuck,
            },
            _ => Effect::Stuck,
        },
        Instr::Call => match take_word(s) {
            Some((s1, w)) => if s1.rets.len() >= STACK_SLOTS {
                Effect::Stuck
            } else {
                Effect::Next(
                    RtState {
                        rets: s1.rets.push(RetInfo { ip: s1.ip, var_sp: s1.sp, var_bp: s1.bp }),
                        bp: s1.sp,
                        ip: w as usize,
                        ..s1
                    },
                    RtStep::Continue,
                )
            },
            None => Effect::Stuck,
        },
        Instr::Ret => if s.rets.len() == 0 {
            match pop_op(s) {
                Some((s1, v)) => Effect::Halt(s1, v),
                None => Effect::Stuck,
            }
        } else {
            let r = s.rets.last();
            Effect::Next(
                RtState { rets: s.rets.drop_last(), ip: r.ip, sp: r.var_sp, bp: r.var_bp, ..s },
                RtStep::Continue,
            )
        },
        Instr::DefLocalVoid | Instr::DefLocalInt | Instr::DefLocalFloat | Instr::DefLocalBool
        | Instr::DefLocalPtr | Instr::DefLocalStr => if s.sp >= STACK_SLOTS {
            Effect::Stuck
        } else {
            Effect::Next(
                RtState { vars: s.vars.update(s.sp as int, fresh_value(i)), sp: (s.sp + 1) as usize, ..s },
                RtStep::Continue,
            )
        },
        Instr::LoadVoid | Instr::LoadInt | Instr::LoadFloat | Instr::LoadBool | Instr::LoadPtr
        | Instr::LoadStr => match take_word(s) {
            Some((s1, w)) => match slot_of(s1, w) {
                Some(a) => push_op(s1, s1.vars[a as int]),
                None => Effect::Stuck,
            },
            None => Effect::Stuck,
        },
        Instr::LoadVarAddr => match take_word(s) {
            Some((s1, w)) => match slot_of(s1, w) {
                Some(a) => push_op(s1, RtVal::LValue { at: a }),
                None => Effect::Stuck,
            },
            None => Effect::Stuck,
        },
        Instr::StoreVoid | Instr::StoreInt | Instr::StoreFloat | Instr::StoreBool | Instr::StorePtr
        | Instr::StoreStr => match pop_op(s) {
            Some((s1, RtVal::LValue { at })) => match pop_op(s1) {
                Some((s2, o)) => if at < s2.vars.len() && tag_of(s2.vars[at as int]) == store_tag(i) && tag_of(o)
                    == store_tag(i) {
                    Effect::Next(RtState { vars: s2.vars.update(at as int, o), ..s2 }, RtStep::Continue)
                } else {
                    Effect::Stuck
                },
                None => Effect::Stuck,
            },
            Some((s1, RtVal::Field { obj, idx })) => match pop_op(s1) {
                Some((s2, o)) => if obj < s2.objs.len() && s2.objs[obj as int] is Some && idx
                    < s2.objs[obj as int]->Some_0.len() && tag_of(s2.objs[obj as int]->Some_0[idx as int])
                    == store_tag(i) && tag_of(o) == store_tag(i) {
                    Effect::Next(
                        RtState {
                            objs: s2.objs.update(
                                obj as int,
                                Some(s2.objs[obj as int]->Some_0.update(idx as int, o)),
                            ),
                            ..s2
                        },
                        RtStep::Continue,
                    )
                } else {
                    Effect::Stuck
                },
                None => Effect::Stuck,
            },
            _ => Effect::Stuck,
        },
        Instr::New => match take_word(s) {
            Some((s1, w)) => push_op(
                RtState { objs: s1.objs.push(Some(new_fields(w))), ..s1 },
                RtVal::Ptr { obj: Some(s1.objs.len() as usize) },
            ),
            None => Effect::Stuck,
        },
        Instr::LoadMember | Instr::LoadMemberAddr => match pop_op(s) {
            Some((s1, p)) => match (live_obj(s1, p), take_word(s1)) {
                (Some((o, fs)), Some((s2, w))) => if (w as usize) < fs.len() {
                    push_op(
                        s2,
                        match i {
                            Instr::LoadMember => fs[(w as usize) as int],
                            _ => RtVal::Field { obj: o, idx: w as usize },
                        },
                    )
                } else {
                    Effect::Stuck
                },
                _ => Effect::Stuck,
            },
            None => Effect::Stuck,
        },
        Instr::ConstVoid | Instr::ConstInt | Instr::ConstFloat | Instr::ConstBool => match take_word(s) {
            Some((s1, w)) => push_op(
                s1,
                match i {
                    Instr::ConstVoid => RtVal::Void,
                    Instr::ConstInt => RtVal::Integer { v: w as i64 },
                    Instr::ConstFloat => RtVal::Float { bits: w },
                    _ => RtVal::Bool { v: w != 0 },
                },
            ),
            None => Effect::Stuck,
        },
        Instr::ConstStr => match take_word(s) {
            Some((s1, w)) => if (w as usize) < s1.strings.len() {
                push_new_str(s1, s1.strings[(w as usize) as int])
            } else {
                Effect::Stuck
            },
            None => Effect::Stuck,
        },
        Instr::IntAdd | Instr::IntSub | Instr::IntMul | Instr::IntDiv | Instr::IntEq | Instr::IntNEq
        | Instr::IntLess | Instr::IntGreater => match pop_op(s) {
            Some((s1, RtVal::Integer { v: b })) => match pop_op(s1) {
                Some((s2, RtVal::Integer { v: a })) => match int_result(op_of(i), a, b) {
                    Some(v) => push_op(s2, v),
                    None => Effect::Stuck,
                },
                _ => Effect::Stuck,
            },
            _ => Effect::Stuck,
        },
        Instr::FloatAdd | Instr::FloatSub | Instr::FloatMul | Instr::FloatDiv | Instr::FloatEq
        | Instr::FloatNeq | Instr::FloatLess | Instr::FloatGreater => match pop_op(s) {
            Some((s1, RtVal::Float { bits: b })) => match pop_op(s1) {
                Some((s2, RtVal::Float { bits: a })) => Effect::Next(s2, RtStep::Float { op: op_of(i), l: a, r: b }),
                _ => Effect::Stuck,
            },
            _ => Effect::Stuck,
        },
        Instr::BoolEq | Instr::BoolNeq | Instr::BoolAnd | Instr::BoolOr => match pop_op(s) {
            Some((s1, RtVal::Bool { v: b })) => match pop_op(s1) {
                Some((s2, RtVal::Bool { v: a })) => push_op(s2, bool_result(op_of(i), a, b)),
                _ => Effect::Stuck,
            },
            _ => Effect::Stuck,
        },
        Instr::StrAdd | Instr::StrEq | Instr::StrNeq => match pop_op(s) {
            Some((s1, r)) => match pop_op(s1) {
                Some((s2, l)) => match (live_str(s2, l), live_str(s2, r)) {
                    (Some(a), Some(b)) => match i {
                        Instr::StrAdd => push_new_str(s2, a + b),
                        Instr::StrEq => push_op(s2, RtVal::Bool { v: a == b }),
                        _ => push_op(s2, RtVal::Bool { v: a != b }),
                    },
                    _ => Effect::Stuck,
                },
                None => Effect::Stuck,
            },
            None => Effect::Stuck,
        },
        _ => Effect::Stuck,
    }
}

/// The slots the collector starts from: the variable stack up to its top, and the
/// operand stack.
pub open spec fn roots(s: RtState) -> Seq<RtVal> {
    s.vars.take(s.sp as int) + s.ops
}

/// Some root refers to heap entry `i`.
pub open spec fn referred(s: RtState, i: int) -> bool {
    exists|k: int| 0 <= k < roots(s).len() && #[trigger] roots(s)[k] == (RtVal::Str { at: Some(i as usize) })
}

/// Some root points to object `o`.
pub open spec fn obj_referred(s: RtState, o: int) -> bool {
    exists|k: int| 0 <= k < roots(s).len() && #[trigger] roots(s)[k] == (RtVal::Ptr { obj: Some(o as usize) })
}

/// Every string and object a root refers to is live (else marking it reads freed
/// memory).
pub open spec fn roots_live(s: RtState) -> bool {
    forall|k: int|
        0 <= k < roots(s).len() ==> match #[trigger] roots(s)[k] {
            RtVal::Str { at: Some(i) } => i < s.heap.len() && s.heap[i as int] is Some,
            RtVal::Ptr { obj: Some(o) } => o < s.objs.len() && s.objs[o as int] is Some,
            _ => true,
        }
}

/// The state after collection: the strings and the objects that no root refers to
/// are freed. The fields of an object keep nothing alive: the header that would count
/// them was written over when the object was made (see `new_fields`), so the collector
/// visits none of them.
pub open spec fn collected(s: RtState) -> RtState {
    RtState {
        heap: Seq::new(
            s.heap.len(),
            |i: int|
                if referred(s, i) {
                    s.heap[i]
                } else {
                    None
                },
        ),
        objs: Seq::new(
            s.objs.len(),
            |o: int|
                if obj_referred(s, o) {
                    s.objs[o]
                } else {
                    None
                },
        ),
        ..s
    }
}

/// A step of the runtime: the instruction at the instruction pointer runs, and unless
/// the program returned, the collector runs after it.
pub enum RtStepV {
    Stuck,
    Step(RtState, RtStep),
}

pub open spec fn rt_step(s: RtState) -> RtStepV {
    if s.ip >= s.code.len() {
        RtStepV::Stuck
    } else {
        match instr_of(s.code[s.ip as int]) {
            None => RtStepV::Stuck,
            Some(i) => match instr_effect(RtState { ip: (s.ip + 1) as usize, ..s }, i) {
                Effect::Stuck => RtStepV::Stuck,
                Effect::Halt(s1, v) => RtStepV::Step(s1, RtStep::Returned { value: v }),
                Effect::Next(s1, o) => if roots_live(s1) && s1.sp <= s1.vars.len() {
                    RtStepV::Step(collected(s1), o)
                } else {
                    RtStepV::Stuck
                },
            },
        }
    }
}

/// The state of a runtime loaded from a compiled image: the bytecode, the instruction
/// pointer at `main`, all slots of the variable stack holding the integer 0, empty
/// stacks and heaps, and the image's string constants.
pub open spec fn loaded(code: Seq<u8>, start: usize, strings: Seq<Seq<char>>) -> RtState {
    RtState {
        ops: seq![],
        code,
        ip: start,
        vars: Seq::new(STACK_SLOTS as nat, |i: int| RtVal::Integer { v: 0 }),
        sp: 0,
        bp: 0,
        rets: seq![],
        heap: seq![],
        strings,
        objs: seq![],
    }
}

fn copy_fields(v: &Vec<RtVal>) -> (r: Vec<RtVal>)
    ensures
        r@ == v@,
{
    let mut r: Vec<RtVal> = Vec::new();
    let mut k: usize = 0;
    while k < v.len()
        invariant
            k <= v@.len(),
            r@ == v@.take(k as int),
        decreases v@.len() - k,
    {
        r.push(v[k]);
        k += 1;
        assert(r@ =~= v@.take(k as int));
    }
    assert(v@.take(k as int) =~= v@);
    r
}

fn fresh_value_exec(i: Instr) -> (r: RtVal)
    ensures
        r == fresh_value(i),
{
    match i {
        Instr::DefLocalVoid => RtVal::Void,
        Instr::DefLocalFloat => RtVal::Float { bits: 0 },
        Instr::DefLocalBool => RtVal::Bool { v: false },
        Instr::DefLocalPtr => RtVal::Ptr { obj: None },
        Instr::DefLocalStr => RtVal::Str { at: None },
        _ => RtVal::Integer { v: 0 },
    }
}

fn store_tag_exec(i: Instr) -> (r: Tag)
    ensures
        r == store_tag(i),
{
    match i {
        Instr::StoreVoid => Tag::Void,
        Instr::StoreInt => Tag::Integer,
        Instr::StoreFloat => Tag::Float,
        Instr::StoreBool => Tag::Bool,
        Instr::StorePtr => Tag::Ptr,
        _ => Tag::String,
    }
}

fn tag_of_exec(v: &RtVal) -> (r: Tag)
    ensures
        r == tag_of(*v),
{
    match v {
        RtVal::Void => Tag::Void,
        RtVal::Integer { .. } => Tag::Integer,
        RtVal::Float { .. } => Tag::Float,
        RtVal::Bool { .. } => Tag::Bool,
        RtVal::Str { .. } => Tag::String,
        RtVal::Ptr { .. } => Tag::Ptr,
        RtVal::LValue { .. } => Tag::LValue,
        RtVal::Field { .. } => Tag::LValue,
    }
}

fn op_of_exec(i: Instr) -> (r: Binop)
    ensures
        r == op_of(i),
{
    match i {
        Instr::IntAdd | Instr::FloatAdd => Binop::Add,
        Instr::IntSub | Instr::FloatSub => Binop::Sub,
        Instr::IntMul | Instr::FloatMul => Binop::Mul,
        Instr::IntDiv | Instr::FloatDiv => Binop::Div,
        Instr::IntEq | Instr::FloatEq | Instr::BoolEq | Instr::StrEq => Binop::Equal,
        Instr::IntNEq | Instr::FloatNeq | Instr::BoolNeq | Instr::StrNeq => Binop::NotEqual,
        Instr::IntLess | Instr::FloatLess => Binop::Less,
        Instr::IntGreater | Instr::FloatGreater => Binop::Greater,
        Instr::BoolAnd => Binop::And,
        _ => Binop::Or,
    }
}

fn int_result_exec(op: Binop, a: i64, b: i64) -> (r: Option<RtVal>)
    ensures
        r == int_result(op, a, b),
{
    match op {
        Binop::Equal => Some(RtVal::Bool { v: a == b }),
        Binop::NotEqual => Some(RtVal::Bool { v: a != b }),
        Binop::Less => Some(RtVal::Bool { v: a < b }),
        Binop::Greater => Some(RtVal::Bool { v: a > b }),
        _ => match int_arith_exec(op, a, b) {
            Some(v) => Some(RtVal::Integer { v }),
            None => None,
        },
    }
}

fn bool_result_exec(op: Binop, a: bool, b: bool) -> (r: RtVal)
    ensures
        r == bool_result(op, a, b),
{
    match op {
        Binop::Equal => RtVal::Bool { v: a == b },
        Binop::NotEqual => RtVal::Bool { v: a != b },
        _ => RtVal::Bool { v: a && b },
    }
}

impl Rt {
    /// A runtime loaded from a compiled image (see `loaded`).
    pub fn new(image: RtImage) -> (r: Self)
        ensures
            r.wf(),
            !r.halted,
            r.state() == loaded(image.rt.data.iv@, image.start, image.rt.strings@.map_values(|t: String| t@)),
    {
        let mut vars: Vec<RtVal> = Vec::new();
        let mut k: usize = 0;
        while k < STACK_SLOTS
            invariant
                k <= STACK_SLOTS,
                vars@ == Seq::new(k as nat, |i: int| RtVal::Integer { v: 0 }),
            decreases STACK_SLOTS - k,
        {
            vars.push(RtVal::Integer { v: 0 });
            k += 1;
            assert(vars@ =~= Seq::new(k as nat, |i: int| RtVal::Integer { v: 0 }));
        }
        let r = Rt {
            op_stack: Vec::new(),
            instructions: image.rt.data.iv,
            ip: image.start,
            var_stack: vars,
            var_stack_ptr: 0,
            var_base_ptr: 0,
            ret_info: Vec::new(),
            halted: false,
            symbol_table: image.rt.symbol_table,
            heap: Vec::new(),
            strings: image.rt.strings,
            objects: Vec::new(),
        };
        assert(r.state().heap =~= seq![]);
        assert(r.state().objs =~= seq![]);
        r
    }

    /// Pushes a value, such as the result of a float operation that a step handed out.
    pub fn push_value(&mut self, v: RtVal)
        requires
            old(self).wf(),
            old(self).op_stack@.len() < STACK_SLOTS,
        ensures
            final(self).symbol_table == old(self).symbol_table,
            final(self).wf(),
            final(self).halted == old(self).halted,
            push_op(old(self).state(), v) == Effect::Next(final(self).state(), RtStep::Continue),
    {
        self.op_stack.push(v);
    }

    fn word(&mut self) -> (w: u64)
        requires
            old(self).ip + 8 <= old(self).instructions@.len(),
        ensures
            final(self).symbol_table == old(self).symbol_table,
            take_word(old(self).state()) == Some((final(self).state(), w)),
            final(self).halted == old(self).halted,
            final(self).var_stack@.len() == old(self).var_stack@.len(),
            final(self).op_stack@.len() == old(self).op_stack@.len(),
            final(self).ret_info@.len() == old(self).ret_info@.len(),
            final(self).var_stack_ptr == old(self).var_stack_ptr,
    {
        let n = self.instructions.len();
        let w = read_word(&self.instructions, self.ip);
        assert(self.ip + 8 <= n);
        self.ip = self.ip + 8;
        w
    }

    fn pop_val(&mut self) -> (v: RtVal)
        requires
            old(self).op_stack@.len() > 0,
        ensures
            final(self).symbol_table == old(self).symbol_table,
            pop_op(old(self).state()) == Some((final(self).state(), v)),
            final(self).halted == old(self).halted,
            final(self).var_stack@.len() == old(self).var_stack@.len(),
            final(self).op_stack@.len() == old(self).op_stack@.len() - 1,
            final(self).ret_info@.len() == old(self).ret_info@.len(),
            final(self).var_stack_ptr == old(self).var_stack_ptr,
    {
        match self.op_stack.pop() {
            Some(v) => v,
            None => RtVal::Void,
        }
    }
}

impl Rt {
    /// Jumps, calls and returns (see `instr_effect`).
    fn run_control(&mut self, i: Instr) -> (r: RtStep)
        requires
            old(self).wf(),
            i == Instr::Jmp || i == Instr::JmpCond || i == Instr::Call || i == Instr::Ret,
            !(instr_effect(old(self).state(), i) is Stuck),
        ensures
            final(self).symbol_table == old(self).symbol_table,
            final(self).wf(),
            final(self).halted == old(self).halted,
            match instr_effect(old(self).state(), i) {
                Effect::Next(s, o) => final(self).state() == s && r == o,
                Effect::Halt(s, v) => final(self).state() == s && r == (RtStep::Returned { value: v }),
                Effect::Stuck => false,
            },
    {
        match i {
            Instr::Jmp => {
                let w = self.word();
                self.ip = w as usize;
                RtStep::Continue
            },
            Instr::JmpCond => {
                let c = self.pop_val();
                let w = self.word();
                match c {
                    RtVal::Bool { v } => {
                        if v {
                            self.ip = w as usize;
                        }
                    },
                    _ => {},
                }
                RtStep::Continue
            },
            Instr::Call => {
                let w = self.word();
                let r = RetInfo { ip: self.ip, var_sp: self.var_stack_ptr, var_bp: self.var_base_ptr };
                self.ret_info.push(r);
                self.var_base_ptr = self.var_stack_ptr;
                self.ip = w as usize;
                RtStep::Continue
            },
            _ => {
                if self.ret_info.len() == 0 {
                    let v = self.pop_val();
                    RtStep::Returned { value: v }
                } else {
                    let r = match self.ret_info.pop() {
                        Some(r) => r,
                        None => RetInfo { ip: 0, var_sp: 0, var_bp: 0 },
                    };
                    self.ip = r.ip;
                    self.var_stack_ptr = r.var_sp;
                    self.var_base_ptr = r.var_bp;
                    RtStep::Continue
                }
            },
        }
    }

    /// Locals: new ones, loads, addresses and stores (see `instr_effect`).
    fn run_locals(&mut self, i: Instr) -> (r: RtStep)
        requires
            old(self).wf(),
            i == Instr::DefLocalVoid || i == Instr::DefLocalInt || i == Instr::DefLocalFloat || i
                == Instr::DefLocalBool || i == Instr::DefLocalPtr || i == Instr::DefLocalStr || i
                == Instr::LoadVoid || i == Instr::LoadInt || i == Instr::LoadFloat || i == Instr::LoadBool
                || i == Instr::LoadPtr || i == Instr::LoadStr || i == Instr::LoadVarAddr || i
                == Instr::StoreVoid || i == Instr::StoreInt || i == Instr::StoreFloat || i == Instr::StoreBool
                || i == Instr::StorePtr || i == Instr::StoreStr,
            !(instr_effect(old(self).state(), i) is Stuck),
        ensures
            final(self).symbol_table == old(self).symbol_table,
            final(self).wf(),
            final(self).halted == old(self).halted,
            match instr_effect(old(self).state(), i) {
                Effect::Next(s, o) => final(self).state() == s && r == o,
                Effect::Halt(s, v) => final(self).state() == s && r == (RtStep::Returned { value: v }),
                Effect::Stuck => false,
            },
    {
        match i {
            Instr::DefLocalVoid | Instr::DefLocalInt | Instr::DefLocalFloat | Instr::DefLocalBool
            | Instr::DefLocalPtr | Instr::DefLocalStr => {
                let v = fresh_value_exec(i);
                self.var_stack.set(self.var_stack_ptr, v);
                self.var_stack_ptr = self.var_stack_ptr + 1;
                RtStep::Continue
            },
            Instr::LoadVoid | Instr::LoadInt | Instr::LoadFloat | Instr::LoadBool | Instr::LoadPtr
            | Instr::LoadStr => {
                let w = self.word();
                let a = self.var_base_ptr + w as usize;
                let v = self.var_stack[a];
                self.op_stack.push(v);
                RtStep::Continue
            },
            Instr::LoadVarAddr => {
                let w = self.word();
                let a = self.var_base_ptr + w as usize;
                self.op_stack.push(RtVal::LValue { at: a });
                RtStep::Continue
            },
            _ => {
                let p = self.pop_val();
                let o = self.pop_val();
                match p {
                    RtVal::LValue { at } => {
                        self.var_stack.set(at, o);
                    },
                    RtVal::Field { obj, idx } => {
                        self.set_field(obj, idx, o);
                    },
                    _ => {},
                }
                RtStep::Continue
            },
        }
    }

    /// Writes field `idx` of live object `obj`.
    fn set_field(&mut self, obj: usize, idx: usize, v: RtVal)
        requires
            obj < old(self).objects@.len(),
            old(self).objects@[obj as int] is Some,
            idx < old(self).objects@[obj as int]->Some_0@.len(),
        ensures
            final(self).symbol_table == old(self).symbol_table,
            final(self).wf() == old(self).wf(),
            final(self).halted == old(self).halted,
            final(self).state() == (RtState {
                objs: old(self).state().objs.update(
                    obj as int,
                    Some(old(self).state().objs[obj as int]->Some_0.update(idx as int, v)),
                ),
                ..old(self).state()
            }),
    {
        let mut fields = match &self.objects[obj] {
            Some(fs) => copy_fields(fs),
            None => Vec::new(),
        };
        fields.set(idx, v);
        let ghost fv = fields@;
        self.objects.set(obj, Some(fields));
        assert(self.state().objs =~= old(self).state().objs.update(obj as int, Some(fv)));
    }

    /// Objects: making one, and loading a field or a field's address (see
    /// `instr_effect`).
    fn run_objects(&mut self, i: Instr) -> (r: RtStep)
        requires
            old(self).wf(),
            i == Instr::New || i == Instr::LoadMember || i == Instr::LoadMemberAddr,
            !(instr_effect(old(self).state(), i) is Stuck),
        ensures
            final(self).symbol_table == old(self).symbol_table,
            final(self).wf(),
            final(self).halted == old(self).halted,
            match instr_effect(old(self).state(), i) {
                Effect::Next(s, o) => final(self).state() == s && r == o,
                Effect::Halt(s, v) => final(self).state() == s && r == (RtStep::Returned { value: v }),
                Effect::Stuck => false,
            },
    {
        match i {
            Instr::New => {
                let w = self.word();
                let fc = w % 0x1_0000_0000u64;
                let n: usize = if fc > 0 {
                    (fc - 1) as usize
                } else {
                    0
                };
                let mut fields: Vec<RtVal> = Vec::new();
                let mut k: usize = 0;
                while k < n
                    invariant
                        k <= n,
                        fields@ == Seq::new(k as nat, |j: int| RtVal::Integer { v: 0 }),
                    decreases n - k,
                {
                    fields.push(RtVal::Integer { v: 0 });
                    k += 1;
                    assert(fields@ =~= Seq::new(k as nat, |j: int| RtVal::Integer { v: 0 }));
                }
                assert(fields@ =~= new_fields(w));
                let at = self.objects.len();
                let ghost s1 = self.state();
                self.objects.push(Some(fields));
                assert(self.state().objs =~= s1.objs.push(Some(new_fields(w))));
                self.op_stack.push(RtVal::Ptr { obj: Some(at) });
                RtStep::Continue
            },
            _ => {
                let p = self.pop_val();
                let w = self.word();
                match p {
                    RtVal::Ptr { obj: Some(o) } => {
                        let v = match &self.objects[o] {
                            Some(fs) => match i {
                                Instr::LoadMember => fs[w as usize],
                                _ => RtVal::Field { obj: o, idx: w as usize },
                            },
                            None => RtVal::Void,
                        };
                        self.op_stack.push(v);
                    },
                    _ => {},
                }
                RtStep::Continue
            },
        }
    }

    /// Constants (see `instr_effect`).
    fn run_consts(&mut self, i: Instr) -> (r: RtStep)
        requires
            old(self).wf(),
            i == Instr::ConstVoid || i == Instr::ConstInt || i == Instr::ConstFloat || i == Instr::ConstBool
                || i == Instr::ConstStr,
            !(instr_effect(old(self).state(), i) is Stuck),
        ensures
            final(self).symbol_table == old(self).symbol_table,
            final(self).wf(),
            final(self).halted == old(self).halted,
            match instr_effect(old(self).state(), i) {
                Effect::Next(s, o) => final(self).state() == s && r == o,
                Effect::Halt(s, v) => final(self).state() == s && r == (RtStep::Returned { value: v }),
                Effect::Stuck => false,
            },
    {
        let w = self.word();
        let v = match i {
            Instr::ConstVoid => RtVal::Void,
            Instr::ConstInt => RtVal::Integer { v: w as i64 },
            Instr::ConstFloat => RtVal::Float { bits: w },
            Instr::ConstBool => RtVal::Bool { v: w != 0 },
            _ => {
                let t = self.strings[w as usize].clone();
                let at = self.heap.len();
                let ghost h0 = self.heap@;
                self.heap.push(Some(t));
                assert(self.state().heap =~= old(self).state().heap.push(Some(t@)));
                RtVal::Str { at: Some(at) }
            },
        };
        self.op_stack.push(v);
        RtStep::Continue
    }

    /// The string a value refers to (see `live_str`).
    fn deref_str(&self, v: RtVal) -> (r: String)
        requires
            live_str(self.state(), v) is Some,
        ensures
            r@ == live_str(self.state(), v)->Some_0,
    {
        match v {
            RtVal::Str { at: Some(x) } => {
                assert(self.state().heap[x as int] == match self.heap@[x as int] {
                    Some(t) => Some(t@),
                    None => None,
                });
                match &self.heap[x] {
                    Some(t) => t.clone(),
                    None => String::new(),
                }
            },
            _ => String::new(),
        }
    }

    /// Integer, float, boolean and string operations (see `instr_effect`).
    fn run_ops(&mut self, i: Instr) -> (r: RtStep)
        requires
            old(self).wf(),
            i == Instr::IntAdd || i == Instr::IntSub || i == Instr::IntMul || i == Instr::IntDiv || i
                == Instr::IntEq || i == Instr::IntNEq || i == Instr::IntLess || i == Instr::IntGreater || i
                == Instr::FloatAdd || i == Instr::FloatSub || i == Instr::FloatMul || i == Instr::FloatDiv
                || i == Instr::FloatEq || i == Instr::FloatNeq || i == Instr::FloatLess || i
                == Instr::FloatGreater || i == Instr::BoolEq || i == Instr::BoolNeq || i == Instr::BoolAnd
                || i == Instr::BoolOr || i == Instr::StrAdd || i == Instr::StrEq || i == Instr::StrNeq,
            !(instr_effect(old(self).state(), i) is Stuck),
        ensures
            final(self).symbol_table == old(self).symbol_table,
            final(self).wf(),
            final(self).halted == old(self).halted,
            match instr_effect(old(self).state(), i) {
                Effect::Next(s, o) => final(self).state() == s && r == o,
                Effect::Halt(s, v) => final(self).state() == s && r == (RtStep::Returned { value: v }),
                Effect::Stuck => false,
            },
    {
        let op = op_of_exec(i);
        let r = self.pop_val();
        let l = self.pop_val();
        match (l, r) {
            (RtVal::Integer { v: a }, RtVal::Integer { v: b }) => {
                let v = match int_result_exec(op, a, b) {
                    Some(v) => v,
                    None => RtVal::Void,
                };
                self.op_stack.push(v);
                RtStep::Continue
            },
            (RtVal::Float { bits: a }, RtVal::Float { bits: b }) => RtStep::Float { op, l: a, r: b },
            (RtVal::Bool { v: a }, RtVal::Bool { v: b }) => {
                self.op_stack.push(bool_result_exec(op, a, b));
                RtStep::Continue
            },
            _ => {
                let a = self.deref_str(l);
                let b = self.deref_str(r);
                match i {
                    Instr::StrAdd => {
                        let mut c = a;
                        crate::text::push_str(&mut c, b.as_str());
                        let at = self.heap.len();
                        let ghost cv = c@;
                        self.heap.push(Some(c));
                        assert(self.state().heap =~= old(self).state().heap.push(Some(cv)));
                        self.op_stack.push(RtVal::Str { at: Some(at) });
                    },
                    Instr::StrEq => {
                        self.op_stack.push(RtVal::Bool { v: crate::text::str_equal(a.as_str(), b.as_str()) });
                    },
                    _ => {
                        self.op_stack.push(RtVal::Bool { v: !crate::text::str_equal(a.as_str(), b.as_str()) });
                    },
                }
                RtStep::Continue
            },
        }
    }
}

impl Rt {
    /// Frees the strings that no root refers to (see `collected`).
    fn collect(&mut self)
        requires
            old(self).wf(),
            roots_live(old(self).state()),
        ensures
            final(self).symbol_table == old(self).symbol_table,
            final(self).wf(),
            final(self).halted == old(self).halted,
            final(self).state() == collected(old(self).state()),
    {
        let ghost st0 = self.state();
        self.collect_objects();
        proof {
            let s2 = self.state();
            assert(roots(s2) == roots(st0));
            assert forall|k: int| 0 <= k < roots(s2).len() implies match #[trigger] roots(s2)[k] {
                RtVal::Str { at: Some(i) } => i < s2.heap.len() && s2.heap[i as int] is Some,
                RtVal::Ptr { obj: Some(o) } => o < s2.objs.len() && s2.objs[o as int] is Some,
                _ => true,
            } by {
                match roots(st0)[k] {
                    RtVal::Ptr { obj: Some(o) } => {
                        assert(obj_referred(st0, o as int));
                    },
                    _ => {},
                }
            }
        }
        let ghost objs1 = self.objects;
        let ghost st = self.state();
        let ghost rs = roots(st);
        let n = self.heap.len();
        let mut marks: Vec<bool> = Vec::new();
        let mut k: usize = 0;
        while k < n
            invariant
                self.symbol_table == old(self).symbol_table,
                k <= n,
                marks@.len() == k,
                forall|i: int| 0 <= i < k ==> !(#[trigger] marks@[i]),
            decreases n - k,
        {
            marks.push(false);
            k += 1;
        }
        let sp = self.var_stack_ptr;
        let total = sp + self.op_stack.len();
        assert(rs.len() == total);
        let mut k: usize = 0;
        while k < total
            invariant
                self.symbol_table == old(self).symbol_table,
                k <= total,
                total == rs.len(),
                sp == st.sp,
                rs == roots(st),
                st == self.state(),
                self.var_stack_ptr == sp,
                self.wf(),
                total == sp + self.op_stack@.len(),
                n == st.heap.len(),
                marks@.len() == n,
                roots_live(st),
                forall|i: int|
                    0 <= i < n ==> (#[trigger] marks@[i] <==> exists|j: int|
                        0 <= j < k && #[trigger] rs[j] == (RtVal::Str { at: Some(i as usize) })),
            decreases total - k,
        {
            let v = if k < sp {
                self.var_stack[k]
            } else {
                self.op_stack[k - sp]
            };
            assert(v == rs[k as int]);
            match v {
                RtVal::Str { at: Some(x) } => {
                    assert(x < n);
                    let ghost m0 = marks@;
                    marks.set(x, true);
                    assert forall|i: int| 0 <= i < n implies (#[trigger] marks@[i] <==> exists|j: int|
                        0 <= j < k + 1 && #[trigger] rs[j] == (RtVal::Str { at: Some(i as usize) })) by {
                        if i == x {
                            assert(rs[k as int] == (RtVal::Str { at: Some(i as usize) }));
                        } else {
                            if exists|j: int| 0 <= j < k + 1 && #[trigger] rs[j] == (RtVal::Str { at: Some(i as usize) }) {
                                let j = choose|j: int| 0 <= j < k + 1 && #[trigger] rs[j] == (RtVal::Str { at: Some(i as usize) });
                                assert(j != k);
                            }
                        }
                    }
                },
                _ => {
                    assert forall|i: int| 0 <= i < n implies (#[trigger] marks@[i] <==> exists|j: int|
                        0 <= j < k + 1 && #[trigger] rs[j] == (RtVal::Str { at: Some(i as usize) })) by {
                        if exists|j: int| 0 <= j < k + 1 && #[trigger] rs[j] == (RtVal::Str { at: Some(i as usize) }) {
                            let j = choose|j: int| 0 <= j < k + 1 && #[trigger] rs[j] == (RtVal::Str { at: Some(i as usize) });
                            assert(j != k);
                        }
                    }
                },
            }
            k += 1;
        }
        let mut i: usize = 0;
        while i < n
            invariant
                self.symbol_table == old(self).symbol_table,
                i <= n,
                n == st.heap.len(),
                self.objects == objs1,
                self.heap@.len() == n,
                marks@.len() == n,
                st.heap == old(self).state().heap,
                forall|j: int| 0 <= j < n ==> (#[trigger] marks@[j] <==> referred(st, j)),
                forall|j: int| 0 <= j < i ==> #[trigger] self.heap@[j] == (if marks@[j] { old(self).heap@[j] } else { None::<String> }),
                forall|j: int| i <= j < n ==> #[trigger] self.heap@[j] == old(self).heap@[j],
                self.op_stack == old(self).op_stack,
                self.var_stack == old(self).var_stack,
                self.ret_info == old(self).ret_info,
                self.instructions == old(self).instructions,
                self.strings == old(self).strings,
                self.ip == old(self).ip,
                self.var_stack_ptr == old(self).var_stack_ptr,
                self.var_base_ptr == old(self).var_base_ptr,
                self.halted == old(self).halted,
            decreases n - i,
        {
            if !marks[i] {
                self.heap.set(i, None);
            }
            i += 1;
        }
        assert(self.state().heap =~= collected(st).heap);
        assert(roots(st) == roots(st0));
        assert(collected(st).heap =~= collected(st0).heap);
        assert(self.state().objs == st.objs);
        assert(self.state() =~= collected(st0));
    }

    /// Frees the objects that no root points to (see `collected`).
    fn collect_objects(&mut self)
        requires
            old(self).wf(),
            roots_live(old(self).state()),
        ensures
            final(self).symbol_table == old(self).symbol_table,
            final(self).wf(),
            final(self).halted == old(self).halted,
            final(self).state() == (RtState { objs: collected(old(self).state()).objs, ..old(self).state() }),
            final(self).heap == old(self).heap,
            final(self).op_stack == old(self).op_stack,
            final(self).var_stack == old(self).var_stack,
            final(self).ret_info == old(self).ret_info,
            final(self).instructions == old(self).instructions,
            final(self).strings == old(self).strings,
            final(self).ip == old(self).ip,
            final(self).var_stack_ptr == old(self).var_stack_ptr,
            final(self).var_base_ptr == old(self).var_base_ptr,
    {
        let ghost st = self.state();
        let ghost rs = roots(st);
        let n = self.objects.len();
        let mut marks: Vec<bool> = Vec::new();
        let mut k: usize = 0;
        while k < n
            invariant
                k <= n,
                marks@.len() == k,
                forall|i: int| 0 <= i < k ==> !(#[trigger] marks@[i]),
            decreases n - k,
        {
            marks.push(false);
            k += 1;
        }
        let sp = self.var_stack_ptr;
        let total = sp + self.op_stack.len();
        assert(rs.len() == total);
        let mut k: usize = 0;
        while k < total
            invariant
                k <= total,
                total == rs.len(),
                sp == st.sp,
                rs == roots(st),
                st == self.state(),
                self.var_stack_ptr == sp,
                self.wf(),
                total == sp + self.op_stack@.len(),
                n == st.objs.len(),
                marks@.len() == n,
                roots_live(st),
                forall|i: int|
                    0 <= i < n ==> (#[trigger] marks@[i] <==> exists|j: int|
                        0 <= j < k && #[trigger] rs[j] == (RtVal::Ptr { obj: Some(i as usize) })),
            decreases total - k,
        {
            let v = if k < sp {
                self.var_stack[k]
            } else {
                self.op_stack[k - sp]
            };
            assert(v == rs[k as int]);
            match v {
                RtVal::Ptr { obj: Some(x) } => {
                    assert(x < n);
                    marks.set(x, true);
                    assert forall|i: int| 0 <= i < n implies (#[trigger] marks@[i] <==> exists|j: int|
                        0 <= j < k + 1 && #[trigger] rs[j] == (RtVal::Ptr { obj: Some(i as usize) })) by {
                        if i == x {
                            assert(rs[k as int] == (RtVal::Ptr { obj: Some(i as usize) }));
                        } else {
                            if exists|j: int| 0 <= j < k + 1 && #[trigger] rs[j] == (RtVal::Ptr { obj: Some(i as usize) }) {
                                let j = choose|j: int| 0 <= j < k + 1 && #[trigger] rs[j] == (RtVal::Ptr { obj: Some(i as usize) });
                                assert(j != k);
                            }
                        }
                    }
                },
                _ => {
                    assert forall|i: int| 0 <= i < n implies (#[trigger] marks@[i] <==> exists|j: int|
                        0 <= j < k + 1 && #[trigger] rs[j] == (RtVal::Ptr { obj: Some(i as usize) })) by {
                        if exists|j: int| 0 <= j < k + 1 && #[trigger] rs[j] == (RtVal::Ptr { obj: Some(i as usize) }) {
                            let j = choose|j: int| 0 <= j < k + 1 && #[trigger] rs[j] == (RtVal::Ptr { obj: Some(i as usize) });
                            assert(j != k);
                        }
                    }
                },
            }
            k += 1;
        }
        let mut i: usize = 0;
        while i < n
            invariant
                self.symbol_table == old(self).symbol_table,
                i <= n,
                n == st.objs.len(),
                self.objects@.len() == n,
                marks@.len() == n,
                st == old(self).state(),
                forall|j: int| 0 <= j < n ==> (#[trigger] marks@[j] <==> obj_referred(st, j)),
                forall|j: int| 0 <= j < i ==> #[trigger] self.objects@[j] == (if marks@[j] { old(self).objects@[j] } else { None::<Vec<RtVal>> }),
                forall|j: int| i <= j < n ==> #[trigger] self.objects@[j] == old(self).objects@[j],
                self.op_stack == old(self).op_stack,
                self.var_stack == old(self).var_stack,
                self.ret_info == old(self).ret_info,
                self.instructions == old(self).instructions,
                self.strings == old(self).strings,
                self.heap == old(self).heap,
                self.ip == old(self).ip,
                self.var_stack_ptr == old(self).var_stack_ptr,
                self.var_base_ptr == old(self).var_base_ptr,
                self.halted == old(self).halted,
            decreases n - i,
        {
            if !marks[i] {
                self.objects.set(i, None);
            }
            i += 1;
        }
        assert(self.state().objs =~= collected(st).objs);
        assert(self.state() =~= (RtState { objs: collected(st).objs, ..st }));
    }

    /// Runs the instruction at the instruction pointer and, unless the program
    /// returned, the collector (see `rt_step`). A float operation comes back as
    /// `RtStep::Float`: the caller computes it and pushes the result with `push_value`.
    pub fn step(&mut self) -> (r: RtStep)
        requires
            old(self).wf(),
            !(rt_step(old(self).state()) is Stuck),
        ensures
            final(self).symbol_table == old(self).symbol_table,
            final(self).wf(),
            match rt_step(old(self).state()) {
                RtStepV::Step(s, o) => final(self).state() == s && r == o,
                RtStepV::Stuck => false,
            },
            final(self).halted == (old(self).halted || r is Returned),
    {
        let n = self.instructions.len();
        let b = self.instructions[self.ip];
        assert(self.ip < n);
        let i = match decode_instr(b) {
            Some(i) => i,
            None => {
                return RtStep::Continue;
            },
        };
        self.ip = self.ip + 1;
        let r = match i {
            Instr::Jmp | Instr::JmpCond | Instr::Call | Instr::Ret => self.run_control(i),
            Instr::DefLocalVoid | Instr::DefLocalInt | Instr::DefLocalFloat | Instr::DefLocalBool
            | Instr::DefLocalPtr | Instr::DefLocalStr | Instr::LoadVoid | Instr::LoadInt | Instr::LoadFloat
            | Instr::LoadBool | Instr::LoadPtr | Instr::LoadStr | Instr::LoadVarAddr | Instr::StoreVoid
            | Instr::StoreInt | Instr::StoreFloat | Instr::StoreBool | Instr::StorePtr | Instr::StoreStr => {
                self.run_locals(i)
            },
            Instr::ConstVoid | Instr::ConstInt | Instr::ConstFloat | Instr::ConstBool | Instr::ConstStr => {
                self.run_consts(i)
            },
            Instr::New | Instr::LoadMember | Instr::LoadMemberAddr => self.run_objects(i),
            Instr::CallObj | Instr::ConstPtr => {
                return RtStep::Continue;
            },
            _ => self.run_ops(i),
        };
        match r {
            RtStep::Returned { .. } => {
                self.halted = true;
            },
            _ => {
                self.collect();
            },
        }
        r
    }
}

/// The collector keeps every string that a root refers to and frees every other one.
pub proof fn law_collect_frees_exactly_the_unreferred(s: RtState, i: int)
    requires
        0 <= i < s.heap.len(),
    ensures
        referred(s, i) ==> collected(s).heap[i] == s.heap[i],
        !referred(s, i) ==> collected(s).heap[i] is None,
        collected(s).heap.len() == s.heap.len(),
{
}

/// After a step that does not end the program, every string that a live slot refers
/// to is still on the heap: the collector frees no string in use.
pub proof fn law_step_keeps_referred_strings(s: RtState)
    requires
        rt_step(s) matches RtStepV::Step(_, o) && !(o is Returned),
    ensures
        rt_step(s) matches RtStepV::Step(s2, _) && roots_live(s2),
{
    let i = instr_of(s.code[s.ip as int])->Some_0;
    let s1 = instr_effect(RtState { ip: (s.ip + 1) as usize, ..s }, i)->Next_0;
    let s2 = collected(s1);
    assert(roots(s2) == roots(s1));
    assert forall|k: int| 0 <= k < roots(s2).len() implies match #[trigger] roots(s2)[k] {
        RtVal::Str { at: Some(x) } => x < s2.heap.len() && s2.heap[x as int] is Some,
        _ => true,
    } by {
        match roots(s1)[k] {
            RtVal::Str { at: Some(x) } => {
                assert(referred(s1, x as int));
            },
            _ => {},
        }
    }
}

/// A call pushes the frame to return to: the instruction after the call's word, and
/// the variable stack's top and base; the new frame starts at the old top.
pub proof fn law_call_pushes_frame(s: RtState)
    requires
        s.code.len() <= usize::MAX,
        s.ip < s.code.len(),
        instr_of(s.code[s.ip as int]) == Some(Instr::Call),
        rt_step(s) matches RtStepV::Step(_, _),
    ensures
        rt_step(s) matches RtStepV::Step(s1, o) && o == RtStep::Continue && s1.rets == s.rets.push(
            RetInfo { ip: (s.ip + 9) as usize, var_sp: s.sp, var_bp: s.bp },
        ) && s1.bp == s.sp && s1.sp == s.sp,
{
    let s0 = RtState { ip: (s.ip + 1) as usize, ..s };
    assert(take_word(s0) is Some);
    let (s1, w) = take_word(s0)->Some_0;
    assert(s1.ip == s.ip + 9);
    assert(s1.rets == s.rets && s1.sp == s.sp && s1.bp == s.bp);
}

/// A return inside a call restores the frame on top of the return stack and pops it.
pub proof fn law_ret_restores_frame(s: RtState)
    requires
        s.ip < s.code.len(),
        instr_of(s.code[s.ip as int]) == Some(Instr::Ret),
        s.rets.len() > 0,
        rt_step(s) matches RtStepV::Step(_, _),
    ensures
        rt_step(s) matches RtStepV::Step(s1, o) && o == RtStep::Continue && s1.ip == s.rets.last().ip
            && s1.sp == s.rets.last().var_sp && s1.bp == s.rets.last().var_bp && s1.rets
            == s.rets.drop_last(),
{
}

/// Every other instruction leaves the return stack and the frame's base alone, so a
/// return matched to a call, with balanced calls and returns between, finds the frame
/// that call pushed.
pub proof fn law_other_steps_keep_frames(s: RtState)
    requires
        s.ip < s.code.len(),
        instr_of(s.code[s.ip as int]) != Some(Instr::Call),
        instr_of(s.code[s.ip as int]) != Some(Instr::Ret),
        rt_step(s) matches RtStepV::Step(_, _),
    ensures
        rt_step(s) matches RtStepV::Step(s1, _) && s1.rets == s.rets && s1.bp == s.bp,
{
}

/// A field stored through its address is what loading the field then gives.
pub proof fn law_field_store_then_load(s: RtState, i: Instr, obj: usize, idx: usize, v: RtVal, t: RtState, w: u64)
    requires
        i == Instr::StoreVoid || i == Instr::StoreInt || i == Instr::StoreFloat || i == Instr::StoreBool
            || i == Instr::StorePtr || i == Instr::StoreStr,
        s.ops.len() >= 2,
        s.ops.last() == (RtVal::Field { obj, idx }),
        s.ops[s.ops.len() - 2] == v,
        instr_effect(s, i) matches Effect::Next(s2, _) && t.objs == s2.objs,
        t.ops.len() > 0,
        t.ops.last() == (RtVal::Ptr { obj: Some(obj) }),
        take_word(t) matches Some((_, w2)) && w2 == w,
        w as usize == idx,
    ensures
        instr_effect(t, Instr::LoadMember) matches Effect::Next(t2, _) ==> t2.ops.last() == v,
        instr_effect(t, Instr::LoadMember) is Stuck ==> t.ops.len() >= STACK_SLOTS + 1,
{
}

/// The state after `n` steps that each went on to the next instruction (`None` where
/// one did not).
pub open spec fn run_steps(s: RtState, n: nat) -> Option<RtState>
    decreases n,
{
    if n == 0 {
        Some(s)
    } else {
        match run_steps(s, (n - 1) as nat) {
            Some(u) => match rt_step(u) {
                RtStepV::Step(u2, RtStep::Continue) => Some(u2),
                _ => None,
            },
            None => None,
        }
    }
}

/// A step keeps the bytecode, and pushes one frame, pops one, or keeps the return stack.
proof fn lemma_step_frames(u: RtState)
    requires
        u.code.len() <= usize::MAX,
        rt_step(u) matches RtStepV::Step(_, o) && o == RtStep::Continue,
    ensures
        rt_step(u) matches RtStepV::Step(u2, _) && u2.code == u.code && (u2.rets == u.rets || (u.rets.len() > 0
            && u2.rets == u.rets.drop_last()) || u2.rets.drop_last() == u.rets && u2.rets.len() == u.rets.len() + 1),
{
    let i = instr_of(u.code[u.ip as int]);
    if i == Some(Instr::Call) {
        law_call_pushes_frame(u);
    } else if i == Some(Instr::Ret) {
        if u.rets.len() > 0 {
            law_ret_restores_frame(u);
        }
    } else {
        law_other_steps_keep_frames(u);
    }
}

/// While calls stay nested deeper than a frame, that frame and those below it stay as
/// they were.
proof fn lemma_frames_kept(s1: RtState, d: int, n: nat)
    requires
        s1.code.len() <= usize::MAX,
        0 <= d < s1.rets.len(),
        run_steps(s1, n) is Some,
        forall|m: nat| m <= n ==> (#[trigger] run_steps(s1, m) matches Some(u) && u.rets.len() > d),
    ensures
        run_steps(s1, n)->Some_0.rets.take(d + 1) == s1.rets.take(d + 1),
        run_steps(s1, n)->Some_0.code == s1.code,
    decreases n,
{
    if n > 0 {
        let m = (n - 1) as nat;
        assert(run_steps(s1, m) is Some);
        lemma_frames_kept(s1, d, m);
        let u = run_steps(s1, m)->Some_0;
        lemma_step_frames(u);
        let u2 = run_steps(s1, n)->Some_0;
        assert(run_steps(s1, n) matches Some(v) && v.rets.len() > d);
        if u2.rets.len() == u.rets.len() + 1 {
            assert(u2.rets.take(d + 1) =~= u2.rets.drop_last().take(d + 1));
        } else if u2.rets != u.rets {
            assert(u2.rets.take(d + 1) =~= u.rets.take(d + 1));
        }
    }
}

/// A call and the return that matches it: when the call at instruction `s.ip` is
/// followed by `n` steps during which calls stay nested inside it, and then by a
/// return with only the call's frame left above the caller's, that return goes back to
/// the instruction after the call's word with the caller's stack top, base and return
/// stack.
pub proof fn law_call_then_matching_return(s: RtState, n: nat)
    requires
        s.code.len() <= usize::MAX,
        s.ip < s.code.len(),
        instr_of(s.code[s.ip as int]) == Some(Instr::Call),
        rt_step(s) matches RtStepV::Step(s1, o) && o == RtStep::Continue && run_steps(s1, n) is Some && (
        forall|m: nat| m <= n ==> (#[trigger] run_steps(s1, m) matches Some(u) && u.rets.len() > s.rets.len())),
        rt_step(s) matches RtStepV::Step(s1, _) && run_steps(s1, n) matches Some(t) && t.rets.len() == s.rets.len()
            + 1 && t.ip < t.code.len() && instr_of(t.code[t.ip as int]) == Some(Instr::Ret) && rt_step(t) is Step,
    ensures
        rt_step(s) matches RtStepV::Step(s1, _) && run_steps(s1, n) matches Some(t) && rt_step(t) matches RtStepV::Step(
            t2,
            o2,
        ) && o2 == RtStep::Continue && t2.ip == s.ip + 9 && t2.sp == s.sp && t2.bp == s.bp && t2.rets == s.rets,
{
    law_call_pushes_frame(s);
    let s1 = rt_step(s)->Step_0;
    let d = s.rets.len() as int;
    lemma_frames_kept(s1, d, n);
    let t = run_steps(s1, n)->Some_0;
    assert(t.rets =~= t.rets.take(d + 1));
    assert(s1.rets.take(d + 1) =~= s1.rets);
    law_ret_restores_frame(t);
    assert(s1.rets.drop_last() =~= s.rets);
}

/// What an integer instruction should push, the left operand `a` having been pushed
/// before the right one `b`: the comparisons give `a == b`, `a != b`, `a < b` and
/// `a > b`; addition, subtraction and multiplication give `a + b`, `a - b` and `a * b`
/// when it fits in 64 bits, and nothing otherwise.
pub open spec fn int_instr_value(i: Instr, a: i64, b: i64) -> Option<RtVal> {
    match i {
        Instr::IntEq => Some(RtVal::Bool { v: a == b }),
        Instr::IntNEq => Some(RtVal::Bool { v: a != b }),
        Instr::IntLess => Some(RtVal::Bool { v: a < b }),
        Instr::IntGreater => Some(RtVal::Bool { v: a > b }),
        Instr::IntAdd => if i64::MIN <= a + b <= i64::MAX { Some(RtVal::Integer { v: (a + b) as i64 }) } else { None },
        Instr::IntSub => if i64::MIN <= a - b <= i64::MAX { Some(RtVal::Integer { v: (a - b) as i64 }) } else { None },
        Instr::IntMul => if i64::MIN <= a * b <= i64::MAX { Some(RtVal::Integer { v: (a * b) as i64 }) } else { None },
        _ => None,
    }
}

/// An integer comparison or arithmetic instruction pops its two integer operands (the
/// right one on top) and pushes `int_instr_value` of them: a step there leaves the
/// operand stack as it was below the operands with that value on top, keeps the
/// variables, and goes on at the next instruction. When the value exists, the operand
/// stack has room and every root is live, the step is taken.
pub proof fn law_int_instr(s: RtState, pre: Seq<RtVal>, a: i64, b: i64, i: Instr)
    requires
        s.ip < s.code.len(),
        instr_of(s.code[s.ip as int]) == Some(i),
        i == Instr::IntEq || i == Instr::IntNEq || i == Instr::IntLess || i == Instr::IntGreater
            || i == Instr::IntAdd || i == Instr::IntSub || i == Instr::IntMul,
        s.ops == pre.push(RtVal::Integer { v: a }).push(RtVal::Integer { v: b }),
    ensures
        rt_step(s) matches RtStepV::Step(s2, o) ==> {
            &&& int_instr_value(i, a, b) is Some
            &&& s2.ops == pre.push(int_instr_value(i, a, b)->Some_0)
            &&& o == RtStep::Continue
            &&& s2.ip == (s.ip + 1) as usize
            &&& s2.vars == s.vars
            &&& s2.sp == s.sp
        },
        (int_instr_value(i, a, b) is Some && pre.len() < STACK_SLOTS && roots_live(s) && s.sp <= s.vars.len())
            ==> rt_step(s) is Step,
{
    let t = RtState { ip: (s.ip + 1) as usize, ..s };
    let p1 = RtState { ops: t.ops.drop_last(), ..t };
    let p2 = RtState { ops: p1.ops.drop_last(), ..p1 };
    assert(t.ops.drop_last() == pre.push(RtVal::Integer { v: a }));
    assert(p1.ops.drop_last() == pre);
    assert(pop_op(t) == Some((p1, RtVal::Integer { v: b })));
    assert(pop_op(p1) == Some((p2, RtVal::Integer { v: a })));
    assert(int_result(op_of(i), a, b) == int_instr_value(i, a, b));
    match int_instr_value(i, a, b) {
        Some(v) => {
            if pre.len() < STACK_SLOTS {
                let s1 = RtState { ops: pre.push(v), ..p2 };
                assert(instr_effect(t, i) == Effect::Next(s1, RtStep::Continue));
                if roots_live(s) && s.sp <= s.vars.len() {
                    assert(roots(s) == s.vars.take(s.sp as int) + pre.push(RtVal::Integer { v: a }).push(RtVal::Integer { v: b }));
                    assert forall|k: int| 0 <= k < roots(s1).len() implies match #[trigger] roots(s1)[k] {
                        RtVal::Str { at: Some(j) } => j < s1.heap.len() && s1.heap[j as int] is Some,
                        RtVal::Ptr { obj: Some(o) } => o < s1.objs.len() && s1.objs[o as int] is Some,
                        _ => true,
                    } by {
                        if k < roots(s1).len() - 1 {
                            assert(roots(s1)[k] == roots(s)[k]);
                        } else {
                            assert(roots(s1)[k] == v);
                        }
                    }
                }
            } else {
                assert(instr_effect(t, i) == Effect::Stuck);
            }
        },
        None => {
            assert(instr_effect(t, i) == Effect::Stuck);
        },
    }
}

/// The operation a float instruction hands out: `+`, `-`, `*`, `/`, `==`, `!=`, `<`,
/// `>` for the float addition, subtraction, multiplication, division and comparisons.
pub open spec fn float_instr_op(i: Instr) -> Option<Binop> {
    match i {
        Instr::FloatAdd => Some(Binop::Add),
        Instr::FloatSub => Some(Binop::Sub),
        Instr::FloatMul => Some(Binop::Mul),
        Instr::FloatDiv => Some(Binop::Div),
        Instr::FloatEq => Some(Binop::Equal),
        Instr::FloatNeq => Some(Binop::NotEqual),
        Instr::FloatLess => Some(Binop::Less),
        Instr::FloatGreater => Some(Binop::Greater),
        _ => None,
    }
}

/// A float instruction pops its two float operands (the right one on top) and hands
/// its operation out with the left operand as `l` and the right one as `r`, leaving
/// the operand stack as it was below them.
pub proof fn law_float_instr(s: RtState, pre: Seq<RtVal>, a: u64, b: u64, i: Instr)
    requires
        s.ip < s.code.len(),
        instr_of(s.code[s.ip as int]) == Some(i),
        float_instr_op(i) is Some,
        s.ops == pre.push(RtVal::Float { bits: a }).push(RtVal::Float { bits: b }),
    ensures
        rt_step(s) matches RtStepV::Step(s2, o) ==> {
            &&& o == RtStep::Float { op: float_instr_op(i)->Some_0, l: a, r: b }
            &&& s2.ops == pre
            &&& s2.ip == (s.ip + 1) as usize
        },
{
    let t = RtState { ip: (s.ip + 1) as usize, ..s };
    let p1 = RtState { ops: t.ops.drop_last(), ..t };
    let p2 = RtState { ops: p1.ops.drop_last(), ..p1 };
    assert(t.ops.drop_last() == pre.push(RtVal::Float { bits: a }));
    assert(p1.ops.drop_last() == pre);
    assert(pop_op(t) == Some((p1, RtVal::Float { bits: b })));
    assert(pop_op(p1) == Some((p2, RtVal::Float { bits: a })));
    assert(instr_effect(t, i) == Effect::Next(p2, RtStep::Float { op: float_instr_op(i)->Some_0, l: a, r: b }));
}

/// A boolean equality, inequality or conjunction pops its two boolean operands (the
/// right one `b` on top, the left one `a` below) and pushes `a == b`, `a != b` or
/// `a && b`.
pub proof fn law_bool_instr(s: RtState, pre: Seq<RtVal>, a: bool, b: bool, i: Instr)
    requires
        s.ip < s.code.len(),
        instr_of(s.code[s.ip as int]) == Some(i),
        i == Instr::BoolEq || i == Instr::BoolNeq || i == Instr::BoolAnd,
        s.ops == pre.push(RtVal::Bool { v: a }).push(RtVal::Bool { v: b }),
    ensures
        rt_step(s) matches RtStepV::Step(s2, o) ==> {
            &&& s2.ops == pre.push(
                RtVal::Bool {
                    v: if i == Instr::BoolEq {
                        a == b
                    } else if i == Instr::BoolNeq {
                        a != b
                    } else {
                        a && b
                    },
                },
            )
            &&& o == RtStep::Continue
            &&& s2.ip == (s.ip + 1) as usize
        },
{
    let t = RtState { ip: (s.ip + 1) as usize, ..s };
    let p1 = RtState { ops: t.ops.drop_last(), ..t };
    let p2 = RtState { ops: p1.ops.drop_last(), ..p1 };
    assert(t.ops.drop_last() == pre.push(RtVal::Bool { v: a }));
    assert(p1.ops.drop_last() == pre);
    assert(pop_op(t) == Some((p1, RtVal::Bool { v: b })));
    assert(pop_op(p1) == Some((p2, RtVal::Bool { v: a })));
}

/// A string instruction pops its two live string operands (the right one `y` on top,
/// the left one `x` below): concatenation pushes a new string `x + y`, equality and
/// inequality push `x == y` and `x != y`.
pub proof fn law_str_instr(s: RtState, pre: Seq<RtVal>, l: RtVal, r: RtVal, i: Instr, x: Seq<char>, y: Seq<char>)
    requires
        s.ip < s.code.len(),
        instr_of(s.code[s.ip as int]) == Some(i),
        i == Instr::StrAdd || i == Instr::StrEq || i == Instr::StrNeq,
        s.ops == pre.push(l).push(r),
        live_str(s, l) == Some(x),
        live_str(s, r) == Some(y),
    ensures
        rt_step(s) matches RtStepV::Step(s2, o) ==> {
            &&& o == RtStep::Continue
            &&& s2.ip == (s.ip + 1) as usize
            &&& i == Instr::StrAdd ==> s2.ops == pre.push(RtVal::Str { at: Some(s.heap.len() as usize) })
                && s2.heap.len() == s.heap.len() + 1 && s2.heap[s.heap.len() as int] == Some(x + y)
            &&& i == Instr::StrEq ==> s2.ops == pre.push(RtVal::Bool { v: x == y })
            &&& i == Instr::StrNeq ==> s2.ops == pre.push(RtVal::Bool { v: x != y })
        },
{
    let t = RtState { ip: (s.ip + 1) as usize, ..s };
    let p1 = RtState { ops: t.ops.drop_last(), ..t };
    let p2 = RtState { ops: p1.ops.drop_last(), ..p1 };
    assert(t.ops.drop_last() == pre.push(l));
    assert(p1.ops.drop_last() == pre);
    assert(pop_op(t) == Some((p1, r)));
    assert(pop_op(p1) == Some((p2, l)));
    assert(live_str(p2, l) == Some(x));
    assert(live_str(p2, r) == Some(y));
    if i == Instr::StrAdd {
        let s1 = RtState { heap: p2.heap.push(Some(x + y)), ..p2 };
        let v = RtVal::Str { at: Some(p2.heap.len() as usize) };
        if rt_step(s) is Step {
            let s3 = RtState { ops: s1.ops.push(v), ..s1 };
            assert(instr_effect(t, i) == Effect::Next(s3, RtStep::Continue));
            let k = roots(s3).len() - 1;
            assert(roots(s3)[k] == v);
            assert(referred(s3, s.heap.len() as int));
        }
    }
}

/// A store to a variable pops the variable's address (on top) and the value below it,
/// and writes that value into the variable, changing no other variable.
pub proof fn law_store_local(s: RtState, pre: Seq<RtVal>, o: RtVal, at: usize, i: Instr)
    requires
        s.ip < s.code.len(),
        instr_of(s.code[s.ip as int]) == Some(i),
        i == Instr::StoreVoid || i == Instr::StoreInt || i == Instr::StoreFloat || i == Instr::StoreBool
            || i == Instr::StorePtr || i == Instr::StoreStr,
        s.ops == pre.push(o).push(RtVal::LValue { at }),
    ensures
        rt_step(s) matches RtStepV::Step(s2, r) ==> {
            &&& r == RtStep::Continue
            &&& s2.ops == pre
            &&& s2.vars == s.vars.update(at as int, o)
            &&& s2.ip == (s.ip + 1) as usize
        },
{
    let t = RtState { ip: (s.ip + 1) as usize, ..s };
    let p1 = RtState { ops: t.ops.drop_last(), ..t };
    let p2 = RtState { ops: p1.ops.drop_last(), ..p1 };
    assert(t.ops.drop_last() == pre.push(o));
    assert(p1.ops.drop_last() == pre);
    assert(pop_op(t) == Some((p1, RtVal::LValue { at })));
    assert(pop_op(p1) == Some((p2, o)));
}

} // verus!
