//! The bytecode compiler of the beam language: it turns checked programs into one
//! byte string of instructions, with the string constants and the symbol table that
//! the runtime loads beside it.
use crate::beam::mach::{
    fields_view, st_ok, st_type, table_view, var_type, var_type_ok, Binop, Cmd, CmdV, Function,
    Program, STV, ShallowType, TyV, Type, Var, VarV,
};
use crate::table::Table;
use vstd::prelude::*;

verus! {

/// The instructions of the beam bytecode.
#[derive(Clone, Copy, Debug, PartialEq, Eq, Structural)]
pub enum Instr {
    Jmp,
    JmpCond,
    Call,
    CallObj,
    Ret,
    DefLocalVoid,
    DefLocalInt,
    DefLocalFloat,
    DefLocalBool,
    DefLocalPtr,
    DefLocalStr,
    LoadVoid,
    LoadInt,
    LoadFloat,
    LoadBool,
    LoadPtr,
    LoadStr,
    LoadMember,
    LoadVarAddr,
    LoadMemberAddr,
    StoreVoid,
    StoreInt,
    StoreFloat,
    StoreBool,
    StorePtr,
    StoreStr,
    ConstVoid,
    ConstInt,
    ConstFloat,
    ConstBool,
    ConstPtr,
    ConstStr,
    IntAdd,
    IntSub,
    IntMul,
    IntDiv,
    IntEq,
    IntNEq,
    IntLess,
    IntGreater,
    FloatAdd,
    FloatSub,
    FloatMul,
    FloatDiv,
    FloatEq,
    FloatNeq,
    FloatLess,
    FloatGreater,
    BoolEq,
    BoolNeq,
    BoolAnd,
    BoolOr,
    StrAdd,
    StrEq,
    StrNeq,
    New,
}

/// The byte that encodes an instruction: its position in the list of instructions.
pub open spec fn instr_code(i: Instr) -> u8 {
    match i {
        Instr::Jmp => 0u8,
        Instr::JmpCond => 1u8,
        Instr::Call => 2u8,
        Instr::CallObj => 3u8,
        Instr::Ret => 4u8,
        Instr::DefLocalVoid => 5u8,
        Instr::DefLocalInt => 6u8,
        Instr::DefLocalFloat => 7u8,
        Instr::DefLocalBool => 8u8,
        Instr::DefLocalPtr => 9u8,
        Instr::DefLocalStr => 10u8,
        Instr::LoadVoid => 11u8,
        Instr::LoadInt => 12u8,
        Instr::LoadFloat => 13u8,
        Instr::LoadBool => 14u8,
        Instr::LoadPtr => 15u8,
        Instr::LoadStr => 16u8,
        Instr::LoadMember => 17u8,
        Instr::LoadVarAddr => 18u8,
        Instr::LoadMemberAddr => 19u8,
        Instr::StoreVoid => 20u8,
        Instr::StoreInt => 21u8,
        Instr::StoreFloat => 22u8,
        Instr::StoreBool => 23u8,
        Instr::StorePtr => 24u8,
        Instr::StoreStr => 25u8,
        Instr::ConstVoid => 26u8,
        Instr::ConstInt => 27u8,
        Instr::ConstFloat => 28u8,
        Instr::ConstBool => 29u8,
        Instr::ConstPtr => 30u8,
        Instr::ConstStr => 31u8,
        Instr::IntAdd => 32u8,
        Instr::IntSub => 33u8,
        Instr::IntMul => 34u8,
        Instr::IntDiv => 35u8,
        Instr::IntEq => 36u8,
        Instr::IntNEq => 37u8,
        Instr::IntLess => 38u8,
        Instr::IntGreater => 39u8,
        Instr::FloatAdd => 40u8,
        Instr::FloatSub => 41u8,
        Instr::FloatMul => 42u8,
        Instr::FloatDiv => 43u8,
        Instr::FloatEq => 44u8,
        Instr::FloatNeq => 45u8,
        Instr::FloatLess => 46u8,
        Instr::FloatGreater => 47u8,
        Instr::BoolEq => 48u8,
        Instr::BoolNeq => 49u8,
        Instr::BoolAnd => 50u8,
        Instr::BoolOr => 51u8,
        Instr::StrAdd => 52u8,
        Instr::StrEq => 53u8,
        Instr::StrNeq => 54u8,
        Instr::New => 55u8,
    }
}

/// The byte that encodes an instruction.
pub fn encode_instr(i: Instr) -> (r: u8)
    ensures
        r == instr_code(i),
{
    match i {
        Instr::Jmp => 0u8,
        Instr::JmpCond => 1u8,
        Instr::Call => 2u8,
        Instr::CallObj => 3u8,
        Instr::Ret => 4u8,
        Instr::DefLocalVoid => 5u8,
        Instr::DefLocalInt => 6u8,
        Instr::DefLocalFloat => 7u8,
        Instr::DefLocalBool => 8u8,
        Instr::DefLocalPtr => 9u8,
        Instr::DefLocalStr => 10u8,
        Instr::LoadVoid => 11u8,
        Instr::LoadInt => 12u8,
        Instr::LoadFloat => 13u8,
        Instr::LoadBool => 14u8,
        Instr::LoadPtr => 15u8,
        Instr::LoadStr => 16u8,
        Instr::LoadMember => 17u8,
        Instr::LoadVarAddr => 18u8,
        Instr::LoadMemberAddr => 19u8,
        Instr::StoreVoid => 20u8,
        Instr::StoreInt => 21u8,
        Instr::StoreFloat => 22u8,
        Instr::StoreBool => 23u8,
        Instr::StorePtr => 24u8,
        Instr::StoreStr => 25u8,
        Instr::ConstVoid => 26u8,
        Instr::ConstInt => 27u8,
        Instr::ConstFloat => 28u8,
        Instr::ConstBool => 29u8,
        Instr::ConstPtr => 30u8,
        Instr::ConstStr => 31u8,
        Instr::IntAdd => 32u8,
        Instr::IntSub => 33u8,
        Instr::IntMul => 34u8,
        Instr::IntDiv => 35u8,
        Instr::IntEq => 36u8,
        Instr::IntNEq => 37u8,
        Instr::IntLess => 38u8,
        Instr::IntGreater => 39u8,
        Instr::FloatAdd => 40u8,
        Instr::FloatSub => 41u8,
        Instr::FloatMul => 42u8,
        Instr::FloatDiv => 43u8,
        Instr::FloatEq => 44u8,
        Instr::FloatNeq => 45u8,
        Instr::FloatLess => 46u8,
        Instr::FloatGreater => 47u8,
        Instr::BoolEq => 48u8,
        Instr::BoolNeq => 49u8,
        Instr::BoolAnd => 50u8,
        Instr::BoolOr => 51u8,
        Instr::StrAdd => 52u8,
        Instr::StrEq => 53u8,
        Instr::StrNeq => 54u8,
        Instr::New => 55u8,
    }
}

/// The tags of runtime values.
#[derive(Clone, Copy, Debug, PartialEq, Eq, Structural)]
pub enum Tag {
    Void,
    Integer,
    Float,
    Bool,
    String,
    Ptr,
    LValue,
}

/// What an allocation records of an object: its number of fields and its type.
#[derive(Clone, Copy, Debug)]
pub struct AllocInfo {
    pub field_count: u32,
    pub type_info: u32,
}

/// The 64-bit word that holds an `AllocInfo` in the bytecode: the field count in the
/// low half and the type in the high half (the layout of the pair in memory on a
/// little-endian machine).
pub open spec fn alloc_word(info: AllocInfo) -> u64 {
    (info.field_count as int + info.type_info as int * 0x1_0000_0000) as u64
}

impl AllocInfo {
    /// The word that holds the information (see `alloc_word`).
    pub fn word(&self) -> (r: u64)
        ensures
            r == alloc_word(*self),
    {
        self.field_count as u64 + self.type_info as u64 * 0x1_0000_0000u64
    }
}

/// The `n` low bytes of `v`, least significant first.
pub open spec fn le_bytes(v: nat, n: nat) -> Seq<u8>
    decreases n,
{
    if n == 0 {
        seq![]
    } else {
        seq![(v % 256) as u8] + le_bytes(v / 256, (n - 1) as nat)
    }
}

/// The eight bytes of a 64-bit word, least significant first.
pub open spec fn le8(v: u64) -> Seq<u8> {
    le_bytes(v as nat, 8)
}

pub proof fn lemma_le_bytes_len(v: nat, n: nat)
    ensures
        le_bytes(v, n).len() == n,
    decreases n,
{
    if n > 0 {
        lemma_le_bytes_len(v / 256, (n - 1) as nat);
    }
}

/// A growing list of bytecode.
#[derive(Debug)]
pub struct InstructionList {
    pub iv: Vec<u8>,
}

fn push_le(iv: &mut Vec<u8>, v: u64, n: u32)
    ensures
        final(iv)@ == old(iv)@ + le_bytes(v as nat, n as nat),
    decreases n,
{
    if n > 0 {
        iv.push((v % 256) as u8);
        push_le(iv, v / 256, n - 1);
        assert(final(iv)@ =~= old(iv)@ + le_bytes(v as nat, n as nat));
    }
}

impl InstructionList {
    /// An empty list.
    pub fn new() -> (r: Self)
        ensures
            r.iv@ == Seq::<u8>::empty(),
    {
        InstructionList { iv: Vec::new() }
    }

    /// Appends the byte of an instruction.
    pub fn push_instr(&mut self, ins: Instr)
        ensures
            final(self).iv@ == old(self).iv@.push(instr_code(ins)),
    {
        self.iv.push(encode_instr(ins));
    }

    /// Appends a boolean as a 64-bit word (1 or 0).
    pub fn push_bool(&mut self, v: bool)
        ensures
            final(self).iv@ == old(self).iv@ + le8(if v { 1u64 } else { 0u64 }),
    {
        let vs: u64 = if v { 1 } else { 0 };
        self.push_u64(vs);
    }

    /// Appends a signed integer as a 64-bit two's complement word.
    pub fn push_i64(&mut self, v: i64)
        ensures
            final(self).iv@ == old(self).iv@ + le8(v as u64),
    {
        self.push_u64(v as u64);
    }

    /// Appends a 64-bit word, least significant byte first.
    pub fn push_u64(&mut self, v: u64)
        ensures
            final(self).iv@ == old(self).iv@ + le8(v),
    {
        push_le(&mut self.iv, v, 8);
    }
}

/// The model of the compiler's output so far: bytecode, string constants, symbol
/// table, and the positions of the 8-byte slots that float constants go into, with the
/// text of each constant.
#[verifier::ext_equal]
pub struct RtV {
    pub bytes: Seq<u8>,
    pub strings: Seq<Seq<char>>,
    pub symbols: Map<Seq<char>, usize>,
    pub floats: Seq<(int, Seq<char>)>,
}

/// The compiler's output: bytecode, string constants and symbol table.
///
/// The bytecode holds each float constant as an 8-byte slot of zeros; `float_slots`
/// lists each slot's position with the constant's text, for the loader to write the
/// bits of the number there.
#[derive(Debug)]
pub struct IntermediateRt {
    pub strings: Vec<String>,
    pub symbol_table: Table<usize>,
    pub data: InstructionList,
    pub float_slots: Vec<(usize, String)>,
}

/// The views of a list of strings.
pub open spec fn strings_view(s: Seq<String>) -> Seq<Seq<char>> {
    s.map_values(|x: String| x@)
}

/// The views of a list of positioned texts.
pub open spec fn slots_view(s: Seq<(usize, String)>) -> Seq<(int, Seq<char>)> {
    s.map_values(|x: (usize, String)| (x.0 as int, x.1@))
}

impl View for IntermediateRt {
    type V = RtV;

    open spec fn view(&self) -> RtV {
        RtV {
            bytes: self.data.iv@,
            strings: strings_view(self.strings@),
            symbols: self.symbol_table.map(),
            floats: slots_view(self.float_slots@),
        }
    }
}

/// `r` with `b` appended to its bytecode.
pub open spec fn put(r: RtV, b: Seq<u8>) -> RtV {
    RtV { bytes: r.bytes + b, ..r }
}

/// `r` with the byte of instruction `i` appended.
pub open spec fn put_op(r: RtV, i: Instr) -> RtV {
    put(r, seq![instr_code(i)])
}

/// `r` with the word `v` appended.
pub open spec fn put_word(r: RtV, v: u64) -> RtV {
    put(r, le8(v))
}

impl IntermediateRt {
    /// Empty output.
    pub fn new() -> (r: Self)
        ensures
            r.symbol_table.wf(),
            r@ == (RtV { bytes: seq![], strings: seq![], symbols: Map::empty(), floats: seq![] }),
    {
        let r = IntermediateRt {
            strings: Vec::new(),
            symbol_table: Table::new(),
            data: InstructionList::new(),
            float_slots: Vec::new(),
        };
        assert(r@ =~= (RtV { bytes: seq![], strings: seq![], symbols: Map::empty(), floats: seq![] }));
        r
    }

    fn op(&mut self, i: Instr)
        ensures
            final(self)@ == put_op(old(self)@, i),
            final(self).symbol_table == old(self).symbol_table,
    {
        self.data.push_instr(i);
        assert(final(self)@ =~= put_op(old(self)@, i));
    }

    fn word(&mut self, v: u64)
        ensures
            final(self)@ == put_word(old(self)@, v),
            final(self).symbol_table == old(self).symbol_table,
    {
        self.data.push_u64(v);
        assert(final(self)@ =~= put_word(old(self)@, v));
    }
}

/// The instruction that loads a variable of type `t`.
pub open spec fn load_instr(t: TyV) -> Option<Instr> {
    match t {
        TyV::Void => Some(Instr::LoadVoid),
        TyV::Integer => Some(Instr::LoadInt),
        TyV::Float => Some(Instr::LoadFloat),
        TyV::Bool => Some(Instr::LoadBool),
        TyV::String => Some(Instr::LoadStr),
        TyV::Ptr { .. } => Some(Instr::LoadPtr),
        _ => None,
    }
}

/// The instruction that stores a value of type `t`.
pub open spec fn store_instr(t: TyV) -> Option<Instr> {
    match t {
        TyV::Void => Some(Instr::StoreVoid),
        TyV::Integer => Some(Instr::StoreInt),
        TyV::Float => Some(Instr::StoreFloat),
        TyV::Bool => Some(Instr::StoreBool),
        TyV::String => Some(Instr::StoreStr),
        TyV::Ptr { .. } => Some(Instr::StorePtr),
        _ => None,
    }
}

/// The instruction that declares a local variable of type `t`.
pub open spec fn def_instr(t: TyV) -> Option<Instr> {
    match t {
        TyV::Void => Some(Instr::DefLocalVoid),
        TyV::Integer => Some(Instr::DefLocalInt),
        TyV::Float => Some(Instr::DefLocalFloat),
        TyV::Bool => Some(Instr::DefLocalBool),
        TyV::String => Some(Instr::DefLocalStr),
        TyV::Ptr { .. } => Some(Instr::DefLocalPtr),
        _ => None,
    }
}

/// The instruction of a binary operation on operands of type `t`, and the store of its
/// result: arithmetic and comparisons on integers and floats, comparisons and logic on
/// booleans, concatenation and comparisons on strings.
pub open spec fn binop_instrs(t: TyV, op: Binop) -> Option<(Instr, Instr)> {
    match t {
        TyV::Integer => match op {
            Binop::Add => Some((Instr::IntAdd, Instr::StoreInt)),
            Binop::Sub => Some((Instr::IntSub, Instr::StoreInt)),
            Binop::Mul => Some((Instr::IntMul, Instr::StoreInt)),
            Binop::Div => Some((Instr::IntDiv, Instr::StoreInt)),
            Binop::Equal => Some((Instr::IntEq, Instr::StoreBool)),
            Binop::NotEqual => Some((Instr::IntNEq, Instr::StoreBool)),
            Binop::Less => Some((Instr::IntLess, Instr::StoreBool)),
            Binop::Greater => Some((Instr::IntGreater, Instr::StoreBool)),
            _ => None,
        },
        TyV::Float => match op {
            Binop::Add => Some((Instr::FloatAdd, Instr::StoreFloat)),
            Binop::Sub => Some((Instr::FloatSub, Instr::StoreFloat)),
            Binop::Mul => Some((Instr::FloatMul, Instr::StoreFloat)),
            Binop::Div => Some((Instr::FloatDiv, Instr::StoreFloat)),
            Binop::Equal => Some((Instr::FloatEq, Instr::StoreBool)),
            Binop::NotEqual => Some((Instr::FloatNeq, Instr::StoreBool)),
            Binop::Less => Some((Instr::FloatLess, Instr::StoreBool)),
            Binop::Greater => Some((Instr::FloatGreater, Instr::StoreBool)),
            _ => None,
        },
        TyV::Bool => match op {
            Binop::Equal => Some((Instr::BoolEq, Instr::StoreBool)),
            Binop::NotEqual => Some((Instr::BoolNeq, Instr::StoreBool)),
            Binop::Or => Some((Instr::BoolOr, Instr::StoreBool)),
            Binop::And => Some((Instr::BoolAnd, Instr::StoreBool)),
            _ => None,
        },
        TyV::String => match op {
            Binop::Add => Some((Instr::StrAdd, Instr::StoreStr)),
            Binop::Equal => Some((Instr::StrEq, Instr::StoreBool)),
            Binop::NotEqual => Some((Instr::StrNeq, Instr::StoreBool)),
            _ => None,
        },
        _ => None,
    }
}

fn load_op(t: &Type) -> (r: Option<Instr>)
    ensures
        r == load_instr(t@),
{
    match t {
        Type::Void => Some(Instr::LoadVoid),
        Type::Integer => Some(Instr::LoadInt),
        Type::Float => Some(Instr::LoadFloat),
        Type::Bool => Some(Instr::LoadBool),
        Type::String => Some(Instr::LoadStr),
        Type::Ptr { .. } => Some(Instr::LoadPtr),
        _ => None,
    }
}

fn store_op(t: &Type) -> (r: Option<Instr>)
    ensures
        r == store_instr(t@),
{
    match t {
        Type::Void => Some(Instr::StoreVoid),
        Type::Integer => Some(Instr::StoreInt),
        Type::Float => Some(Instr::StoreFloat),
        Type::Bool => Some(Instr::StoreBool),
        Type::String => Some(Instr::StoreStr),
        Type::Ptr { .. } => Some(Instr::StorePtr),
        _ => None,
    }
}

fn def_op(t: &Type) -> (r: Option<Instr>)
    ensures
        r == def_instr(t@),
{
    match t {
        Type::Void => Some(Instr::DefLocalVoid),
        Type::Integer => Some(Instr::DefLocalInt),
        Type::Float => Some(Instr::DefLocalFloat),
        Type::Bool => Some(Instr::DefLocalBool),
        Type::String => Some(Instr::DefLocalStr),
        Type::Ptr { .. } => Some(Instr::DefLocalPtr),
        _ => None,
    }
}

fn binop_ops(t: &Type, op: Binop) -> (r: Option<(Instr, Instr)>)
    ensures
        r == binop_instrs(t@, op),
{
    match t {
        Type::Integer => match op {
            Binop::Add => Some((Instr::IntAdd, Instr::StoreInt)),
            Binop::Sub => Some((Instr::IntSub, Instr::StoreInt)),
            Binop::Mul => Some((Instr::IntMul, Instr::StoreInt)),
            Binop::Div => Some((Instr::IntDiv, Instr::StoreInt)),
            Binop::Equal => Some((Instr::IntEq, Instr::StoreBool)),
            Binop::NotEqual => Some((Instr::IntNEq, Instr::StoreBool)),
            Binop::Less => Some((Instr::IntLess, Instr::StoreBool)),
            Binop::Greater => Some((Instr::IntGreater, Instr::StoreBool)),
            _ => None,
        },
        Type::Float => match op {
            Binop::Add => Some((Instr::FloatAdd, Instr::StoreFloat)),
            Binop::Sub => Some((Instr::FloatSub, Instr::StoreFloat)),
            Binop::Mul => Some((Instr::FloatMul, Instr::StoreFloat)),
            Binop::Div => Some((Instr::FloatDiv, Instr::StoreFloat)),
            Binop::Equal => Some((Instr::FloatEq, Instr::StoreBool)),
            Binop::NotEqual => Some((Instr::FloatNeq, Instr::StoreBool)),
            Binop::Less => Some((Instr::FloatLess, Instr::StoreBool)),
            Binop::Greater => Some((Instr::FloatGreater, Instr::StoreBool)),
            _ => None,
        },
        Type::Bool => match op {
            Binop::Equal => Some((Instr::BoolEq, Instr::StoreBool)),
            Binop::NotEqual => Some((Instr::BoolNeq, Instr::StoreBool)),
            Binop::Or => Some((Instr::BoolOr, Instr::StoreBool)),
            Binop::And => Some((Instr::BoolAnd, Instr::StoreBool)),
            _ => None,
        },
        Type::String => match op {
            Binop::Add => Some((Instr::StrAdd, Instr::StoreStr)),
            Binop::Equal => Some((Instr::StrEq, Instr::StoreBool)),
            Binop::NotEqual => Some((Instr::StrNeq, Instr::StoreBool)),
            _ => None,
        },
        _ => None,
    }
}

/// An operand can be loaded: a variable of a type that fits a register, a constant,
/// a field of an operand that can be loaded, or `new` of a structure.
pub open spec fn var_ok(v: VarV, table: Seq<(Seq<char>, TyV)>) -> bool
    decreases v,
{
    match v {
        VarV::Stack { vtype, .. } => st_ok(vtype, table) && load_instr(st_type(vtype, table)) is Some,
        VarV::FieldAccess { of, .. } => var_ok(*of, table),
        VarV::FunctionLiteral { .. } => false,
        VarV::OperatorNew { new_type } => st_ok(new_type, table) && st_type(new_type, table) is Struct,
        _ => true,
    }
}

/// The allocation word of `new` on a structure type.
pub open spec fn new_word(nt: STV, table: Seq<(Seq<char>, TyV)>) -> u64 {
    alloc_word(
        AllocInfo {
            field_count: st_type(nt, table)->Struct_fields.len() as u32,
            type_info: nt.index as u32,
        },
    )
}

/// The code that loads an operand: the load of a variable by its slot, a constant in
/// line (a string by its position among the string constants, which it is added to;
/// a float as a slot to fill), a field by the load of its object and its position, the
/// allocation of a structure.
pub open spec fn var_code(r: RtV, v: VarV, table: Seq<(Seq<char>, TyV)>) -> RtV
    decreases v,
{
    match v {
        VarV::Stack { vtype, index, .. } => put_word(
            put_op(r, load_instr(st_type(vtype, table))->0),
            index as u64,
        ),
        VarV::ConstInt { value } => put_word(put_op(r, Instr::ConstInt), value as u64),
        VarV::ConstFloat { value } => {
            let r1 = put_op(r, Instr::ConstFloat);
            RtV { floats: r1.floats.push((r1.bytes.len() as int, value)), ..put_word(r1, 0) }
        },
        VarV::ConstString { value } => RtV {
            strings: r.strings.push(value),
            ..put_word(put_op(r, Instr::ConstStr), r.strings.len() as u64)
        },
        VarV::ConstBool { value } => put_word(
            put_op(r, Instr::ConstBool),
            if value {
                1u64
            } else {
                0u64
            },
        ),
        VarV::Unit => put_word(put_op(r, Instr::LoadVoid), 0),
        VarV::FieldAccess { of, index, .. } => put_word(
            put_op(var_code(r, *of, table), Instr::LoadMember),
            index as u64,
        ),
        VarV::FunctionLiteral { .. } => r,
        VarV::OperatorNew { new_type } => put_word(put_op(r, Instr::New), new_word(new_type, table)),
    }
}

/// An operand can be stored to: a variable, or a field of an operand that can be
/// loaded.
pub open spec fn lvar_ok(v: VarV, table: Seq<(Seq<char>, TyV)>) -> bool {
    match v {
        VarV::Stack { .. } => true,
        VarV::FieldAccess { of, .. } => var_ok(*of, table),
        _ => false,
    }
}

/// The code that loads the address of an operand.
pub open spec fn lvar_code(r: RtV, v: VarV, table: Seq<(Seq<char>, TyV)>) -> RtV {
    match v {
        VarV::Stack { index, .. } => put_word(put_op(r, Instr::LoadVarAddr), index as u64),
        VarV::FieldAccess { of, index, .. } => put_word(
            put_op(var_code(r, *of, table), Instr::LoadMemberAddr),
            index as u64,
        ),
        _ => r,
    }
}

/// Appends the code that loads `v` (see `var_code`).
#[verifier::loop_isolation(false)]
pub fn compile_var(rt: &mut IntermediateRt, v: &Var, prg: &Program)
    requires
        var_ok(v@, table_view(prg.types@)),
    ensures
        final(rt)@ == var_code(old(rt)@, v@, table_view(prg.types@)),
        final(rt).symbol_table == old(rt).symbol_table,
        final(rt)@.bytes.len() >= old(rt)@.bytes.len(),
    decreases v,
{
    let ghost table = table_view(prg.types@);
    match v {
        Var::Stack { vtype, index, name } => {
            assert(v@ == (VarV::Stack { vtype: vtype@, index: *index, name: name@ }));
            let t = vtype.as_type(prg.types.as_slice());
            let i = load_op(&t);
            rt.op(i.unwrap());
            rt.word(*index as u64);
        },
        Var::ConstInt { value } => {
            rt.op(Instr::ConstInt);
            rt.word(*value as u64);
        },
        Var::ConstFloat { value } => {
            rt.op(Instr::ConstFloat);
            let pos = rt.data.iv.len();
            rt.word(0);
            let ghost r1 = rt@;
            rt.float_slots.push((pos, value.clone()));
            assert(slots_view(rt.float_slots@) =~= r1.floats.push((pos as int, value@)));
            assert(rt@ =~= var_code(old(rt)@, v@, table));
        },
        Var::ConstString { value } => {
            let idx = rt.strings.len();
            rt.op(Instr::ConstStr);
            rt.word(idx as u64);
            rt.strings.push(value.clone());
            assert(strings_view(rt.strings@) =~= strings_view(old(rt).strings@).push(value@));
            assert(rt@ =~= var_code(old(rt)@, v@, table));
        },
        Var::ConstBool { value } => {
            rt.op(Instr::ConstBool);
            let w: u64 = if *value { 1 } else { 0 };
            rt.word(w);
        },
        Var::Unit => {
            rt.op(Instr::LoadVoid);
            rt.word(0);
        },
        Var::FieldAccess { of, index, return_type } => {
            assert(v@ == (VarV::FieldAccess { of: Box::new((**of)@), index: *index, return_type: return_type@ }));
            compile_var(rt, of, prg);
            rt.op(Instr::LoadMember);
            rt.word(*index as u64);
        },
        Var::FunctionLiteral { .. } => {
            assert(false);
        },
        Var::OperatorNew { new_type } => {
            let t = new_type.as_type(prg.types.as_slice());
            match t {
                Type::Struct { name: _, fields } => {
                    let info = AllocInfo {
                        field_count: fields.len() as u32,
                        type_info: new_type.index as u32,
                    };
                    rt.op(Instr::New);
                    rt.word(info.word());
                },
                _ => {
                    assert(false);
                },
            }
        },
    }
}

/// Appends the code that loads the address of `v` (see `lvar_code`).
pub fn compile_l_var(rt: &mut IntermediateRt, v: &Var, prg: &Program)
    requires
        lvar_ok(v@, table_view(prg.types@)),
    ensures
        final(rt)@ == lvar_code(old(rt)@, v@, table_view(prg.types@)),
        final(rt).symbol_table == old(rt).symbol_table,
        final(rt)@.bytes.len() >= old(rt)@.bytes.len(),
{
    match v {
        Var::Stack { vtype, index, name } => {
            assert(v@ == (VarV::Stack { vtype: vtype@, index: *index, name: name@ }));
            rt.op(Instr::LoadVarAddr);
            rt.word(*index as u64);
        },
        Var::FieldAccess { of, index, return_type } => {
            assert(v@ == (VarV::FieldAccess { of: Box::new((**of)@), index: *index, return_type: return_type@ }));
            compile_var(rt, of, prg);
            rt.op(Instr::LoadMemberAddr);
            rt.word(*index as u64);
        },
        _ => {
            assert(false);
        },
    }
}

/// The model of the compiler's state: its output, the jumps to patch (the position of
/// each 8-byte target slot and the symbol it jumps to), the running count of arguments
/// and commands compiled, and the position where `main` starts.
#[verifier::ext_equal]
pub struct EmitV {
    pub rt: RtV,
    pub fixups: Seq<(int, Seq<char>)>,
    pub idx: int,
    pub start: int,
}

/// A jump instruction to `name`: the instruction, then a slot for the target, recorded
/// to be patched.
pub open spec fn jump(s: EmitV, i: Instr, name: Seq<char>) -> EmitV {
    let r1 = put_op(s.rt, i);
    EmitV { rt: put_word(r1, 42069), fixups: s.fixups.push((r1.bytes.len() as int, name)), ..s }
}

/// The code that loads each of `args` in turn.
pub open spec fn vars_code(r: RtV, args: Seq<VarV>, table: Seq<(Seq<char>, TyV)>) -> RtV
    decreases args.len(),
{
    if args.len() == 0 {
        r
    } else {
        var_code(vars_code(r, args.drop_last(), table), args.last(), table)
    }
}

/// The declarations of local variables of the types `values`.
pub open spec fn defs_code(r: RtV, values: Seq<TyV>) -> RtV
    decreases values.len(),
{
    if values.len() == 0 {
        r
    } else {
        put_op(defs_code(r, values.drop_last()), def_instr(values.last())->0)
    }
}

/// A command can be compiled: its operands can be loaded or stored to, its types have
/// instructions, and a call names a function.
pub open spec fn cmd_ok(c: CmdV, table: Seq<(Seq<char>, TyV)>) -> bool {
    match c {
        CmdV::Binop { l, r, out, op } => var_ok(l, table) && var_ok(r, table) && var_type_ok(
            l,
            table,
        ) && binop_instrs(var_type(l, table), op) is Some && lvar_ok(out, table),
        CmdV::Assign { l, r } => var_ok(r, table) && lvar_ok(l, table) && var_type_ok(l, table)
            && store_instr(var_type(l, table)) is Some,
        CmdV::Jmp { .. } => true,
        CmdV::JmpCond { cond, .. } => var_ok(cond, table),
        CmdV::DeclareVariables { values } => forall|i: int|
            0 <= i < values.len() ==> (#[trigger] def_instr(values[i])) is Some,
        CmdV::Call { to_call, returned, args } => (forall|i: int|
            0 <= i < args.len() ==> #[trigger] var_ok(args[i], table)) && to_call is FunctionLiteral
            && lvar_ok(returned, table) && var_type_ok(returned, table) && store_instr(
            var_type(returned, table),
        ) is Some,
        CmdV::Return { to_return } => var_ok(to_return, table),
    }
}

/// The code of a command.
///
/// A binary operation loads both operands, applies the operation of the left operand's
/// type and stores to the result; an assignment loads the right side and stores it by
/// the left side's type; a jump and a conditional jump (after loading the condition)
/// leave a slot for the label's position; a declaration declares each variable; a call
/// loads the arguments, calls (a slot for the function's position) and stores the result;
/// a return loads the value and returns.
pub open spec fn cmd_code(s: EmitV, c: CmdV, table: Seq<(Seq<char>, TyV)>) -> EmitV {
    match c {
        CmdV::Binop { l, r, out, op } => {
            let ops = binop_instrs(var_type(l, table), op)->0;
            let r1 = put_op(var_code(var_code(s.rt, l, table), r, table), ops.0);
            EmitV { rt: put_op(lvar_code(r1, out, table), ops.1), ..s }
        },
        CmdV::Assign { l, r } => EmitV {
            rt: put_op(
                lvar_code(var_code(s.rt, r, table), l, table),
                store_instr(var_type(l, table))->0,
            ),
            ..s
        },
        CmdV::Jmp { to, .. } => jump(s, Instr::Jmp, to),
        CmdV::JmpCond { cond, to, .. } => jump(
            EmitV { rt: var_code(s.rt, cond, table), ..s },
            Instr::JmpCond,
            to,
        ),
        CmdV::DeclareVariables { values } => EmitV { rt: defs_code(s.rt, values), ..s },
        CmdV::Call { to_call, returned, args } => {
            let s2 = jump(
                EmitV { rt: vars_code(s.rt, args, table), ..s },
                Instr::Call,
                to_call->FunctionLiteral_name,
            );
            EmitV {
                rt: put_op(
                    lvar_code(s2.rt, returned, table),
                    store_instr(var_type(returned, table))->0,
                ),
                ..s2
            }
        },
        CmdV::Return { to_return } => EmitV {
            rt: put_op(var_code(s.rt, to_return, table), Instr::Ret),
            ..s
        },
    }
}

/// The compiler's working state.
struct Emit {
    rt: IntermediateRt,
    fixups: Vec<(usize, String)>,
    idx: usize,
    start: usize,
}

impl Emit {
    spec fn ev(&self) -> EmitV {
        EmitV {
            rt: self.rt@,
            fixups: slots_view(self.fixups@),
            idx: self.idx as int,
            start: self.start as int,
        }
    }

    /// The symbol table is well formed and every slot to patch lies in the bytecode.
    spec fn inv(&self) -> bool {
        &&& self.rt.symbol_table.wf()
        &&& forall|i: int|
            0 <= i < self.fixups@.len() ==> #[trigger] self.fixups@[i].0 + 8
                <= self.rt.data.iv@.len()
    }

    fn jump(&mut self, i: Instr, name: &String)
        requires
            old(self).inv(),
        ensures
            final(self).inv(),
            final(self).ev() == jump(old(self).ev(), i, name@),
    {
        self.rt.op(i);
        let pos = self.rt.data.iv.len();
        self.rt.word(42069);
        proof {
            lemma_le_bytes_len(42069, 8);
        }
        self.fixups.push((pos, name.clone()));
        assert(slots_view(self.fixups@) =~= slots_view(old(self).fixups@).push((pos as int, name@)));
        assert(self.ev() =~= jump(old(self).ev(), i, name@));
    }

    fn set_rt_var(&mut self, v: &Var, prg: &Program)
        requires
            old(self).inv(),
            var_ok(v@, table_view(prg.types@)),
        ensures
            final(self).inv(),
            final(self).ev() == (EmitV { rt: var_code(old(self).ev().rt, v@, table_view(prg.types@)), ..old(self).ev() }),
    {
        compile_var(&mut self.rt, v, prg);
        assert(self.ev() =~= (EmitV { rt: var_code(old(self).ev().rt, v@, table_view(prg.types@)), ..old(self).ev() }));
    }

    fn set_rt_lvar(&mut self, v: &Var, prg: &Program)
        requires
            old(self).inv(),
            lvar_ok(v@, table_view(prg.types@)),
        ensures
            final(self).inv(),
            final(self).ev() == (EmitV { rt: lvar_code(old(self).ev().rt, v@, table_view(prg.types@)), ..old(self).ev() }),
    {
        compile_l_var(&mut self.rt, v, prg);
        assert(self.ev() =~= (EmitV { rt: lvar_code(old(self).ev().rt, v@, table_view(prg.types@)), ..old(self).ev() }));
    }

    fn set_rt_op(&mut self, i: Instr)
        requires
            old(self).inv(),
        ensures
            final(self).inv(),
            final(self).ev() == (EmitV { rt: put_op(old(self).ev().rt, i), ..old(self).ev() }),
    {
        self.rt.op(i);
        assert(self.ev() =~= (EmitV { rt: put_op(old(self).ev().rt, i), ..old(self).ev() }));
    }
}

/// Appends the code of a command (see `cmd_code`).
fn compile_cmd(e: &mut Emit, c: &Cmd, prg: &Program)
    requires
        old(e).inv(),
        cmd_ok(c@, table_view(prg.types@)),
    ensures
        final(e).inv(),
        final(e).ev() == cmd_code(old(e).ev(), c@, table_view(prg.types@)),
{
    let ghost table = table_view(prg.types@);
    match c {
        Cmd::Binop { l, r, out, op } => {
            e.set_rt_var(l, prg);
            e.set_rt_var(r, prg);
            let t = l.get_type(prg.types.as_slice());
            let ops = binop_ops(&t, *op).unwrap();
            e.set_rt_op(ops.0);
            e.set_rt_lvar(out, prg);
            e.set_rt_op(ops.1);
        },
        Cmd::Assign { l, r } => {
            e.set_rt_var(r, prg);
            e.set_rt_lvar(l, prg);
            let t = l.get_type(prg.types.as_slice());
            e.set_rt_op(store_op(&t).unwrap());
        },
        Cmd::Jmp { to, to_idx: _ } => {
            e.jump(Instr::Jmp, to);
        },
        Cmd::JmpCond { cond, to, to_idx: _ } => {
            e.set_rt_var(cond, prg);
            e.jump(Instr::JmpCond, to);
        },
        Cmd::DeclareVariables { values } => {
            let ghost vs = crate::beam::mach::tys_view(values@);
            let ghost s0 = e.ev();
            let mut i: usize = 0;
            while i < values.len()
                invariant
                    i <= values@.len(),
                    vs == crate::beam::mach::tys_view(values@),
                    forall|k: int| 0 <= k < vs.len() ==> (#[trigger] def_instr(vs[k])) is Some,
                    e.inv(),
                    e.ev() == (EmitV { rt: defs_code(s0.rt, vs.take(i as int)), ..s0 }),
                decreases values@.len() - i,
            {
                assert(vs.take(i + 1).drop_last() =~= vs.take(i as int));
                assert(vs[i as int] == values@[i as int]@);
                let d = def_op(&values[i]).unwrap();
                e.set_rt_op(d);
                i += 1;
            }
            assert(vs.take(values@.len() as int) =~= vs);
        },
        Cmd::Call { to_call, returned, args } => {
            let ghost vs = crate::beam::mach::vars_view(args@);
            let ghost s0 = e.ev();
            let ghost cc = CmdV::Call { to_call: to_call@, returned: returned@, args: vs };
            assert(c@ == cc);
            assert(forall|k: int| 0 <= k < cc->Call_args.len() ==> #[trigger] var_ok(cc->Call_args[k], table));
            assert(cc->Call_args == vs);
            let mut i: usize = 0;
            while i < args.len()
                invariant
                    i <= args@.len(),
                    vs == crate::beam::mach::vars_view(args@),
                    table == table_view(prg.types@),
                    forall|k: int| 0 <= k < vs.len() ==> #[trigger] var_ok(vs[k], table),
                    e.inv(),
                    e.ev() == (EmitV { rt: vars_code(s0.rt, vs.take(i as int), table), ..s0 }),
                decreases args@.len() - i,
            {
                assert(vs.take(i + 1).drop_last() =~= vs.take(i as int));
                assert(vs.take(i + 1).last() == vs[i as int]);
                assert(vs[i as int] == args@[i as int]@);
                assert(var_ok(vs[i as int], table));
                e.set_rt_var(&args[i], prg);
                i += 1;
            }
            assert(vs.take(args@.len() as int) =~= vs);
            match to_call {
                Var::FunctionLiteral { name, idx } => {
                    assert(to_call@ == (VarV::FunctionLiteral { name: name@, idx: *idx }));
                    e.jump(Instr::Call, name);
                },
                _ => {
                    assert(false);
                },
            }
            e.set_rt_lvar(returned, prg);
            let t = returned.get_type(prg.types.as_slice());
            e.set_rt_op(store_op(&t).unwrap());
        },
        Cmd::Return { to_return } => {
            e.set_rt_var(to_return, prg);
            e.set_rt_op(Instr::Ret);
        },
    }
}

/// The declarations of the first `k` arguments, each counted.
pub open spec fn arg_defs(s: EmitV, args: Seq<(Seq<char>, STV)>, table: Seq<(Seq<char>, TyV)>, k: nat) -> EmitV
    decreases k,
{
    if k == 0 {
        s
    } else {
        let p = arg_defs(s, args, table, (k - 1) as nat);
        EmitV {
            rt: put_op(p.rt, def_instr(st_type(args[k - 1].1, table))->0),
            idx: p.idx + 1,
            ..p
        }
    }
}

/// The stores of the arguments from the stack into their variables, last argument
/// first, for the first `k` of them.
pub open spec fn arg_stores(s: EmitV, args: Seq<(Seq<char>, STV)>, table: Seq<(Seq<char>, TyV)>, k: nat) -> EmitV
    decreases k,
{
    if k == 0 {
        s
    } else {
        let p = arg_stores(s, args, table, (k - 1) as nat);
        let ix = args.len() - k;
        EmitV {
            rt: put_op(
                put_word(put_op(p.rt, Instr::LoadVarAddr), ix as u64),
                store_instr(st_type(args[ix].1, table))->0,
            ),
            ..p
        }
    }
}

/// The last of the first `n` labels whose position, counted from `base`, is `key`
/// (-1 if none is).
pub open spec fn last_label(labels: Seq<(Seq<char>, usize)>, base: int, key: int, n: nat) -> int
    decreases n,
{
    if n == 0 {
        -1
    } else if labels[n - 1].1 + base + 1 == key {
        n - 1
    } else {
        last_label(labels, base, key, (n - 1) as nat)
    }
}

/// Records in the symbol table the label that stands at the current command.
pub open spec fn mark(s: EmitV, labels: Seq<(Seq<char>, usize)>, base: int) -> EmitV {
    let j = last_label(labels, base, s.idx, labels.len());
    if j >= 0 {
        EmitV {
            rt: RtV { symbols: s.rt.symbols.insert(labels[j].0, s.rt.bytes.len() as usize), ..s.rt },
            ..s
        }
    } else {
        s
    }
}

/// The code of the first `k` commands of a function, each preceded by its label.
pub open spec fn cmds_code(
    s: EmitV,
    cmds: Seq<CmdV>,
    labels: Seq<(Seq<char>, usize)>,
    base: int,
    table: Seq<(Seq<char>, TyV)>,
    k: nat,
) -> EmitV
    decreases k,
{
    if k == 0 {
        s
    } else {
        let p = cmds_code(s, cmds, labels, base, table, (k - 1) as nat);
        let c = cmd_code(mark(p, labels, base), cmds[k - 1], table);
        EmitV { idx: c.idx + 1, ..c }
    }
}

/// The function is `main`.
pub open spec fn is_main(f: Function) -> bool {
    f.display_name@ == seq!['m', 'a', 'i', 'n']
}

/// The code of a function: `main` sets the start; the function's name goes into the
/// symbol table at the current position; its arguments are declared and stored from the
/// stack; then its commands follow, each label entering the symbol table at its
/// command.
pub open spec fn fn_code(s: EmitV, name: Seq<char>, f: Function, table: Seq<(Seq<char>, TyV)>) -> EmitV {
    let s0 = if is_main(f) {
        EmitV { start: s.rt.bytes.len() as int, ..s }
    } else {
        s
    };
    let s1 = EmitV {
        rt: RtV { symbols: s0.rt.symbols.insert(name, s0.rt.bytes.len() as usize), ..s0.rt },
        ..s0
    };
    let args = fields_view(f.arguments@);
    let s3 = arg_stores(arg_defs(s1, args, table, args.len()), args, table, args.len());
    cmds_code(s3, crate::beam::mach::cmds_view(f.cmds@), f.labels.seq(), s.idx, table, f.cmds@.len())
}

/// A function can be compiled in state `s`: its name is not yet a symbol, its label
/// positions and its count of arguments and commands stay in range, its arguments
/// have types with instructions, and each command can be compiled.
pub open spec fn fn_ok(s: EmitV, name: Seq<char>, f: Function, table: Seq<(Seq<char>, TyV)>) -> bool {
    let args = fields_view(f.arguments@);
    &&& !s.rt.symbols.dom().contains(name)
    &&& forall|j: int|
        0 <= j < f.labels.seq().len() ==> #[trigger] f.labels.seq()[j].1 + s.idx + 1 <= usize::MAX
    &&& s.idx + args.len() + f.cmds@.len() <= usize::MAX
    &&& forall|i: int|
        0 <= i < args.len() ==> st_ok(#[trigger] args[i].1, table) && def_instr(
            st_type(args[i].1, table),
        ) is Some
    &&& forall|i: int| 0 <= i < f.cmds@.len() ==> cmd_ok(#[trigger] f.cmds@[i]@, table)
}

proof fn lemma_last_label_skip(labels: Seq<(Seq<char>, usize)>, base: int, key: int, j: nat, n: nat)
    requires
        j <= n <= labels.len(),
        forall|m: int| j <= m < n ==> #[trigger] labels[m].1 + base + 1 != key,
    ensures
        last_label(labels, base, key, n) == last_label(labels, base, key, j),
    decreases n,
{
    if n > j {
        lemma_last_label_skip(labels, base, key, j, (n - 1) as nat);
    }
}

proof fn lemma_last_label_range(labels: Seq<(Seq<char>, usize)>, base: int, key: int, n: nat)
    requires
        n <= labels.len(),
    ensures
        -1 <= last_label(labels, base, key, n) < n,
    decreases n,
{
    if n > 0 {
        lemma_last_label_range(labels, base, key, (n - 1) as nat);
    }
}

/// Records the label at the current command (see `mark`).
fn mark_label(e: &mut Emit, labels: &Table<usize>, base: usize)
    requires
        old(e).inv(),
        forall|j: int| 0 <= j < labels.seq().len() ==> #[trigger] labels.seq()[j].1 + base + 1 <= usize::MAX,
    ensures
        final(e).inv(),
        final(e).ev() == mark(old(e).ev(), labels.seq(), base as int),
{
    let ghost ls = labels.seq();
    let n = labels.count();
    let mut j: usize = n;
    while j > 0
        invariant
            j <= n,
            n == ls.len(),
            ls == labels.seq(),
            e.inv(),
            e.ev() == old(e).ev(),
            forall|m: int| j <= m < n ==> #[trigger] ls[m].1 + base + 1 != e.idx,
            forall|m: int| 0 <= m < ls.len() ==> #[trigger] ls[m].1 + base + 1 <= usize::MAX,
        decreases j,
    {
        j -= 1;
        let (lname, lpos) = labels.entry(j);
        if *lpos + base + 1 == e.idx {
            proof {
                lemma_last_label_skip(ls, base as int, e.idx as int, (j + 1) as nat, n as nat);
            }
            let pos = e.rt.data.iv.len();
            e.rt.symbol_table.insert(lname.clone(), pos);
            assert(e.ev() =~= mark(old(e).ev(), ls, base as int));
            return;
        }
    }
    proof {
        lemma_last_label_skip(ls, base as int, e.idx as int, 0, n as nat);
    }
}

/// Appends the code of a function (see `fn_code`).
#[verifier::rlimit(40)]
fn compile_fn(e: &mut Emit, name: &String, f: &Function, prg: &Program)
    requires
        old(e).inv(),
        fn_ok(old(e).ev(), name@, *f, table_view(prg.types@)),
    ensures
        final(e).inv(),
        final(e).ev() == fn_code(old(e).ev(), name@, *f, table_view(prg.types@)),
{
    let ghost table = table_view(prg.types@);
    let ghost s = e.ev();
    let ghost args = fields_view(f.arguments@);
    let base = e.idx;
    proof {
        reveal_strlit("main");
        assert("main"@ =~= seq!['m', 'a', 'i', 'n']);
    }
    if crate::text::str_equal(f.display_name.as_str(), "main") {
        e.start = e.rt.data.iv.len();
        assert(e.ev() =~= (EmitV { start: s.rt.bytes.len() as int, ..s }));
    }
    let ghost s0 = e.ev();
    assert(s0 == (if is_main(*f) {
        EmitV { start: s.rt.bytes.len() as int, ..s }
    } else {
        s
    }));
    let pos = e.rt.data.iv.len();
    e.rt.symbol_table.insert(name.clone(), pos);
    let ghost s1 = e.ev();
    assert(s1 =~= (EmitV {
        rt: RtV { symbols: s0.rt.symbols.insert(name@, s0.rt.bytes.len() as usize), ..s0.rt },
        ..s0
    }));
    let n = f.arguments.len();
    let mut i: usize = 0;
    while i < n
        invariant
            i <= n,
            n == args.len(),
            args == fields_view(f.arguments@),
            table == table_view(prg.types@),
            e.inv(),
            e.ev() == arg_defs(s1, args, table, i as nat),
            s1.idx == base,
            e.idx == base + i,
            base + args.len() + f.cmds@.len() <= usize::MAX,
            forall|k: int| 0 <= k < args.len() ==> st_ok(#[trigger] args[k].1, table) && def_instr(st_type(args[k].1, table)) is Some,
        decreases n - i,
    {
        assert(args[i as int].1 == f.arguments@[i as int].1@);
        let t = f.arguments[i].1.as_type(prg.types.as_slice());
        let d = def_op(&t).unwrap();
        e.set_rt_op(d);
        e.idx = e.idx + 1;
        assert(e.ev() =~= arg_defs(s1, args, table, (i + 1) as nat));
        i += 1;
    }
    let ghost s2 = e.ev();
    let mut k: usize = 0;
    while k < n
        invariant
            k <= n,
            n == args.len(),
            args == fields_view(f.arguments@),
            table == table_view(prg.types@),
            e.inv(),
            e.ev() == arg_stores(s2, args, table, k as nat),
            e.idx == base + n,
            base + args.len() + f.cmds@.len() <= usize::MAX,
            forall|m: int| 0 <= m < args.len() ==> st_ok(#[trigger] args[m].1, table) && def_instr(st_type(args[m].1, table)) is Some,
        decreases n - k,
    {
        let ix = n - 1 - k;
        assert(args[ix as int].1 == f.arguments@[ix as int].1@);
        e.set_rt_op(Instr::LoadVarAddr);
        let ghost before = e.ev();
        e.rt.word(ix as u64);
        assert(e.ev() =~= (EmitV { rt: put_word(before.rt, ix as u64), ..before })) by {
            lemma_le_bytes_len(ix as nat, 8);
        }
        let t = f.arguments[ix].1.as_type(prg.types.as_slice());
        e.set_rt_op(store_op(&t).unwrap());
        assert(e.ev() =~= arg_stores(s2, args, table, (k + 1) as nat));
        k += 1;
    }
    let ghost s3 = e.ev();
    let ghost cv = crate::beam::mach::cmds_view(f.cmds@);
    let ghost ls = f.labels.seq();
    let m = f.cmds.len();
    let mut c: usize = 0;
    while c < m
        invariant
            c <= m,
            m == f.cmds@.len(),
            cv == crate::beam::mach::cmds_view(f.cmds@),
            ls == f.labels.seq(),
            table == table_view(prg.types@),
            e.inv(),
            e.ev() == cmds_code(s3, cv, ls, base as int, table, c as nat),
            e.idx == s3.idx + c,
            s3.idx + m <= usize::MAX,
            forall|j: int| 0 <= j < ls.len() ==> #[trigger] ls[j].1 + base + 1 <= usize::MAX,
            forall|j: int| 0 <= j < f.cmds@.len() ==> cmd_ok(#[trigger] f.cmds@[j]@, table),
        decreases m - c,
    {
        mark_label(e, &f.labels, base);
        assert(cv[c as int] == f.cmds@[c as int]@);
        assert(cmd_ok(f.cmds@[c as int]@, table));
        compile_cmd(e, &f.cmds[c], prg);
        e.idx = e.idx + 1;
        assert(e.ev() =~= cmds_code(s3, cv, ls, base as int, table, (c + 1) as nat));
        c += 1;
    }
    assert(s2 == arg_defs(s1, args, table, args.len()));
    assert(s3 == arg_stores(s2, args, table, args.len()));
    assert(e.ev() == cmds_code(s3, cv, ls, s.idx, table, f.cmds@.len()));
}

/// The state after the first `k` functions of program `p`.
pub open spec fn run_fns(s: EmitV, p: Program, k: nat) -> EmitV
    decreases k,
{
    if k == 0 {
        s
    } else {
        let e = p.functions.seq()[k - 1];
        fn_code(run_fns(s, p, (k - 1) as nat), e.0, e.1, table_view(p.types@))
    }
}

/// The first `k` functions of program `p` can be compiled from state `s`.
pub open spec fn fns_ok(s: EmitV, p: Program, k: nat) -> bool
    decreases k,
{
    if k == 0 {
        true
    } else {
        let e = p.functions.seq()[k - 1];
        fns_ok(s, p, (k - 1) as nat) && fn_ok(run_fns(s, p, (k - 1) as nat), e.0, e.1, table_view(p.types@))
    }
}

/// The state after the first `n` programs, each function by function in its table's
/// order.
pub open spec fn run_progs(s: EmitV, ps: Seq<Program>, n: nat) -> EmitV
    decreases n,
{
    if n == 0 {
        s
    } else {
        run_fns(run_progs(s, ps, (n - 1) as nat), ps[n - 1], ps[n - 1].functions.seq().len())
    }
}

/// The first `n` programs can be compiled from state `s`.
pub open spec fn progs_ok(s: EmitV, ps: Seq<Program>, n: nat) -> bool
    decreases n,
{
    if n == 0 {
        true
    } else {
        progs_ok(s, ps, (n - 1) as nat) && fns_ok(
            run_progs(s, ps, (n - 1) as nat),
            ps[n - 1],
            ps[n - 1].functions.seq().len(),
        )
    }
}

/// The state the compiler starts from.
pub open spec fn emit_start() -> EmitV {
    EmitV {
        rt: RtV { bytes: seq![], strings: seq![], symbols: Map::empty(), floats: seq![] },
        fixups: seq![],
        idx: 0,
        start: 0,
    }
}

/// The state after all of `progs`, before the jumps are patched.
pub open spec fn compiled(progs: Seq<Program>) -> EmitV {
    run_progs(emit_start(), progs, progs.len())
}

/// `progs` can be compiled: no step of it would fail, and every jump goes to a symbol.
pub open spec fn compile_ok(progs: Seq<Program>) -> bool {
    let s = compiled(progs);
    &&& progs_ok(emit_start(), progs, progs.len())
    &&& forall|i: int| 0 <= i < s.fixups.len() ==> s.rt.symbols.dom().contains(#[trigger] s.fixups[i].1)
}

proof fn lemma_var_code_syms(r: RtV, v: VarV, table: Seq<(Seq<char>, TyV)>)
    ensures
        var_code(r, v, table).symbols == r.symbols,
    decreases v,
{
    match v {
        VarV::FieldAccess { of, .. } => lemma_var_code_syms(r, *of, table),
        _ => {},
    }
}

proof fn lemma_vars_code_syms(r: RtV, args: Seq<VarV>, table: Seq<(Seq<char>, TyV)>)
    ensures
        vars_code(r, args, table).symbols == r.symbols,
    decreases args.len(),
{
    if args.len() > 0 {
        lemma_vars_code_syms(r, args.drop_last(), table);
        lemma_var_code_syms(vars_code(r, args.drop_last(), table), args.last(), table);
    }
}

proof fn lemma_defs_code_syms(r: RtV, values: Seq<TyV>)
    ensures
        defs_code(r, values).symbols == r.symbols,
    decreases values.len(),
{
    if values.len() > 0 {
        lemma_defs_code_syms(r, values.drop_last());
    }
}

/// Compiling a command adds no symbol and keeps the start.
proof fn lemma_cmd_code_syms(s: EmitV, c: CmdV, table: Seq<(Seq<char>, TyV)>)
    ensures
        cmd_code(s, c, table).rt.symbols == s.rt.symbols,
        cmd_code(s, c, table).start == s.start,
{
    match c {
        CmdV::Binop { l, r, out, op } => {
            lemma_var_code_syms(s.rt, l, table);
            lemma_var_code_syms(var_code(s.rt, l, table), r, table);
            let ops = binop_instrs(var_type(l, table), op)->0;
            let r1 = put_op(var_code(var_code(s.rt, l, table), r, table), ops.0);
            match out {
                VarV::FieldAccess { of, .. } => lemma_var_code_syms(r1, *of, table),
                _ => {},
            }
        },
        CmdV::Assign { l, r } => {
            lemma_var_code_syms(s.rt, r, table);
            match l {
                VarV::FieldAccess { of, .. } => lemma_var_code_syms(var_code(s.rt, r, table), *of, table),
                _ => {},
            }
        },
        CmdV::JmpCond { cond, .. } => lemma_var_code_syms(s.rt, cond, table),
        CmdV::DeclareVariables { values } => lemma_defs_code_syms(s.rt, values),
        CmdV::Call { to_call, returned, args } => {
            lemma_vars_code_syms(s.rt, args, table);
            let s2 = jump(
                EmitV { rt: vars_code(s.rt, args, table), ..s },
                Instr::Call,
                to_call->FunctionLiteral_name,
            );
            match returned {
                VarV::FieldAccess { of, .. } => lemma_var_code_syms(s2.rt, *of, table),
                _ => {},
            }
        },
        CmdV::Return { to_return } => lemma_var_code_syms(s.rt, to_return, table),
        _ => {},
    }
}

/// Compiling commands only adds symbols, and keeps the start.
proof fn lemma_cmds_code_syms(
    s: EmitV,
    cmds: Seq<CmdV>,
    labels: Seq<(Seq<char>, usize)>,
    base: int,
    table: Seq<(Seq<char>, TyV)>,
    k: nat,
)
    ensures
        s.rt.symbols.dom().subset_of(cmds_code(s, cmds, labels, base, table, k).rt.symbols.dom()),
        cmds_code(s, cmds, labels, base, table, k).start == s.start,
    decreases k,
{
    if k > 0 {
        lemma_cmds_code_syms(s, cmds, labels, base, table, (k - 1) as nat);
        let p = cmds_code(s, cmds, labels, base, table, (k - 1) as nat);
        lemma_cmd_code_syms(mark(p, labels, base), cmds[k - 1], table);
    }
}

proof fn lemma_args_syms(s: EmitV, args: Seq<(Seq<char>, STV)>, table: Seq<(Seq<char>, TyV)>, k: nat)
    ensures
        arg_defs(s, args, table, k).rt.symbols == s.rt.symbols,
        arg_defs(s, args, table, k).start == s.start,
        arg_stores(s, args, table, k).rt.symbols == s.rt.symbols,
        arg_stores(s, args, table, k).start == s.start,
    decreases k,
{
    if k > 0 {
        lemma_args_syms(s, args, table, (k - 1) as nat);
    }
}

/// Compiling a function keeps the symbols there were and adds its name; the start moves
/// to it when it is `main`, else stays.
proof fn lemma_fn_code_syms(s: EmitV, name: Seq<char>, f: Function, table: Seq<(Seq<char>, TyV)>)
    ensures
        s.rt.symbols.dom().insert(name).subset_of(fn_code(s, name, f, table).rt.symbols.dom()),
        fn_code(s, name, f, table).start == if is_main(f) {
            s.rt.bytes.len() as int
        } else {
            s.start
        },
{
    let s0 = if is_main(f) {
        EmitV { start: s.rt.bytes.len() as int, ..s }
    } else {
        s
    };
    let s1 = EmitV { rt: RtV { symbols: s0.rt.symbols.insert(name, s0.rt.bytes.len() as usize), ..s0.rt }, ..s0 };
    let args = crate::beam::mach::fields_view(f.arguments@);
    lemma_args_syms(s1, args, table, args.len());
    let s2 = arg_defs(s1, args, table, args.len());
    lemma_args_syms(s2, args, table, args.len());
    let s3 = arg_stores(s2, args, table, args.len());
    lemma_cmds_code_syms(s3, crate::beam::mach::cmds_view(f.cmds@), f.labels.seq(), s.idx, table, f.cmds@.len());
}

/// The functions of the first `k` entries of a program are symbols after compiling
/// them, and no symbol is lost.
proof fn lemma_run_fns_syms(s: EmitV, p: Program, k: nat)
    requires
        k <= p.functions.seq().len(),
    ensures
        s.rt.symbols.dom().subset_of(run_fns(s, p, k).rt.symbols.dom()),
        forall|j: int| 0 <= j < k ==> run_fns(s, p, k).rt.symbols.dom().contains(#[trigger] p.functions.seq()[j].0),
        (forall|j: int| 0 <= j < k ==> !is_main(#[trigger] p.functions.seq()[j].1)) ==> run_fns(s, p, k).start == s.start,
    decreases k,
{
    if k > 0 {
        lemma_run_fns_syms(s, p, (k - 1) as nat);
        let e = p.functions.seq()[k - 1];
        lemma_fn_code_syms(run_fns(s, p, (k - 1) as nat), e.0, e.1, table_view(p.types@));
    }
}

proof fn lemma_run_progs_syms(s: EmitV, ps: Seq<Program>, n: nat)
    requires
        n <= ps.len(),
    ensures
        s.rt.symbols.dom().subset_of(run_progs(s, ps, n).rt.symbols.dom()),
        forall|i: int, j: int|
            0 <= i < n && 0 <= j < ps[i].functions.seq().len() ==> run_progs(s, ps, n).rt.symbols.dom().contains(
                #[trigger] ps[i].functions.seq()[j].0,
            ),
        (forall|i: int, j: int|
            0 <= i < n && 0 <= j < ps[i].functions.seq().len() ==> !is_main(#[trigger] ps[i].functions.seq()[j].1))
            ==> run_progs(s, ps, n).start == s.start,
    decreases n,
{
    if n > 0 {
        lemma_run_progs_syms(s, ps, (n - 1) as nat);
        let q = ps[n - 1];
        lemma_run_fns_syms(run_progs(s, ps, (n - 1) as nat), q, q.functions.seq().len());
    }
}

/// After compiling, every function of every program is in the symbol table, and
/// execution starts at position zero when no function is `main`.
pub proof fn law_functions_are_symbols(progs: Seq<Program>)
    ensures
        forall|i: int, j: int|
            0 <= i < progs.len() && 0 <= j < progs[i].functions.seq().len() ==> compiled(progs).rt.symbols.dom().contains(
                #[trigger] progs[i].functions.seq()[j].0,
            ),
        (forall|i: int, j: int|
            0 <= i < progs.len() && 0 <= j < progs[i].functions.seq().len() ==> !is_main(
                #[trigger] progs[i].functions.seq()[j].1,
            )) ==> compiled(progs).start == 0,
{
    lemma_run_progs_syms(emit_start(), progs, progs.len());
}

/// No label of `f` is named `key`.
pub open spec fn label_names_avoid(f: Function, key: Seq<char>) -> bool {
    forall|m: int| 0 <= m < f.labels.seq().len() ==> #[trigger] f.labels.seq()[m].0 != key
}

/// No label of any function of `progs` has the name of a function of `progs`.
pub open spec fn labels_avoid_functions(progs: Seq<Program>) -> bool {
    forall|i: int, j: int, i2: int, j2: int|
        0 <= i < progs.len() && 0 <= j < progs[i].functions.seq().len() && 0 <= i2 < progs.len() && 0 <= j2
            < progs[i2].functions.seq().len() ==> #[trigger] label_names_avoid(
            progs[i2].functions.seq()[j2].1,
            progs[i].functions.seq()[j].0,
        )
}

/// The name of the last of the first `k` functions of `p` that is `main`, or `mk` when
/// none of them is.
pub open spec fn last_main_fns(p: Program, k: nat, mk: Option<Seq<char>>) -> Option<Seq<char>>
    decreases k,
{
    if k == 0 {
        mk
    } else {
        let e = p.functions.seq()[k - 1];
        if is_main(e.1) {
            Some(e.0)
        } else {
            last_main_fns(p, (k - 1) as nat, mk)
        }
    }
}

/// The name of the last function named `main` in the first `n` programs, in the order in
/// which they are compiled.
pub open spec fn last_main(ps: Seq<Program>, n: nat) -> Option<Seq<char>>
    decreases n,
{
    if n == 0 {
        None
    } else {
        last_main_fns(ps[n - 1], ps[n - 1].functions.seq().len(), last_main(ps, (n - 1) as nat))
    }
}

/// The start is the symbol of `mk` (0 when there is none).
spec fn main_inv(s: EmitV, mk: Option<Seq<char>>) -> bool {
    match mk {
        Some(k) => s.rt.symbols.dom().contains(k) && s.start >= 0 && s.start as usize == s.rt.symbols[k],
        None => s.start == 0,
    }
}

proof fn lemma_cmds_code_keep(
    s: EmitV,
    cmds: Seq<CmdV>,
    labels: Seq<(Seq<char>, usize)>,
    base: int,
    table: Seq<(Seq<char>, TyV)>,
    k: nat,
    key: Seq<char>,
)
    requires
        s.rt.symbols.dom().contains(key),
        forall|m: int| 0 <= m < labels.len() ==> #[trigger] labels[m].0 != key,
    ensures
        cmds_code(s, cmds, labels, base, table, k).rt.symbols.dom().contains(key),
        cmds_code(s, cmds, labels, base, table, k).rt.symbols[key] == s.rt.symbols[key],
    decreases k,
{
    if k > 0 {
        lemma_cmds_code_keep(s, cmds, labels, base, table, (k - 1) as nat, key);
        let p = cmds_code(s, cmds, labels, base, table, (k - 1) as nat);
        lemma_last_label_range(labels, base, p.idx, labels.len());
        lemma_cmd_code_syms(mark(p, labels, base), cmds[k - 1], table);
    }
}

proof fn lemma_fn_code_main(s: EmitV, name: Seq<char>, f: Function, table: Seq<(Seq<char>, TyV)>, mk: Option<Seq<char>>)
    requires
        fn_ok(s, name, f, table),
        main_inv(s, mk),
        label_names_avoid(f, name),
        mk is Some ==> label_names_avoid(f, mk->0),
    ensures
        main_inv(fn_code(s, name, f, table), if is_main(f) { Some(name) } else { mk }),
{
    let s0 = if is_main(f) {
        EmitV { start: s.rt.bytes.len() as int, ..s }
    } else {
        s
    };
    let s1 = EmitV { rt: RtV { symbols: s0.rt.symbols.insert(name, s0.rt.bytes.len() as usize), ..s0.rt }, ..s0 };
    let args = crate::beam::mach::fields_view(f.arguments@);
    lemma_args_syms(s1, args, table, args.len());
    let s2 = arg_defs(s1, args, table, args.len());
    lemma_args_syms(s2, args, table, args.len());
    let s3 = arg_stores(s2, args, table, args.len());
    let cv = crate::beam::mach::cmds_view(f.cmds@);
    let ls = f.labels.seq();
    lemma_cmds_code_syms(s3, cv, ls, s.idx, table, f.cmds@.len());
    assert(fn_code(s, name, f, table) == cmds_code(s3, cv, ls, s.idx, table, f.cmds@.len()));
    if is_main(f) {
        lemma_cmds_code_keep(s3, cv, ls, s.idx, table, f.cmds@.len(), name);
    } else if mk is Some {
        let k = mk->0;
        assert(k != name);
        assert(s1.rt.symbols[k] == s.rt.symbols[k]);
        lemma_cmds_code_keep(s3, cv, ls, s.idx, table, f.cmds@.len(), k);
    }
}

proof fn lemma_last_main_fns_avoid(p: Program, q: Program, k: nat, mk: Option<Seq<char>>)
    requires
        k <= p.functions.seq().len(),
        forall|j: int, j2: int|
            0 <= j < k && 0 <= j2 < q.functions.seq().len() ==> #[trigger] label_names_avoid(
                q.functions.seq()[j2].1,
                p.functions.seq()[j].0,
            ),
        mk is Some ==> forall|j2: int|
            0 <= j2 < q.functions.seq().len() ==> #[trigger] label_names_avoid(q.functions.seq()[j2].1, mk->0),
    ensures
        last_main_fns(p, k, mk) is Some ==> forall|j2: int|
            0 <= j2 < q.functions.seq().len() ==> #[trigger] label_names_avoid(
                q.functions.seq()[j2].1,
                last_main_fns(p, k, mk)->0,
            ),
    decreases k,
{
    if k > 0 {
        lemma_last_main_fns_avoid(p, q, (k - 1) as nat, mk);
        let e = p.functions.seq()[k - 1];
        if is_main(e.1) {
            assert forall|j2: int| 0 <= j2 < q.functions.seq().len() implies #[trigger] label_names_avoid(
                q.functions.seq()[j2].1,
                e.0,
            ) by {
                assert(label_names_avoid(q.functions.seq()[j2].1, p.functions.seq()[k - 1].0));
            }
        }
    }
}

proof fn lemma_last_main_avoid(ps: Seq<Program>, n: nat, i2: int)
    requires
        n <= ps.len(),
        0 <= i2 < ps.len(),
        labels_avoid_functions(ps),
    ensures
        last_main(ps, n) is Some ==> forall|j2: int|
            0 <= j2 < ps[i2].functions.seq().len() ==> #[trigger] label_names_avoid(
                ps[i2].functions.seq()[j2].1,
                last_main(ps, n)->0,
            ),
    decreases n,
{
    if n > 0 {
        lemma_last_main_avoid(ps, (n - 1) as nat, i2);
        let p = ps[n - 1];
        let q = ps[i2];
        assert forall|j: int, j2: int|
            0 <= j < p.functions.seq().len() && 0 <= j2 < q.functions.seq().len() implies #[trigger] label_names_avoid(
            q.functions.seq()[j2].1,
            p.functions.seq()[j].0,
        ) by {
            assert(label_names_avoid(ps[i2].functions.seq()[j2].1, ps[n - 1].functions.seq()[j].0));
        }
        lemma_last_main_fns_avoid(p, q, p.functions.seq().len(), last_main(ps, (n - 1) as nat));
    }
}

proof fn lemma_run_fns_main(ps: Seq<Program>, i: int, s: EmitV, k: nat, mk: Option<Seq<char>>)
    requires
        0 <= i < ps.len(),
        k <= ps[i].functions.seq().len(),
        fns_ok(s, ps[i], k),
        main_inv(s, mk),
        labels_avoid_functions(ps),
        mk is Some ==> forall|j2: int|
            0 <= j2 < ps[i].functions.seq().len() ==> #[trigger] label_names_avoid(ps[i].functions.seq()[j2].1, mk->0),
    ensures
        main_inv(run_fns(s, ps[i], k), last_main_fns(ps[i], k, mk)),
    decreases k,
{
    if k > 0 {
        let p = ps[i];
        lemma_run_fns_main(ps, i, s, (k - 1) as nat, mk);
        assert forall|j: int, j2: int|
            0 <= j < (k - 1) as nat && 0 <= j2 < p.functions.seq().len() implies #[trigger] label_names_avoid(
            p.functions.seq()[j2].1,
            p.functions.seq()[j].0,
        ) by {
            assert(label_names_avoid(ps[i].functions.seq()[j2].1, ps[i].functions.seq()[j].0));
        }
        lemma_last_main_fns_avoid(p, p, (k - 1) as nat, mk);
        let e = p.functions.seq()[k - 1];
        assert(label_names_avoid(ps[i].functions.seq()[k - 1].1, ps[i].functions.seq()[k - 1].0));
        let prev = last_main_fns(p, (k - 1) as nat, mk);
        if prev is Some {
            assert(label_names_avoid(p.functions.seq()[k - 1].1, prev->0));
        }
        lemma_fn_code_main(run_fns(s, p, (k - 1) as nat), e.0, e.1, table_view(p.types@), prev);
    }
}

proof fn lemma_run_progs_main(ps: Seq<Program>, n: nat)
    requires
        n <= ps.len(),
        progs_ok(emit_start(), ps, n),
        labels_avoid_functions(ps),
    ensures
        main_inv(run_progs(emit_start(), ps, n), last_main(ps, n)),
    decreases n,
{
    if n > 0 {
        lemma_run_progs_main(ps, (n - 1) as nat);
        lemma_last_main_avoid(ps, (n - 1) as nat, n - 1);
        let q = ps[n - 1];
        lemma_run_fns_main(ps, n - 1, run_progs(emit_start(), ps, (n - 1) as nat), q.functions.seq().len(), last_main(ps, (n - 1) as nat));
    }
}

/// Execution starts at the function named `main` that is compiled last: the start is
/// its entry in the symbol table (which the compiled image keeps, and whose start is
/// this one), or 0 when no function is `main`; this holds when no label bears the name
/// of a function, since a label's entry replaces a function's of the same name.
pub proof fn law_start_is_last_main(progs: Seq<Program>)
    requires
        compile_ok(progs),
        labels_avoid_functions(progs),
    ensures
        match last_main(progs, progs.len()) {
            Some(k) => compiled(progs).rt.symbols.dom().contains(k) && compiled(progs).start >= 0
                && compiled(progs).start as usize == compiled(progs).rt.symbols[k],
            None => compiled(progs).start == 0,
        },
{
    lemma_run_progs_main(progs, progs.len());
}

/// `b` with the word `v` written over the 8 bytes at `pos`.
pub open spec fn patch_one(b: Seq<u8>, pos: int, v: usize) -> Seq<u8> {
    Seq::new(b.len(), |i: int| if pos <= i < pos + 8 { le8(v as u64)[i - pos] } else { b[i] })
}

/// `b` with the first `k` jump slots written with their symbols' positions.
pub open spec fn patched(b: Seq<u8>, fixups: Seq<(int, Seq<char>)>, symbols: Map<Seq<char>, usize>, k: nat) -> Seq<u8>
    decreases k,
{
    if k == 0 {
        b
    } else {
        let f = fixups[k - 1];
        patch_one(patched(b, fixups, symbols, (k - 1) as nat), f.0, symbols[f.1])
    }
}

/// The byte is the instruction of a jump, a conditional jump or a call.
pub open spec fn slot_op(b: u8) -> bool {
    b == instr_code(Instr::Jmp) || b == instr_code(Instr::JmpCond) || b == instr_code(Instr::Call)
}

/// Each slot to patch lies inside `b`, right after a jump or call instruction, and the
/// slots follow one another without overlapping.
pub open spec fn slots_wf(b: Seq<u8>, fix: Seq<(int, Seq<char>)>) -> bool {
    &&& forall|i: int| 0 <= i < fix.len() ==> 1 <= #[trigger] fix[i].0 && fix[i].0 + 8 <= b.len() && slot_op(b[fix[i].0 - 1])
    &&& forall|i: int, j: int| #![trigger fix[i], fix[j]] 0 <= i < j < fix.len() ==> fix[i].0 + 8 < fix[j].0
}

/// `b2` begins with `b`.
spec fn ext(b: Seq<u8>, b2: Seq<u8>) -> bool {
    b.len() <= b2.len() && forall|k: int| 0 <= k < b.len() ==> #[trigger] b2[k] == b[k]
}

proof fn lemma_wf_ext(b: Seq<u8>, b2: Seq<u8>, fix: Seq<(int, Seq<char>)>)
    requires
        ext(b, b2),
        slots_wf(b, fix),
    ensures
        slots_wf(b2, fix),
{
    assert forall|i: int| 0 <= i < fix.len() implies 1 <= #[trigger] fix[i].0 && fix[i].0 + 8 <= b2.len() && slot_op(b2[fix[i].0 - 1]) by {
        assert(b2[fix[i].0 - 1] == b[fix[i].0 - 1]);
    }
}

proof fn lemma_var_code_ext(r: RtV, v: VarV, table: Seq<(Seq<char>, TyV)>)
    ensures
        ext(r.bytes, var_code(r, v, table).bytes),
    decreases v,
{
    match v {
        VarV::FieldAccess { of, .. } => lemma_var_code_ext(r, *of, table),
        _ => {},
    }
}

proof fn lemma_lvar_code_ext(r: RtV, v: VarV, table: Seq<(Seq<char>, TyV)>)
    ensures
        ext(r.bytes, lvar_code(r, v, table).bytes),
{
    match v {
        VarV::FieldAccess { of, .. } => lemma_var_code_ext(r, *of, table),
        _ => {},
    }
}

proof fn lemma_vars_code_ext(r: RtV, args: Seq<VarV>, table: Seq<(Seq<char>, TyV)>)
    ensures
        ext(r.bytes, vars_code(r, args, table).bytes),
    decreases args.len(),
{
    if args.len() > 0 {
        lemma_vars_code_ext(r, args.drop_last(), table);
        lemma_var_code_ext(vars_code(r, args.drop_last(), table), args.last(), table);
    }
}

proof fn lemma_defs_code_ext(r: RtV, values: Seq<TyV>)
    ensures
        ext(r.bytes, defs_code(r, values).bytes),
    decreases values.len(),
{
    if values.len() > 0 {
        lemma_defs_code_ext(r, values.drop_last());
    }
}

proof fn lemma_jump_wf(s: EmitV, i: Instr, name: Seq<char>)
    requires
        slots_wf(s.rt.bytes, s.fixups),
        i == Instr::Jmp || i == Instr::JmpCond || i == Instr::Call,
    ensures
        slots_wf(jump(s, i, name).rt.bytes, jump(s, i, name).fixups),
        ext(s.rt.bytes, jump(s, i, name).rt.bytes),
{
    let t = jump(s, i, name);
    lemma_le_bytes_len(42069, 8);
    let pos = s.rt.bytes.len() + 1;
    assert(t.fixups.last().0 == pos);
    assert(t.rt.bytes[pos - 1] == instr_code(i));
    assert forall|a: int| 0 <= a < t.fixups.len() implies 1 <= #[trigger] t.fixups[a].0 && t.fixups[a].0 + 8 <= t.rt.bytes.len()
        && slot_op(t.rt.bytes[t.fixups[a].0 - 1]) by {
        if a < s.fixups.len() {
            assert(t.fixups[a] == s.fixups[a]);
            assert(t.rt.bytes[s.fixups[a].0 - 1] == s.rt.bytes[s.fixups[a].0 - 1]);
        }
    }
    assert forall|a: int, c: int| #![trigger t.fixups[a], t.fixups[c]] 0 <= a < c < t.fixups.len() implies t.fixups[a].0 + 8 < t.fixups[c].0 by {
        assert(t.fixups[a] == s.fixups[a]);
        if c < s.fixups.len() {
            assert(t.fixups[c] == s.fixups[c]);
        }
    }
}

proof fn lemma_cmd_code_wf(s: EmitV, c: CmdV, table: Seq<(Seq<char>, TyV)>)
    requires
        slots_wf(s.rt.bytes, s.fixups),
    ensures
        slots_wf(cmd_code(s, c, table).rt.bytes, cmd_code(s, c, table).fixups),
{
    match c {
        CmdV::Binop { l, r, out, op } => {
            lemma_var_code_ext(s.rt, l, table);
            lemma_var_code_ext(var_code(s.rt, l, table), r, table);
            let ops = binop_instrs(var_type(l, table), op)->0;
            let r1 = put_op(var_code(var_code(s.rt, l, table), r, table), ops.0);
            lemma_lvar_code_ext(r1, out, table);
            lemma_wf_ext(s.rt.bytes, cmd_code(s, c, table).rt.bytes, s.fixups);
        },
        CmdV::Assign { l, r } => {
            lemma_var_code_ext(s.rt, r, table);
            lemma_lvar_code_ext(var_code(s.rt, r, table), l, table);
            lemma_wf_ext(s.rt.bytes, cmd_code(s, c, table).rt.bytes, s.fixups);
        },
        CmdV::Jmp { to, .. } => lemma_jump_wf(s, Instr::Jmp, to),
        CmdV::JmpCond { cond, to, .. } => {
            lemma_var_code_ext(s.rt, cond, table);
            let s1 = EmitV { rt: var_code(s.rt, cond, table), ..s };
            lemma_wf_ext(s.rt.bytes, s1.rt.bytes, s.fixups);
            lemma_jump_wf(s1, Instr::JmpCond, to);
        },
        CmdV::DeclareVariables { values } => {
            lemma_defs_code_ext(s.rt, values);
            lemma_wf_ext(s.rt.bytes, cmd_code(s, c, table).rt.bytes, s.fixups);
        },
        CmdV::Call { to_call, returned, args } => {
            lemma_vars_code_ext(s.rt, args, table);
            let s1 = EmitV { rt: vars_code(s.rt, args, table), ..s };
            lemma_wf_ext(s.rt.bytes, s1.rt.bytes, s.fixups);
            let s2 = jump(s1, Instr::Call, to_call->FunctionLiteral_name);
            lemma_jump_wf(s1, Instr::Call, to_call->FunctionLiteral_name);
            lemma_lvar_code_ext(s2.rt, returned, table);
            lemma_wf_ext(s2.rt.bytes, cmd_code(s, c, table).rt.bytes, s2.fixups);
        },
        CmdV::Return { to_return } => {
            lemma_var_code_ext(s.rt, to_return, table);
            lemma_wf_ext(s.rt.bytes, cmd_code(s, c, table).rt.bytes, s.fixups);
        },
    }
}

proof fn lemma_cmds_code_wf(
    s: EmitV,
    cmds: Seq<CmdV>,
    labels: Seq<(Seq<char>, usize)>,
    base: int,
    table: Seq<(Seq<char>, TyV)>,
    k: nat,
)
    requires
        slots_wf(s.rt.bytes, s.fixups),
    ensures
        slots_wf(cmds_code(s, cmds, labels, base, table, k).rt.bytes, cmds_code(s, cmds, labels, base, table, k).fixups),
    decreases k,
{
    if k > 0 {
        lemma_cmds_code_wf(s, cmds, labels, base, table, (k - 1) as nat);
        let p = cmds_code(s, cmds, labels, base, table, (k - 1) as nat);
        lemma_cmd_code_wf(mark(p, labels, base), cmds[k - 1], table);
    }
}

proof fn lemma_args_wf(s: EmitV, args: Seq<(Seq<char>, STV)>, table: Seq<(Seq<char>, TyV)>, k: nat)
    requires
        slots_wf(s.rt.bytes, s.fixups),
    ensures
        slots_wf(arg_defs(s, args, table, k).rt.bytes, arg_defs(s, args, table, k).fixups),
        slots_wf(arg_stores(s, args, table, k).rt.bytes, arg_stores(s, args, table, k).fixups),
    decreases k,
{
    if k > 0 {
        lemma_args_wf(s, args, table, (k - 1) as nat);
        let p = arg_defs(s, args, table, (k - 1) as nat);
        lemma_wf_ext(p.rt.bytes, arg_defs(s, args, table, k).rt.bytes, p.fixups);
        let q = arg_stores(s, args, table, (k - 1) as nat);
        lemma_wf_ext(q.rt.bytes, arg_stores(s, args, table, k).rt.bytes, q.fixups);
    }
}

proof fn lemma_fn_code_wf(s: EmitV, name: Seq<char>, f: Function, table: Seq<(Seq<char>, TyV)>)
    requires
        slots_wf(s.rt.bytes, s.fixups),
    ensures
        slots_wf(fn_code(s, name, f, table).rt.bytes, fn_code(s, name, f, table).fixups),
{
    let s0 = if is_main(f) {
        EmitV { start: s.rt.bytes.len() as int, ..s }
    } else {
        s
    };
    let s1 = EmitV { rt: RtV { symbols: s0.rt.symbols.insert(name, s0.rt.bytes.len() as usize), ..s0.rt }, ..s0 };
    let args = crate::beam::mach::fields_view(f.arguments@);
    lemma_args_wf(s1, args, table, args.len());
    let s2 = arg_defs(s1, args, table, args.len());
    lemma_args_wf(s2, args, table, args.len());
    let s3 = arg_stores(s2, args, table, args.len());
    lemma_cmds_code_wf(s3, crate::beam::mach::cmds_view(f.cmds@), f.labels.seq(), s.idx, table, f.cmds@.len());
}

proof fn lemma_run_progs_wf(ps: Seq<Program>, n: nat, k: nat)
    requires
        n < ps.len() ==> k <= ps[n as int].functions.seq().len(),
        n <= ps.len(),
    ensures
        n < ps.len() ==> slots_wf(
            run_fns(run_progs(emit_start(), ps, n), ps[n as int], k).rt.bytes,
            run_fns(run_progs(emit_start(), ps, n), ps[n as int], k).fixups,
        ),
        slots_wf(run_progs(emit_start(), ps, n).rt.bytes, run_progs(emit_start(), ps, n).fixups),
    decreases n, k,
{
    if n > 0 {
        let m = (n - 1) as nat;
        lemma_run_progs_wf(ps, m, ps[m as int].functions.seq().len());
    }
    if n < ps.len() && k > 0 {
        lemma_run_progs_wf(ps, n, (k - 1) as nat);
        let p = ps[n as int];
        let e = p.functions.seq()[k - 1];
        lemma_fn_code_wf(run_fns(run_progs(emit_start(), ps, n), p, (k - 1) as nat), e.0, e.1, table_view(p.types@));
    }
}

proof fn lemma_patched(b: Seq<u8>, fix: Seq<(int, Seq<char>)>, symbols: Map<Seq<char>, usize>, k: nat)
    requires
        k <= fix.len(),
        slots_wf(b, fix),
    ensures
        patched(b, fix, symbols, k).len() == b.len(),
        forall|i: int| 0 <= i < fix.len() ==> #[trigger] patched(b, fix, symbols, k)[fix[i].0 - 1] == b[fix[i].0 - 1],
        forall|i: int| 0 <= i < k ==> #[trigger] patched(b, fix, symbols, k).subrange(fix[i].0, fix[i].0 + 8) == le8(
            symbols[fix[i].1] as u64,
        ),
    decreases k,
{
    if k > 0 {
        lemma_patched(b, fix, symbols, (k - 1) as nat);
        let prev = patched(b, fix, symbols, (k - 1) as nat);
        let f = fix[k - 1];
        let cur = patched(b, fix, symbols, k);
        lemma_le_bytes_len(symbols[f.1] as u64 as nat, 8);
        assert(cur == patch_one(prev, f.0, symbols[f.1]));
        assert forall|i: int| 0 <= i < fix.len() implies #[trigger] cur[fix[i].0 - 1] == b[fix[i].0 - 1] by {
            if i < k - 1 {
                assert(fix[i].0 + 8 < fix[k - 1].0);
            } else if i > k - 1 {
                assert(fix[k - 1].0 + 8 < fix[i].0);
            }
            assert(prev[fix[i].0 - 1] == b[fix[i].0 - 1]);
        }
        assert forall|i: int| 0 <= i < k implies #[trigger] cur.subrange(fix[i].0, fix[i].0 + 8) == le8(
            symbols[fix[i].1] as u64,
        ) by {
            if i < k - 1 {
                assert(fix[i].0 + 8 < fix[k - 1].0);
                assert(cur.subrange(fix[i].0, fix[i].0 + 8) =~= prev.subrange(fix[i].0, fix[i].0 + 8));
            } else {
                assert(cur.subrange(fix[i].0, fix[i].0 + 8) =~= le8(symbols[fix[i].1] as u64));
            }
        }
    }
}

/// In the compiled image every slot that was left after a jump, a conditional jump or a
/// call holds, in its 8 little-endian bytes, the position of the symbol that the
/// instruction names, and the instruction before the slot is kept.
pub proof fn law_jump_slots(progs: Seq<Program>)
    requires
        compile_ok(progs),
    ensures
        ({
            let s = compiled(progs);
            let b = patched(s.rt.bytes, s.fixups, s.rt.symbols, s.fixups.len());
            forall|i: int| 0 <= i < s.fixups.len() ==> {
                let pos = #[trigger] s.fixups[i].0;
                &&& 1 <= pos && pos + 8 <= b.len()
                &&& slot_op(b[pos - 1])
                &&& b.subrange(pos, pos + 8) == le8(s.rt.symbols[s.fixups[i].1] as u64)
            }
        }),
{
    let s = compiled(progs);
    if progs.len() > 0 {
        lemma_run_progs_wf(progs, progs.len(), 0);
    } else {
        lemma_run_progs_wf(progs, 0, 0);
    }
    lemma_patched(s.rt.bytes, s.fixups, s.rt.symbols, s.fixups.len());
    let b = patched(s.rt.bytes, s.fixups, s.rt.symbols, s.fixups.len());
    assert forall|i: int| 0 <= i < s.fixups.len() implies {
        let pos = #[trigger] s.fixups[i].0;
        &&& 1 <= pos && pos + 8 <= b.len()
        &&& slot_op(b[pos - 1])
        &&& b.subrange(pos, pos + 8) == le8(s.rt.symbols[s.fixups[i].1] as u64)
    } by {
        assert(b[s.fixups[i].0 - 1] == s.rt.bytes[s.fixups[i].0 - 1]);
        assert(b.subrange(s.fixups[i].0, s.fixups[i].0 + 8) == le8(s.rt.symbols[s.fixups[i].1] as u64));
    }
}

/// The compiled bytecode and where execution starts (the position of `main`).
#[derive(Debug)]
pub struct RtImage {
    pub rt: IntermediateRt,
    pub start: usize,
}

proof fn lemma_fns_ok(s: EmitV, p: Program, j: nat, k: nat)
    requires
        j <= k,
        fns_ok(s, p, k),
    ensures
        fns_ok(s, p, j),
    decreases k,
{
    if j < k {
        lemma_fns_ok(s, p, j, (k - 1) as nat);
    }
}

proof fn lemma_progs_ok(s: EmitV, ps: Seq<Program>, j: nat, n: nat)
    requires
        j <= n,
        progs_ok(s, ps, n),
    ensures
        progs_ok(s, ps, j),
    decreases n,
{
    if j < n {
        lemma_progs_ok(s, ps, j, (n - 1) as nat);
    }
}

fn patch(iv: &mut Vec<u8>, pos: usize, v: usize)
    requires
        pos + 8 <= old(iv)@.len(),
    ensures
        final(iv)@ == patch_one(old(iv)@, pos as int, v),
{
    let mut w: Vec<u8> = Vec::new();
    push_le(&mut w, v as u64, 8);
    proof {
        lemma_le_bytes_len(v as nat, 8);
        assert(w@ =~= le8(v as u64));
    }
    let n = iv.len();
    let mut j: usize = 0;
    while j < 8
        invariant
            j <= 8,
            n == old(iv)@.len(),
            pos + 8 <= old(iv)@.len(),
            w@ == le8(v as u64),
            w@.len() == 8,
            iv@ == Seq::new(
                old(iv)@.len(),
                |i: int| if pos <= i < pos + j { w@[i - pos] } else { old(iv)@[i] },
            ),
        decreases 8 - j,
    {
        iv.set(pos + j, w[j]);
        assert(iv@ =~= Seq::new(
            old(iv)@.len(),
            |i: int| if pos <= i < pos + j + 1 { w@[i - pos] } else { old(iv)@[i] },
        ));
        j += 1;
    }
    assert(iv@ =~= patch_one(old(iv)@, pos as int, v));
}

fn compile_prog(e: &mut Emit, p: &Program)
    requires
        old(e).inv(),
        fns_ok(old(e).ev(), *p, p.functions.seq().len()),
    ensures
        final(e).inv(),
        final(e).ev() == run_fns(old(e).ev(), *p, p.functions.seq().len()),
{
    let ghost s_p = e.ev();
    let nf = p.functions.count();
    let mut fi: usize = 0;
    while fi < nf
        invariant
            fi <= nf,
            nf == p.functions.seq().len(),
            e.inv(),
            e.ev() == run_fns(s_p, *p, fi as nat),
            fns_ok(s_p, *p, nf as nat),
        decreases nf - fi,
    {
        let (name, f) = p.functions.entry(fi);
        proof {
            lemma_fns_ok(s_p, *p, (fi + 1) as nat, nf as nat);
        }
        compile_fn(e, name, f, p);
        fi += 1;
    }
}

/// Whether the type reference can be resolved (see `st_ok`).
fn st_ok_exec(s: &crate::beam::mach::ShallowType, types: &Vec<(String, Type)>) -> (r: bool)
    ensures
        r == st_ok(s@, table_view(types@)),
{
    s.is_ptr || s.index < types.len() as u64
}

/// Whether the operand can be loaded (see `var_ok`).
fn var_ok_exec(v: &Var, prg: &Program) -> (r: bool)
    ensures
        r == var_ok(v@, table_view(prg.types@)),
    decreases v,
{
    match v {
        Var::Stack { vtype, .. } => {
            if st_ok_exec(vtype, &prg.types) {
                let t = vtype.as_type(&prg.types);
                load_op(&t).is_some()
            } else {
                false
            }
        },
        Var::FieldAccess { of, .. } => var_ok_exec(of, prg),
        Var::FunctionLiteral { .. } => false,
        Var::OperatorNew { new_type } => {
            if st_ok_exec(new_type, &prg.types) {
                let t = new_type.as_type(&prg.types);
                match t {
                    Type::Struct { .. } => true,
                    _ => false,
                }
            } else {
                false
            }
        },
        _ => true,
    }
}

/// Whether the operand's type can be resolved (see `var_type_ok`).
fn var_type_ok_exec(v: &Var, prg: &Program) -> (r: bool)
    ensures
        r == var_type_ok(v@, table_view(prg.types@)),
{
    match v {
        Var::Stack { vtype, .. } => st_ok_exec(vtype, &prg.types),
        Var::FieldAccess { return_type, .. } => st_ok_exec(return_type, &prg.types),
        _ => true,
    }
}

/// Whether the operand can be stored to (see `lvar_ok`).
fn lvar_ok_exec(v: &Var, prg: &Program) -> (r: bool)
    ensures
        r == lvar_ok(v@, table_view(prg.types@)),
{
    match v {
        Var::Stack { .. } => true,
        Var::FieldAccess { of, .. } => var_ok_exec(of, prg),
        _ => false,
    }
}

/// Whether the result can be stored to with an instruction of its type.
fn stored_ok_exec(v: &Var, prg: &Program) -> (r: bool)
    ensures
        r == (lvar_ok(v@, table_view(prg.types@)) && var_type_ok(v@, table_view(prg.types@)) && store_instr(
            var_type(v@, table_view(prg.types@)),
        ) is Some),
{
    if lvar_ok_exec(v, prg) && var_type_ok_exec(v, prg) {
        let t = v.get_type(&prg.types);
        store_op(&t).is_some()
    } else {
        false
    }
}

/// Whether the command can be compiled (see `cmd_ok`).
#[verifier::loop_isolation(false)]
fn cmd_ok_exec(c: &Cmd, prg: &Program) -> (r: bool)
    ensures
        r == cmd_ok(c@, table_view(prg.types@)),
{
    let ghost table = table_view(prg.types@);
    match c {
        Cmd::Binop { l, r, out, op } => {
            if var_ok_exec(l, prg) && var_ok_exec(r, prg) && var_type_ok_exec(l, prg) {
                let t = l.get_type(&prg.types);
                binop_ops(&t, *op).is_some() && lvar_ok_exec(out, prg)
            } else {
                false
            }
        },
        Cmd::Assign { l, r } => var_ok_exec(r, prg) && stored_ok_exec(l, prg),
        Cmd::Jmp { .. } => true,
        Cmd::JmpCond { cond, .. } => var_ok_exec(cond, prg),
        Cmd::DeclareVariables { values } => {
            let mut i: usize = 0;
            while i < values.len()
                invariant
                    i <= values@.len(),
                    forall|j: int| 0 <= j < i ==> (#[trigger] def_instr(crate::beam::mach::tys_view(values@)[j])) is Some,
                decreases values@.len() - i,
            {
                if def_op(&values[i]).is_none() {
                    assert(crate::beam::mach::tys_view(values@)[i as int] == values@[i as int]@);
                    assert(c@ == CmdV::DeclareVariables { values: crate::beam::mach::tys_view(values@) });
                    assert(def_instr(crate::beam::mach::tys_view(values@)[i as int]) is None);
                    return false;
                }
                assert(crate::beam::mach::tys_view(values@)[i as int] == values@[i as int]@);
                i += 1;
            }
            true
        },
        Cmd::Call { to_call, returned, args } => {
            let mut i: usize = 0;
            while i < args.len()
                invariant
                    i <= args@.len(),
                    table == table_view(prg.types@),
                    forall|j: int| 0 <= j < i ==> #[trigger] var_ok(crate::beam::mach::vars_view(args@)[j], table),
                decreases args@.len() - i,
            {
                if !var_ok_exec(&args[i], prg) {
                    assert(crate::beam::mach::vars_view(args@)[i as int] == args@[i as int]@);
                    assert(c@ == CmdV::Call {
                        to_call: to_call@,
                        returned: returned@,
                        args: crate::beam::mach::vars_view(args@),
                    });
                    assert(!var_ok(crate::beam::mach::vars_view(args@)[i as int], table));
                    assert(c@->Call_args == crate::beam::mach::vars_view(args@));
                    assert(cmd_ok(c@, table) ==> (forall|j: int|
                        0 <= j < c@->Call_args.len() ==> #[trigger] var_ok(c@->Call_args[j], table)));
                    assert(!cmd_ok(c@, table));
                    return false;
                }
                assert(crate::beam::mach::vars_view(args@)[i as int] == args@[i as int]@);
                i += 1;
            }
            let lit = match to_call {
                Var::FunctionLiteral { .. } => true,
                _ => false,
            };
            lit && stored_ok_exec(returned, prg)
        },
        Cmd::Return { to_return } => var_ok_exec(to_return, prg),
    }
}

/// Whether the function can be compiled in the current state (see `fn_ok`).
fn fn_ok_exec(e: &Emit, name: &String, f: &Function, prg: &Program) -> (r: bool)
    requires
        e.inv(),
    ensures
        r == fn_ok(e.ev(), name@, *f, table_view(prg.types@)),
{
    let ghost table = table_view(prg.types@);
    let ghost args = fields_view(f.arguments@);
    if e.rt.symbol_table.contains_key(name.as_str()) {
        return false;
    }
    let nl = f.labels.count();
    let mut j: usize = 0;
    while j < nl
        invariant
            j <= nl,
            nl == f.labels.seq().len(),
            forall|m: int| 0 <= m < j ==> #[trigger] f.labels.seq()[m].1 + e.idx + 1 <= usize::MAX,
        decreases nl - j,
    {
        let (_, pos) = f.labels.entry(j);
        match pos.checked_add(e.idx) {
            Some(a) => {
                if a == usize::MAX {
                    return false;
                }
            },
            None => {
                return false;
            },
        }
        j += 1;
    }
    match e.idx.checked_add(f.arguments.len()) {
        Some(a) => match a.checked_add(f.cmds.len()) {
            Some(_) => {},
            None => {
                return false;
            },
        },
        None => {
            return false;
        },
    }
    let mut i: usize = 0;
    while i < f.arguments.len()
        invariant
            i <= f.arguments@.len(),
            args == fields_view(f.arguments@),
            table == table_view(prg.types@),
            forall|k: int| 0 <= k < i ==> st_ok(#[trigger] args[k].1, table) && def_instr(st_type(args[k].1, table)) is Some,
        decreases f.arguments@.len() - i,
    {
        assert(args[i as int].1 == f.arguments@[i as int].1@);
        if !st_ok_exec(&f.arguments[i].1, &prg.types) {
            return false;
        }
        let t = f.arguments[i].1.as_type(&prg.types);
        if def_op(&t).is_none() {
            return false;
        }
        i += 1;
    }
    let mut k: usize = 0;
    while k < f.cmds.len()
        invariant
            k <= f.cmds@.len(),
            table == table_view(prg.types@),
            forall|m: int| 0 <= m < k ==> cmd_ok(#[trigger] f.cmds@[m]@, table),
        decreases f.cmds@.len() - k,
    {
        if !cmd_ok_exec(&f.cmds[k], prg) {
            return false;
        }
        k += 1;
    }
    true
}

/// Compiles programs into bytecode as `compile_mach_to_rt` does, when they can be
/// compiled (`compile_ok`); otherwise (a function named twice, an operand or a type
/// without an instruction, a jump to a name that is no symbol) gives `None`.
pub fn try_compile_mach_to_rt(progs: &[Program]) -> (r: Option<RtImage>)
    ensures
        r is Some <==> compile_ok(progs@),
        r matches Some(img) ==> img.rt@ == (RtV {
            bytes: patched(
                compiled(progs@).rt.bytes,
                compiled(progs@).fixups,
                compiled(progs@).rt.symbols,
                compiled(progs@).fixups.len(),
            ),
            ..compiled(progs@).rt
        }) && img.start == compiled(progs@).start,
{
    let mut e = Emit { rt: IntermediateRt::new(), fixups: Vec::new(), idx: 0, start: 0 };
    assert(e.ev() =~= emit_start());
    let mut pi: usize = 0;
    while pi < progs.len()
        invariant
            pi <= progs@.len(),
            e.inv(),
            e.ev() == run_progs(emit_start(), progs@, pi as nat),
            progs_ok(emit_start(), progs@, pi as nat),
        decreases progs@.len() - pi,
    {
        let p = &progs[pi];
        let ghost s_p = e.ev();
        let nf = p.functions.count();
        let mut fi: usize = 0;
        while fi < nf
            invariant
                fi <= nf,
                pi < progs@.len(),
                *p == progs@[pi as int],
                nf == p.functions.seq().len(),
                s_p == run_progs(emit_start(), progs@, pi as nat),
                progs_ok(emit_start(), progs@, pi as nat),
                e.inv(),
                e.ev() == run_fns(s_p, *p, fi as nat),
                fns_ok(s_p, *p, fi as nat),
            decreases nf - fi,
        {
            let (name, f) = p.functions.entry(fi);
            if !fn_ok_exec(&e, name, f, p) {
                proof {
                    if progs_ok(emit_start(), progs@, progs@.len()) {
                        lemma_progs_ok(emit_start(), progs@, (pi + 1) as nat, progs@.len());
                        lemma_fns_ok(s_p, *p, (fi + 1) as nat, nf as nat);
                    }
                }
                return None;
            }
            compile_fn(&mut e, name, f, p);
            fi += 1;
        }
        pi += 1;
    }
    let ghost s = e.ev();
    assert(s == compiled(progs@));
    let nfix = e.fixups.len();
    let mut k: usize = 0;
    while k < nfix
        invariant
            k <= nfix,
            nfix == s.fixups.len(),
            s == e.ev(),
            s == compiled(progs@),
            progs_ok(emit_start(), progs@, progs@.len()),
            e.inv(),
            slots_view(e.fixups@) == s.fixups,
            forall|i: int| 0 <= i < k ==> s.rt.symbols.dom().contains(#[trigger] s.fixups[i].1),
        decreases nfix - k,
    {
        assert(s.fixups[k as int] == (e.fixups@[k as int].0 as int, e.fixups@[k as int].1@));
        if !e.rt.symbol_table.contains_key(e.fixups[k].1.as_str()) {
            assert(!s.rt.symbols.dom().contains(s.fixups[k as int].1));
            assert(!compile_ok(progs@));
            return None;
        }
        k += 1;
    }
    patch_all(&mut e, Ghost(progs@));
    Some(RtImage { rt: e.rt, start: e.start })
}

/// Writes into every jump slot the position of the symbol it names.
fn patch_all(e: &mut Emit, Ghost(progs): Ghost<Seq<Program>>)
    requires
        old(e).inv(),
        old(e).ev() == compiled(progs),
        compile_ok(progs),
    ensures
        final(e).rt@ == (RtV {
            bytes: patched(
                compiled(progs).rt.bytes,
                compiled(progs).fixups,
                compiled(progs).rt.symbols,
                compiled(progs).fixups.len(),
            ),
            ..compiled(progs).rt
        }),
        final(e).start == compiled(progs).start,
{
    let ghost s = e.ev();
    let nfix = e.fixups.len();
    let mut k: usize = 0;
    while k < nfix
        invariant
            k <= nfix,
            nfix == s.fixups.len(),
            s == compiled(progs),
            compile_ok(progs),
            e.rt.symbol_table.wf(),
            e.rt.symbol_table.map() == s.rt.symbols,
            slots_view(e.fixups@) == s.fixups,
            forall|i: int| 0 <= i < e.fixups@.len() ==> #[trigger] e.fixups@[i].0 + 8 <= s.rt.bytes.len(),
            e.rt@ == (RtV { bytes: patched(s.rt.bytes, s.fixups, s.rt.symbols, k as nat), ..s.rt }),
            e.rt.data.iv@.len() == s.rt.bytes.len(),
            e.start == s.start,
        decreases nfix - k,
    {
        assert(s.fixups[k as int] == (e.fixups@[k as int].0 as int, e.fixups@[k as int].1@));
        assert(s.rt.symbols.dom().contains(s.fixups[k as int].1));
        let pos = e.fixups[k].0;
        let v = *e.rt.symbol_table.get(e.fixups[k].1.as_str()).unwrap();
        patch(&mut e.rt.data.iv, pos, v);
        assert(e.rt@ =~= (RtV { bytes: patched(s.rt.bytes, s.fixups, s.rt.symbols, (k + 1) as nat), ..s.rt }));
        k += 1;
    }
}

/// Compiles programs into bytecode, function by function in each program's table order.
///
/// The bytecode is that of `compiled(progs)` (see `fn_code`) with each jump's slot
/// holding the position of the symbol it jumps to; the string constants, the symbol
/// table and the float slots are those of `compiled(progs)`, and execution starts at
/// the last function named `main`.
pub fn compile_mach_to_rt(progs: &[Program]) -> (r: RtImage)
    requires
        compile_ok(progs@),
    ensures
        r.rt@ == (RtV {
            bytes: patched(
                compiled(progs@).rt.bytes,
                compiled(progs@).fixups,
                compiled(progs@).rt.symbols,
                compiled(progs@).fixups.len(),
            ),
            ..compiled(progs@).rt
        }),
        r.start == compiled(progs@).start,
{
    let mut e = Emit { rt: IntermediateRt::new(), fixups: Vec::new(), idx: 0, start: 0 };
    assert(e.ev() =~= emit_start());
    let mut pi: usize = 0;
    while pi < progs.len()
        invariant
            pi <= progs@.len(),
            e.inv(),
            e.ev() == run_progs(emit_start(), progs@, pi as nat),
            progs_ok(emit_start(), progs@, progs@.len()),
        decreases progs@.len() - pi,
    {
        proof {
            lemma_progs_ok(emit_start(), progs@, (pi + 1) as nat, progs@.len());
        }
        compile_prog(&mut e, &progs[pi]);
        pi += 1;
    }
    patch_all(&mut e, Ghost(progs@));
    RtImage { rt: e.rt, start: e.start }
}

} // verus!
