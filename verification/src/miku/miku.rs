//! Types and declarations of the miku intermediate language, their C spellings, and the
//! splitting of a source line into words.
use crate::text::{
    lines, lines_of, decimal, push_decimal,
    char_string, from_chars, i64_to_string, is_whitespace, push_char, push_str, signed_decimal,
    spec_is_whitespace, str_equal, debug_pretty,
};
use crate::number::{float_text, i64_text, is_float_text, parse_i64};
use crate::table::{entries_map, lemma_entries_map_value, Table};
use vstd::prelude::*;

verus! {

/// The types of miku values.
#[derive(Debug)]
pub enum MikuType {
    Integer,
    Double,
    String,
    Char,
    Bool,
    Undefined { name: String },
    PointerTo { to: Box<MikuType> },
    SliceOf { of: Box<MikuType> },
    ArrayOf { count: usize, of: Box<MikuType> },
    Struct { name: String, fields: Vec<MikuType> },
}

/// A miku type with its names taken as character sequences.
pub enum TypeV {
    Integer,
    Double,
    String,
    Char,
    Bool,
    Undefined { name: Seq<char> },
    PointerTo { to: Box<TypeV> },
    SliceOf { of: Box<TypeV> },
    ArrayOf { count: usize, of: Box<TypeV> },
    Struct { name: Seq<char>, fields: Seq<TypeV> },
}

/// The view of a type.
pub open spec fn type_view(t: MikuType) -> TypeV
    decreases t,
{
    match t {
        MikuType::Integer => TypeV::Integer,
        MikuType::Double => TypeV::Double,
        MikuType::String => TypeV::String,
        MikuType::Char => TypeV::Char,
        MikuType::Bool => TypeV::Bool,
        MikuType::Undefined { name } => TypeV::Undefined { name: name@ },
        MikuType::PointerTo { to } => TypeV::PointerTo { to: Box::new(type_view(*to)) },
        MikuType::SliceOf { of } => TypeV::SliceOf { of: Box::new(type_view(*of)) },
        MikuType::ArrayOf { count, of } => TypeV::ArrayOf {
            count,
            of: Box::new(type_view(*of)),
        },
        MikuType::Struct { name, fields } => TypeV::Struct {
            name: name@,
            fields: Seq::new(
                fields@.len(),
                |i: int|
                    if 0 <= i < fields@.len() {
                        type_view(fields@[i])
                    } else {
                        TypeV::Integer
                    },
            ),
        },
    }
}

impl View for MikuType {
    type V = TypeV;

    open spec fn view(&self) -> TypeV {
        type_view(*self)
    }
}

/// A copy of a type.
#[verifier::loop_isolation(false)]
fn copy_type(t: &MikuType) -> (r: MikuType)
    ensures
        r@ == t@,
    decreases t,
{
    match t {
        MikuType::Integer => MikuType::Integer,
        MikuType::Double => MikuType::Double,
        MikuType::String => MikuType::String,
        MikuType::Char => MikuType::Char,
        MikuType::Bool => MikuType::Bool,
        MikuType::Undefined { name } => MikuType::Undefined { name: name.clone() },
        MikuType::PointerTo { to } => MikuType::PointerTo { to: Box::new(copy_type(to)) },
        MikuType::SliceOf { of } => MikuType::SliceOf { of: Box::new(copy_type(of)) },
        MikuType::ArrayOf { count, of } => MikuType::ArrayOf {
            count: *count,
            of: Box::new(copy_type(of)),
        },
        MikuType::Struct { name, fields } => {
            let mut out: Vec<MikuType> = Vec::new();
            let mut i: usize = 0;
            while i < fields.len()
                invariant
                    i <= fields@.len(),
                    out@.len() == i,
                    forall|j: int| 0 <= j < i ==> (#[trigger] out@[j])@ == fields@[j]@,
                decreases fields@.len() - i,
            {
                proof {
                    assert(decreases_to!(*t => *fields));
                    assert(decreases_to!(*fields => fields@));
                    assert(decreases_to!(fields@ => fields@[i as int]));
                }
                out.push(copy_type(&fields[i]));
                i += 1;
            }
            let r = MikuType::Struct { name: name.clone(), fields: out };
            assert(r@->Struct_fields =~= t@->Struct_fields);
            r
        },
    }
}

impl Clone for MikuType {
    fn clone(&self) -> (r: Self)
        ensures
            r@ == self@,
    {
        copy_type(self)
    }
}

/// Whether two types are the same type (`==` on types).
#[verifier::loop_isolation(false)]
pub fn same_type(a: &MikuType, b: &MikuType) -> (r: bool)
    ensures
        r == (a@ == b@),
    decreases a,
{
    match (a, b) {
        (MikuType::Integer, MikuType::Integer) => true,
        (MikuType::Double, MikuType::Double) => true,
        (MikuType::String, MikuType::String) => true,
        (MikuType::Char, MikuType::Char) => true,
        (MikuType::Bool, MikuType::Bool) => true,
        (MikuType::Undefined { name: x }, MikuType::Undefined { name: y }) => str_equal(
            x.as_str(),
            y.as_str(),
        ),
        (MikuType::PointerTo { to: x }, MikuType::PointerTo { to: y }) => same_type(x, y),
        (MikuType::SliceOf { of: x }, MikuType::SliceOf { of: y }) => same_type(x, y),
        (MikuType::ArrayOf { count: c, of: x }, MikuType::ArrayOf { count: d, of: y }) => {
            *c == *d && same_type(x, y)
        },
        (MikuType::Struct { name: n1, fields: f1 }, MikuType::Struct { name: n2, fields: f2 }) => {
            if !str_equal(n1.as_str(), n2.as_str()) || f1.len() != f2.len() {
                assert(a@->Struct_fields.len() == f1@.len() && b@->Struct_fields.len()
                    == f2@.len());
                return false;
            }
            let mut i: usize = 0;
            while i < f1.len()
                invariant
                    i <= f1@.len(),
                    f1@.len() == f2@.len(),
                    forall|j: int| 0 <= j < i ==> (#[trigger] f1@[j])@ == f2@[j]@,
                decreases f1@.len() - i,
            {
                proof {
                    assert(decreases_to!(*a => *f1));
                    assert(decreases_to!(*f1 => f1@));
                    assert(decreases_to!(f1@ => f1@[i as int]));
                }
                if !same_type(&f1[i], &f2[i]) {
                    assert(a@->Struct_fields[i as int] != b@->Struct_fields[i as int]);
                    return false;
                }
                i += 1;
            }
            assert(a@->Struct_fields =~= b@->Struct_fields);
            true
        },
        _ => false,
    }
}

/// Whether the type has a C spelling.
pub open spec fn has_c_type(t: TypeV) -> bool {
    match t {
        TypeV::Integer | TypeV::Double | TypeV::Char | TypeV::Bool => true,
        TypeV::Undefined { .. } => true,
        _ => false,
    }
}

/// The C spelling of a type that has one.
pub open spec fn spec_c_type(t: TypeV) -> Seq<char> {
    match t {
        TypeV::Integer => "long"@,
        TypeV::Double => "double"@,
        TypeV::Char => "char"@,
        TypeV::Undefined { name } => name,
        _ => "bool"@,
    }
}

impl MikuType {
    /// The C type that values of this type are declared with.
    pub fn as_c_type(&self) -> (r: String)
        requires
            has_c_type(self@),
        ensures
            r@ == spec_c_type(self@),
    {
        match self {
            Self::Integer => String::from_str("long"),
            Self::Double => String::from_str("double"),
            Self::Char => String::from_str("char"),
            Self::Undefined { name } => name.clone(),
            _ => String::from_str("bool"),
        }
    }
}

/// A declared variable: name, index among its kind, and type.
#[derive(Debug)]
pub struct VarDec {
    pub name: String,
    pub index: usize,
    pub var_type: MikuType,
}

/// The view of a variable declaration.
pub struct VarDecV {
    pub name: Seq<char>,
    pub index: usize,
    pub var_type: TypeV,
}

impl View for VarDec {
    type V = VarDecV;

    open spec fn view(&self) -> VarDecV {
        VarDecV { name: self.name@, index: self.index, var_type: self.var_type@ }
    }
}

impl Clone for VarDec {
    fn clone(&self) -> (r: Self)
        ensures
            r@ == self@,
    {
        VarDec { name: self.name.clone(), index: self.index, var_type: self.var_type.clone() }
    }
}

/// A declared function: name, start instruction (once known), arguments and result type.
#[derive(Debug)]
pub struct FuncDec {
    pub name: String,
    pub index: Option<usize>,
    pub args: Vec<VarDec>,
    pub return_type: MikuType,
}

/// The view of a function declaration.
pub struct FuncDecV {
    pub name: Seq<char>,
    pub index: Option<usize>,
    pub args: Seq<VarDecV>,
    pub return_type: TypeV,
}

impl View for FuncDec {
    type V = FuncDecV;

    open spec fn view(&self) -> FuncDecV {
        FuncDecV {
            name: self.name@,
            index: self.index,
            args: self.args@.map_values(|d: VarDec| d@),
            return_type: self.return_type@,
        }
    }
}

/// Copies of the declarations in `v`.
pub fn copy_var_decs(v: &Vec<VarDec>) -> (r: Vec<VarDec>)
    ensures
        r@.map_values(|d: VarDec| d@) == v@.map_values(|d: VarDec| d@),
{
    let mut out: Vec<VarDec> = Vec::new();
    let mut i: usize = 0;
    while i < v.len()
        invariant
            i <= v@.len(),
            out@.len() == i,
            forall|j: int| 0 <= j < i ==> (#[trigger] out@[j])@ == v@[j]@,
        decreases v@.len() - i,
    {
        out.push(v[i].clone());
        i += 1;
    }
    assert(out@.map_values(|d: VarDec| d@) =~= v@.map_values(|d: VarDec| d@));
    out
}

impl Clone for FuncDec {
    fn clone(&self) -> (r: Self)
        ensures
            r@ == self@,
    {
        FuncDec {
            name: self.name.clone(),
            index: self.index,
            args: copy_var_decs(&self.args),
            return_type: self.return_type.clone(),
        }
    }
}

/// The C parameter list of `args` from position `i` on, each `type name`, separated by
/// commas.
pub open spec fn c_params(args: Seq<VarDecV>, i: int) -> Seq<char>
    decreases args.len() - i,
{
    if i < 0 || i >= args.len() {
        seq![]
    } else {
        spec_c_type(args[i].var_type) + seq![' '] + args[i].name + (if i != args.len() - 1 {
            seq![',']
        } else {
            seq![]
        }) + c_params(args, i + 1)
    }
}

/// The C declaration of a function: `ret miku_name(type arg,...)`.
pub open spec fn spec_c_dec(f: FuncDecV) -> Seq<char> {
    spec_c_type(f.return_type) + " miku_"@ + f.name + seq!['('] + c_params(f.args, 0) + seq![
        ')',
    ]
}

/// Whether every type in the signature has a C spelling.
pub open spec fn has_c_dec(f: FuncDecV) -> bool {
    &&& has_c_type(f.return_type)
    &&& forall|i: int| 0 <= i < f.args.len() ==> has_c_type(#[trigger] f.args[i].var_type)
}

impl FuncDec {

    /// The C declaration of the function (without a trailing `;`).
    pub fn as_c_dec(&self) -> (r: String)
        requires
            has_c_dec(self@),
        ensures
            r@ == spec_c_dec(self@),
    {
        let mut base = self.return_type.as_c_type();
        push_str(&mut base, " miku_");
        push_str(&mut base, self.name.as_str());
        push_char(&mut base, '(');
        let ghost head = base@;
        let mut i: usize = 0;
        while i < self.args.len()
            invariant
                has_c_dec(self@),
                i <= self.args@.len(),
                head + c_params(self@.args, 0) == base@ + c_params(self@.args, i as int),
            decreases self.args@.len() - i,
        {
            let ghost before = base@;
            assert(self@.args[i as int] == self.args@[i as int]@);
            push_str(&mut base, self.args[i].var_type.as_c_type().as_str());
            push_char(&mut base, ' ');
            push_str(&mut base, self.args[i].name.as_str());
            if i != self.args.len() - 1 {
                push_char(&mut base, ',');
            }
            assert(before + c_params(self@.args, i as int) == base@ + c_params(
                self@.args,
                i + 1,
            ));
            i += 1;
        }
        push_char(&mut base, ')');
        assert(c_params(self@.args, i as int) =~= seq![]);
        assert(base@ =~= spec_c_dec(self@));
        base
    }
}

/// A literal operand.  A floating-point literal is kept as the text it was written with,
/// text that `f64::from_str` accepts.
#[derive(Debug)]
pub enum MikuLiteral {
    Integer { v: i64 },
    Double { v: String },
    String { v: String },
    Char { v: char },
    Bool { v: bool },
}

/// The view of a literal.
pub enum LitV {
    Integer { v: i64 },
    Double { v: Seq<char> },
    String { v: Seq<char> },
    Char { v: char },
    Bool { v: bool },
}

impl View for MikuLiteral {
    type V = LitV;

    open spec fn view(&self) -> LitV {
        match self {
            MikuLiteral::Integer { v } => LitV::Integer { v: *v },
            MikuLiteral::Double { v } => LitV::Double { v: v@ },
            MikuLiteral::String { v } => LitV::String { v: v@ },
            MikuLiteral::Char { v } => LitV::Char { v: *v },
            MikuLiteral::Bool { v } => LitV::Bool { v: *v },
        }
    }
}

impl Clone for MikuLiteral {
    fn clone(&self) -> (r: Self)
        ensures
            r@ == self@,
    {
        match self {
            MikuLiteral::Integer { v } => MikuLiteral::Integer { v: *v },
            MikuLiteral::Double { v } => MikuLiteral::Double { v: v.clone() },
            MikuLiteral::String { v } => MikuLiteral::String { v: v.clone() },
            MikuLiteral::Char { v } => MikuLiteral::Char { v: *v },
            MikuLiteral::Bool { v } => MikuLiteral::Bool { v: *v },
        }
    }
}

/// An operand: a declared variable (with its index once known) or a literal.
#[derive(Debug)]
pub enum VarUse {
    Declared { index: Option<usize>, name: String, vtype: MikuType },
    Literal { v: MikuLiteral },
}

/// The view of an operand.
pub enum UseV {
    Declared { index: Option<usize>, name: Seq<char>, vtype: TypeV },
    Literal { v: LitV },
}

impl View for VarUse {
    type V = UseV;

    open spec fn view(&self) -> UseV {
        match self {
            VarUse::Declared { index, name, vtype } => UseV::Declared {
                index: *index,
                name: name@,
                vtype: vtype@,
            },
            VarUse::Literal { v } => UseV::Literal { v: v@ },
        }
    }
}

impl Clone for VarUse {
    fn clone(&self) -> (r: Self)
        ensures
            r@ == self@,
    {
        match self {
            VarUse::Declared { index, name, vtype } => VarUse::Declared {
                index: *index,
                name: name.clone(),
                vtype: vtype.clone(),
            },
            VarUse::Literal { v } => VarUse::Literal { v: v.clone() },
        }
    }
}

/// The view of an optional operand.
pub open spec fn opt_use(o: Option<VarUse>) -> Option<UseV> {
    match o {
        Some(u) => Some(u@),
        None => None,
    }
}

/// The views of a list of operands.
pub open spec fn uses_view(v: Seq<VarUse>) -> Seq<UseV> {
    v.map_values(|u: VarUse| u@)
}

/// A copy of an optional operand.
pub fn copy_opt_use(o: &Option<VarUse>) -> (r: Option<VarUse>)
    ensures
        opt_use(r) == opt_use(*o),
{
    match o {
        Some(u) => Some(u.clone()),
        None => None,
    }
}

/// Copies of a list of operands.
pub fn copy_uses(v: &Vec<VarUse>) -> (r: Vec<VarUse>)
    ensures
        uses_view(r@) == uses_view(v@),
{
    let mut out: Vec<VarUse> = Vec::new();
    let mut i: usize = 0;
    while i < v.len()
        invariant
            i <= v@.len(),
            out@.len() == i,
            forall|j: int| 0 <= j < i ==> (#[trigger] out@[j])@ == v@[j]@,
        decreases v@.len() - i,
    {
        out.push(v[i].clone());
        i += 1;
    }
    assert(uses_view(out@) =~= uses_view(v@));
    out
}

/// The type of a literal.
pub open spec fn lit_type(l: LitV) -> TypeV {
    match l {
        LitV::Integer { .. } => TypeV::Integer,
        LitV::Double { .. } => TypeV::Double,
        LitV::Char { .. } => TypeV::Char,
        LitV::Bool { .. } => TypeV::Bool,
        LitV::String { .. } => TypeV::String,
    }
}

/// The type of an operand: its declared type, or its literal's type.
pub open spec fn use_type(u: UseV) -> TypeV {
    match u {
        UseV::Declared { vtype, .. } => vtype,
        UseV::Literal { v } => lit_type(v),
    }
}

/// Whether the operand has a C spelling here: variables, integer, character and boolean
/// literals do; string literals and floating-point literals do not.
pub open spec fn has_c_form(u: UseV) -> bool {
    match u {
        UseV::Declared { .. } => true,
        UseV::Literal { v } => !(v is String) && !(v is Double),
    }
}

/// The C spelling of an operand that has one.
pub open spec fn use_c(u: UseV) -> Seq<char> {
    match u {
        UseV::Declared { name, .. } => name,
        UseV::Literal { v } => match v {
            LitV::Char { v } => seq![v],
            LitV::Bool { v } => if v {
                "true"@
            } else {
                "false"@
            },
            LitV::Integer { v } => signed_decimal(v as int),
            _ => seq![],
        },
    }
}

impl VarUse {
    /// The operand as it is written in C.
    pub fn as_c(&self) -> (r: String)
        requires
            has_c_form(self@),
        ensures
            r@ == use_c(self@),
    {
        match self {
            VarUse::Declared { index: _, name, vtype: _ } => name.clone(),
            VarUse::Literal { v } => match v {
                MikuLiteral::Char { v } => char_string(*v),
                MikuLiteral::Bool { v } => if *v {
                    String::from_str("true")
                } else {
                    String::from_str("false")
                },
                MikuLiteral::Integer { v } => i64_to_string(*v),
                _ => String::new(),
            },
        }
    }

    /// The operand's type.
    pub fn get_type(&self) -> (r: MikuType)
        ensures
            r@ == use_type(self@),
    {
        match self {
            VarUse::Declared { index: _, name: _, vtype } => vtype.clone(),
            VarUse::Literal { v } => match v {
                MikuLiteral::Integer { v: _ } => MikuType::Integer,
                MikuLiteral::Double { v: _ } => MikuType::Double,
                MikuLiteral::Char { v: _ } => MikuType::Char,
                MikuLiteral::Bool { v: _ } => MikuType::Bool,
                MikuLiteral::String { v: _ } => MikuType::String,
            },
        }
    }
}

/// The binary operations.
#[derive(Clone, Copy, Debug, PartialEq, Eq, Structural)]
pub enum OpType {
    Add,
    Sub,
    Mul,
    Div,
    CmpG,
    CmpE,
    CmpL,
    Or,
    And,
}

/// One instruction of a miku program.
#[derive(Debug)]
pub enum MikuInstr {
    BeginFunction { name: String, label_index: usize },
    EndFunction { name: String },
    Label { name: String, label_index: usize },
    Jmp { to: String, to_index: Option<usize> },
    Branch {
        to_true: String,
        to_true_index: Option<usize>,
        to_false: String,
        to_false_index: Option<usize>,
        var: VarUse,
    },
    Call { to: String, to_index: Option<usize>, return_var: Option<VarUse>, args: Vec<VarUse> },
    DeclVar { vtype: MikuType, var_name: String, count: u32 },
    DeclStatic { vtype: MikuType, var_name: String, count: u32, base_value: MikuLiteral },
    DeclExtern { vtype: MikuType, var_name: String },
    Assign { left: VarUse, right: VarUse },
    DerefAssign { left: VarUse, right: VarUse },
    GetRef { assigned_to: VarUse, of: VarUse },
    BinOp { left: VarUse, right: VarUse, output: VarUse, operation: OpType },
    Return { value: Option<VarUse> },
}

/// The view of an instruction.
pub enum InstrV {
    BeginFunction { name: Seq<char>, label_index: usize },
    EndFunction { name: Seq<char> },
    Label { name: Seq<char>, label_index: usize },
    Jmp { to: Seq<char>, to_index: Option<usize> },
    Branch {
        to_true: Seq<char>,
        to_true_index: Option<usize>,
        to_false: Seq<char>,
        to_false_index: Option<usize>,
        var: UseV,
    },
    Call { to: Seq<char>, to_index: Option<usize>, return_var: Option<UseV>, args: Seq<UseV> },
    DeclVar { vtype: TypeV, var_name: Seq<char>, count: u32 },
    DeclStatic { vtype: TypeV, var_name: Seq<char>, count: u32, base_value: LitV },
    DeclExtern { vtype: TypeV, var_name: Seq<char> },
    Assign { left: UseV, right: UseV },
    DerefAssign { left: UseV, right: UseV },
    GetRef { assigned_to: UseV, of: UseV },
    BinOp { left: UseV, right: UseV, output: UseV, operation: OpType },
    Return { value: Option<UseV> },
}

impl View for MikuInstr {
    type V = InstrV;

    open spec fn view(&self) -> InstrV {
        match self {
            MikuInstr::BeginFunction { name, label_index } => InstrV::BeginFunction {
                name: name@,
                label_index: *label_index,
            },
            MikuInstr::EndFunction { name } => InstrV::EndFunction { name: name@ },
            MikuInstr::Label { name, label_index } => InstrV::Label {
                name: name@,
                label_index: *label_index,
            },
            MikuInstr::Jmp { to, to_index } => InstrV::Jmp { to: to@, to_index: *to_index },
            MikuInstr::Branch { to_true, to_true_index, to_false, to_false_index, var } => {
                InstrV::Branch {
                    to_true: to_true@,
                    to_true_index: *to_true_index,
                    to_false: to_false@,
                    to_false_index: *to_false_index,
                    var: var@,
                }
            },
            MikuInstr::Call { to, to_index, return_var, args } => InstrV::Call {
                to: to@,
                to_index: *to_index,
                return_var: opt_use(*return_var),
                args: uses_view(args@),
            },
            MikuInstr::DeclVar { vtype, var_name, count } => InstrV::DeclVar {
                vtype: vtype@,
                var_name: var_name@,
                count: *count,
            },
            MikuInstr::DeclStatic { vtype, var_name, count, base_value } => InstrV::DeclStatic {
                vtype: vtype@,
                var_name: var_name@,
                count: *count,
                base_value: base_value@,
            },
            MikuInstr::DeclExtern { vtype, var_name } => InstrV::DeclExtern {
                vtype: vtype@,
                var_name: var_name@,
            },
            MikuInstr::Assign { left, right } => InstrV::Assign { left: left@, right: right@ },
            MikuInstr::DerefAssign { left, right } => InstrV::DerefAssign {
                left: left@,
                right: right@,
            },
            MikuInstr::GetRef { assigned_to, of } => InstrV::GetRef {
                assigned_to: assigned_to@,
                of: of@,
            },
            MikuInstr::BinOp { left, right, output, operation } => InstrV::BinOp {
                left: left@,
                right: right@,
                output: output@,
                operation: *operation,
            },
            MikuInstr::Return { value } => InstrV::Return { value: opt_use(*value) },
        }
    }
}

impl Clone for MikuInstr {
    fn clone(&self) -> (r: Self)
        ensures
            r@ == self@,
    {
        match self {
            MikuInstr::BeginFunction { name, label_index } => MikuInstr::BeginFunction {
                name: name.clone(),
                label_index: *label_index,
            },
            MikuInstr::EndFunction { name } => MikuInstr::EndFunction { name: name.clone() },
            MikuInstr::Label { name, label_index } => MikuInstr::Label {
                name: name.clone(),
                label_index: *label_index,
            },
            MikuInstr::Jmp { to, to_index } => MikuInstr::Jmp {
                to: to.clone(),
                to_index: *to_index,
            },
            MikuInstr::Branch { to_true, to_true_index, to_false, to_false_index, var } => {
                MikuInstr::Branch {
                    to_true: to_true.clone(),
                    to_true_index: *to_true_index,
                    to_false: to_false.clone(),
                    to_false_index: *to_false_index,
                    var: var.clone(),
                }
            },
            MikuInstr::Call { to, to_index, return_var, args } => MikuInstr::Call {
                to: to.clone(),
                to_index: *to_index,
                return_var: copy_opt_use(return_var),
                args: copy_uses(args),
            },
            MikuInstr::DeclVar { vtype, var_name, count } => MikuInstr::DeclVar {
                vtype: vtype.clone(),
                var_name: var_name.clone(),
                count: *count,
            },
            MikuInstr::DeclStatic { vtype, var_name, count, base_value } => {
                MikuInstr::DeclStatic {
                    vtype: vtype.clone(),
                    var_name: var_name.clone(),
                    count: *count,
                    base_value: base_value.clone(),
                }
            },
            MikuInstr::DeclExtern { vtype, var_name } => MikuInstr::DeclExtern {
                vtype: vtype.clone(),
                var_name: var_name.clone(),
            },
            MikuInstr::Assign { left, right } => MikuInstr::Assign {
                left: left.clone(),
                right: right.clone(),
            },
            MikuInstr::DerefAssign { left, right } => MikuInstr::DerefAssign {
                left: left.clone(),
                right: right.clone(),
            },
            MikuInstr::GetRef { assigned_to, of } => MikuInstr::GetRef {
                assigned_to: assigned_to.clone(),
                of: of.clone(),
            },
            MikuInstr::BinOp { left, right, output, operation } => MikuInstr::BinOp {
                left: left.clone(),
                right: right.clone(),
                output: output.clone(),
                operation: *operation,
            },
            MikuInstr::Return { value } => MikuInstr::Return { value: copy_opt_use(value) },
        }
    }
}

/// The views of a list of instructions.
pub open spec fn instrs_view(v: Seq<MikuInstr>) -> Seq<InstrV> {
    v.map_values(|i: MikuInstr| i@)
}

/// The view of a parser's state, tables taken as maps.
#[verifier::ext_equal]
pub struct StateV {
    pub instructions: Seq<InstrV>,
    pub labels: Map<Seq<char>, usize>,
    pub functions: Seq<FuncDecV>,
    pub extern_functions: Seq<FuncDecV>,
    pub local_vars: Map<Seq<char>, VarDecV>,
    pub global_vars: Map<Seq<char>, VarDecV>,
    pub extern_vars: Map<Seq<char>, TypeV>,
    pub types: Map<Seq<char>, TypeV>,
    pub current_function: Option<Seq<char>>,
}

/// The state of the parser of miku source: what has been read so far.
pub struct ParserState {
    pub instructions: Vec<MikuInstr>,
    pub labels: Table<usize>,
    pub functions: Vec<FuncDec>,
    pub extern_functions: Vec<FuncDec>,
    pub local_vars: Table<VarDec>,
    pub global_vars: Table<VarDec>,
    pub extern_vars: Table<MikuType>,
    pub types: Table<MikuType>,
    pub current_function: Option<String>,
}

/// The views of a list of function declarations.
pub open spec fn funcs_view(v: Seq<FuncDec>) -> Seq<FuncDecV> {
    v.map_values(|f: FuncDec| f@)
}

/// The views of a table of variable declarations.
pub open spec fn decs_view(m: Map<Seq<char>, VarDec>) -> Map<Seq<char>, VarDecV> {
    m.map_values(|d: VarDec| d@)
}

/// The views of a table of types.
pub open spec fn types_view(m: Map<Seq<char>, MikuType>) -> Map<Seq<char>, TypeV> {
    m.map_values(|t: MikuType| t@)
}

/// The view of an optional name.
pub open spec fn opt_name(o: Option<String>) -> Option<Seq<char>> {
    match o {
        Some(s) => Some(s@),
        None => None,
    }
}

impl View for ParserState {
    type V = StateV;

    open spec fn view(&self) -> StateV {
        StateV {
            instructions: instrs_view(self.instructions@),
            labels: self.labels.map(),
            functions: funcs_view(self.functions@),
            extern_functions: funcs_view(self.extern_functions@),
            local_vars: decs_view(self.local_vars.map()),
            global_vars: decs_view(self.global_vars.map()),
            extern_vars: types_view(self.extern_vars.map()),
            types: types_view(self.types.map()),
            current_function: opt_name(self.current_function),
        }
    }
}

/// The words of a line, each taken by its characters.
pub open spec fn words_view(line: Seq<String>) -> Seq<Seq<char>> {
    line.map_values(|s: String| s@)
}

/// The type that a type name in the source denotes.
pub open spec fn type_named(w: Seq<char>) -> TypeV {
    if w == "int"@ {
        TypeV::Integer
    } else if w == "float"@ {
        TypeV::Double
    } else if w == "char"@ {
        TypeV::Char
    } else if w == "bool"@ {
        TypeV::Bool
    } else if w == "string"@ {
        TypeV::String
    } else {
        TypeV::Undefined { name: w }
    }
}

/// The function header `ret name arg type arg type ...` that `line` spells, if it spells
/// one: a result type, a name, and pairs of argument name and type.
pub open spec fn header_of(line: Seq<Seq<char>>) -> Option<FuncDecV> {
    if line.len() < 2 || (line.len() - 2) % 2 != 0 {
        None
    } else {
        Some(
            FuncDecV {
                name: line[1],
                index: None,
                args: Seq::new(
                    ((line.len() - 2) / 2) as nat,
                    |k: int|
                        VarDecV {
                            name: line[2 + 2 * k],
                            index: k as usize,
                            var_type: type_named(line[3 + 2 * k]),
                        },
                ),
                return_type: type_named(line[0]),
            },
        )
    }
}

/// A word that starts with `'` is one that the literal check can slice: it has a second
/// character and its last character is ASCII.
pub open spec fn char_word_ok(w: Seq<char>) -> bool {
    w.len() > 0 && w[0] == '\'' ==> w.len() >= 2 && (w.last() as u32) < 128
}

/// The operand that the word `w` denotes in state `st`, if any: `_` denotes none; then in
/// turn a string literal (`"` first), a character literal (`'c'`), a floating-point literal
/// (any word with a `.`, which must then be one), an `i64` literal, `true` and `false`, a
/// local, a global and an extern variable.
pub open spec fn var_of(st: StateV, w: Seq<char>) -> Option<UseV> {
    if w == "_"@ {
        None
    } else if w.len() > 0 && w[0] == '"' {
        Some(UseV::Literal { v: LitV::String { v: w } })
    } else if w.len() == 3 && w[0] == '\'' {
        Some(UseV::Literal { v: LitV::Char { v: w[1] } })
    } else if w.contains('.') {
        if float_text(w) {
            Some(UseV::Literal { v: LitV::Double { v: w } })
        } else {
            None
        }
    } else if i64_text(w) is Some {
        Some(UseV::Literal { v: LitV::Integer { v: i64_text(w)->0 } })
    } else if w == "true"@ {
        Some(UseV::Literal { v: LitV::Bool { v: true } })
    } else if w == "false"@ {
        Some(UseV::Literal { v: LitV::Bool { v: false } })
    } else if st.local_vars.dom().contains(w) {
        Some(
            UseV::Declared {
                index: Some(st.local_vars[w].index),
                name: w,
                vtype: st.local_vars[w].var_type,
            },
        )
    } else if st.global_vars.dom().contains(w) {
        Some(
            UseV::Declared {
                index: Some(st.global_vars[w].index),
                name: w,
                vtype: st.global_vars[w].var_type,
            },
        )
    } else if st.extern_vars.dom().contains(w) {
        Some(UseV::Declared { index: None, name: w, vtype: st.extern_vars[w] })
    } else {
        None
    }
}

/// The operand that word `index` of `line` denotes, if there is such a word and it
/// denotes one.
pub open spec fn var_at(st: StateV, line: Seq<Seq<char>>, index: int) -> Option<UseV> {
    if 0 <= index < line.len() {
        var_of(st, line[index])
    } else {
        None
    }
}

/// Whether a character sequence contains `c`.
fn has_char(v: &Vec<char>, c: char) -> (r: bool)
    ensures
        r == v@.contains(c),
{
    let mut i: usize = 0;
    while i < v.len()
        invariant
            i <= v@.len(),
            forall|j: int| 0 <= j < i ==> v@[j] != c,
        decreases v@.len() - i,
    {
        if v[i] == c {
            assert(v@[i as int] == c);
            return true;
        }
        i += 1;
    }
    false
}

/// The state with one more instruction.
pub open spec fn with_instr(st: StateV, i: InstrV) -> StateV {
    StateV { instructions: st.instructions.push(i), ..st }
}

/// `m` after inserting each argument under its name, in order.
pub open spec fn insert_args(m: Map<Seq<char>, VarDecV>, args: Seq<VarDecV>) -> Map<
    Seq<char>,
    VarDecV,
>
    decreases args.len(),
{
    if args.len() == 0 {
        m
    } else {
        insert_args(m, args.drop_last()).insert(args.last().name, args.last())
    }
}

/// The position of the first declaration named `name`, if any.
pub open spec fn find_func(fs: Seq<FuncDecV>, name: Seq<char>) -> Option<int>
    decreases fs.len(),
{
    if fs.len() == 0 {
        None
    } else if fs[0].name == name {
        Some(0)
    } else {
        match find_func(fs.drop_first(), name) {
            Some(i) => Some(i + 1),
            None => None,
        }
    }
}

/// The declaration that a call of `name` resolves to: the first extern function of that
/// name if there is one, else the first defined function of that name.
pub open spec fn call_target(st: StateV, name: Seq<char>) -> Option<FuncDecV> {
    match find_func(st.extern_functions, name) {
        Some(i) => Some(st.extern_functions[i]),
        None => match find_func(st.functions, name) {
            Some(i) => Some(st.functions[i]),
            None => None,
        },
    }
}

/// A call matches its target's signature: the function is declared, the arguments have
/// the parameters' types, and the result variable (if any) has the result type.
pub open spec fn call_ok(st: StateV, to: Seq<char>, ret: Option<UseV>, args: Seq<UseV>) -> bool {
    match call_target(st, to) {
        Some(f) => {
            &&& f.args.len() == args.len()
            &&& forall|i: int| 0 <= i < args.len() ==> #[trigger] f.args[i].var_type == use_type(args[i])
            &&& (ret matches Some(v) ==> use_type(v) == f.return_type)
        },
        None => false,
    }
}

/// The operands that words `from..` of the line denote, if they all denote one.
pub open spec fn vars_from(st: StateV, line: Seq<Seq<char>>, from: int) -> Option<Seq<UseV>>
    decreases line.len() - from,
{
    if from >= line.len() {
        Some(seq![])
    } else {
        match (var_of(st, line[from]), vars_from(st, line, from + 1)) {
            (Some(u), Some(rest)) => Some(seq![u] + rest),
            _ => None,
        }
    }
}

/// The binary operation that a word names, if it names one.
pub open spec fn op_named(w: Seq<char>) -> Option<OpType> {
    if w == "+"@ {
        Some(OpType::Add)
    } else if w == "-"@ {
        Some(OpType::Sub)
    } else if w == "*"@ {
        Some(OpType::Mul)
    } else if w == "/"@ {
        Some(OpType::Div)
    } else if w == "<"@ {
        Some(OpType::CmpL)
    } else if w == ">"@ {
        Some(OpType::CmpG)
    } else if w == "=="@ {
        Some(OpType::CmpE)
    } else if w == "&&"@ {
        Some(OpType::And)
    } else if w == "||"@ {
        Some(OpType::Or)
    } else {
        None
    }
}

/// The value that a `static` declaration of type `t` gives the word `lit`, if the type
/// takes such a literal: strings take any word, floats a float literal, ints an `i64`.
pub open spec fn static_value(t: TypeV, lit: Seq<char>) -> Option<LitV> {
    match t {
        TypeV::String => Some(LitV::String { v: lit }),
        TypeV::Double => if float_text(lit) {
            Some(LitV::Double { v: lit })
        } else {
            None
        },
        TypeV::Integer => match i64_text(lit) {
            Some(v) => Some(LitV::Integer { v }),
            None => None,
        },
        _ => None,
    }
}

/// The line without its label, if its first word is one (ends with `:`).
pub open spec fn unlabelled(line: Seq<Seq<char>>) -> Seq<Seq<char>> {
    if line.len() > 0 && line[0].len() > 0 && line[0].last() == ':' {
        line.drop_first()
    } else {
        line
    }
}

/// The unlabelled lines on which reading panics: a `static` of type `char` or `bool` with
/// a value, and `decl_extern`, neither of which the language implements.
pub open spec fn body_unsupported(l: Seq<Seq<char>>) -> bool {
    &&& l.len() > 0
    &&& (l[0] == "decl_extern"@ || (l[0] == "static"@ && l.len() >= 4 && (l[2] == "char"@ || l[2]
        == "bool"@)))
}

/// The lines on which reading panics (see `body_unsupported`).
pub open spec fn line_unsupported(line: Seq<Seq<char>>) -> bool {
    body_unsupported(unlabelled(line))
}

/// The words of a line that the operand reader can take.
pub open spec fn line_ok(line: Seq<Seq<char>>) -> bool {
    &&& forall|i: int| 0 <= i < line.len() ==> char_word_ok(#[trigger] line[i])
    &&& !line_unsupported(line)
}

/// `= a b`, `^= a b`, `& a b`: an assignment, an assignment through a pointer, or taking
/// an address.
pub open spec fn pair_step(st: StateV, l: Seq<Seq<char>>) -> (StateV, bool) {
    let w = l[0];
    match (var_at(st, l, 1), var_at(st, l, 2)) {
        (Some(a), Some(b)) => (
            with_instr(
                st,
                if w == "="@ {
                    InstrV::Assign { left: a, right: b }
                } else if w == "^="@ {
                    InstrV::DerefAssign { left: a, right: b }
                } else {
                    InstrV::GetRef { assigned_to: a, of: b }
                },
            ),
            true,
        ),
        _ => (st, false),
    }
}

/// `defun ret name args...`: begins a function, whose arguments become the local
/// variables; refused inside another function.
pub open spec fn defun_step(st: StateV, l: Seq<Seq<char>>) -> (StateV, bool) {
    let n = st.instructions.len();
    if l.len() < 2 || st.current_function is Some {
        (st, false)
    } else {
        match header_of(l.drop_first()) {
            Some(f) => (
                StateV {
                    instructions: st.instructions.push(
                        InstrV::BeginFunction { name: l[2], label_index: n as usize },
                    ),
                    functions: st.functions.push(FuncDecV { index: Some(n as usize), ..f }),
                    local_vars: insert_args(st.local_vars, f.args),
                    current_function: Some(f.name),
                    ..st
                },
                true,
            ),
            None => (st, false),
        }
    }
}

/// `extern ret name args...`: declares a function defined elsewhere.
pub open spec fn extern_step(st: StateV, l: Seq<Seq<char>>) -> (StateV, bool) {
    if l.len() < 2 {
        (st, false)
    } else {
        match header_of(l.drop_first()) {
            Some(f) => (StateV { extern_functions: st.extern_functions.push(f), ..st }, true),
            None => (st, false),
        }
    }
}

/// `end`: ends the current function and forgets its local variables.
pub open spec fn end_step(st: StateV) -> (StateV, bool) {
    match st.current_function {
        Some(p) => (
            StateV {
                instructions: st.instructions.push(InstrV::EndFunction { name: p }),
                local_vars: Map::empty(),
                current_function: None,
                ..st
            },
            true,
        ),
        None => (st, false),
    }
}

/// `op out a b`: a binary operation.
pub open spec fn binop_step(st: StateV, l: Seq<Seq<char>>, op: OpType) -> (StateV, bool) {
    match (var_at(st, l, 1), var_at(st, l, 2), var_at(st, l, 3)) {
        (Some(o), Some(a), Some(b)) => (
            with_instr(st, InstrV::BinOp { left: a, right: b, output: o, operation: op }),
            true,
        ),
        _ => (st, false),
    }
}

/// `ret [v]`: returns, with the value if the second word denotes one.
pub open spec fn ret_step(st: StateV, l: Seq<Seq<char>>) -> (StateV, bool) {
    (with_instr(st, InstrV::Return { value: var_at(st, l, 1) }), true)
}

/// `jmp label`.
pub open spec fn jmp_step(st: StateV, l: Seq<Seq<char>>) -> (StateV, bool) {
    if l.len() < 2 {
        (st, false)
    } else {
        (with_instr(st, InstrV::Jmp { to: l[1], to_index: None }), true)
    }
}

/// `br cond if_true if_false`: a branch on a boolean.
pub open spec fn br_step(st: StateV, l: Seq<Seq<char>>) -> (StateV, bool) {
    match var_at(st, l, 1) {
        Some(c) => if l.len() >= 4 && use_type(c) == TypeV::Bool {
            (
                with_instr(
                    st,
                    InstrV::Branch {
                        to_true: l[2],
                        to_true_index: None,
                        to_false: l[3],
                        to_false_index: None,
                        var: c,
                    },
                ),
                true,
            )
        } else {
            (st, false)
        },
        None => (st, false),
    }
}

/// `decl name type`: declares a local variable, numbered by the count of locals so far.
pub open spec fn decl_step(st: StateV, l: Seq<Seq<char>>) -> (StateV, bool) {
    if l.len() < 3 {
        (st, false)
    } else {
        let count = st.local_vars.dom().len() as u32;
        let t = type_named(l[2]);
        (
            StateV {
                instructions: st.instructions.push(
                    InstrV::DeclVar { vtype: t, var_name: l[1], count },
                ),
                local_vars: st.local_vars.insert(
                    l[1],
                    VarDecV { name: l[1], var_type: t, index: count as usize },
                ),
                ..st
            },
            true,
        )
    }
}

/// `static name type value`: declares a global variable with its initial value,
/// numbered by the count of globals so far.
pub open spec fn static_step(st: StateV, l: Seq<Seq<char>>) -> (StateV, bool) {
    if l.len() < 4 {
        (st, false)
    } else {
        let t = type_named(l[2]);
        match static_value(t, l[3]) {
            Some(v) => {
                let count = st.global_vars.dom().len();
                (
                    StateV {
                        instructions: st.instructions.push(
                            InstrV::DeclStatic {
                                vtype: t,
                                var_name: l[1],
                                count: count as u32,
                                base_value: v,
                            },
                        ),
                        global_vars: st.global_vars.insert(
                            l[1],
                            VarDecV { name: l[1], index: count as usize, var_type: t },
                        ),
                        ..st
                    },
                    true,
                )
            },
            None => (st, false),
        }
    }
}

/// `name [ret args...]`: a call of `name`, whose result goes to the second word if that
/// denotes an operand; the call must match the callee's signature.
pub open spec fn call_step(st: StateV, l: Seq<Seq<char>>) -> (StateV, bool) {
    let ret = var_at(st, l, 1);
    match vars_from(st, l, 2) {
        Some(args) => if call_ok(st, l[0], ret, args) {
            (
                with_instr(st, InstrV::Call { to: l[0], to_index: None, return_var: ret, args }),
                true,
            )
        } else {
            (st, false)
        },
        None => (st, false),
    }
}

/// Reading an unlabelled, non-empty line: the new state, and whether the line was
/// accepted.  A refused line leaves the state as it was.
pub open spec fn parse_body(st: StateV, l: Seq<Seq<char>>) -> (StateV, bool) {
    let w = l[0];
    if w == "="@ || w == "^="@ || w == "&"@ {
        pair_step(st, l)
    } else if w == "defun"@ {
        defun_step(st, l)
    } else if w == "extern"@ {
        extern_step(st, l)
    } else if w == "end"@ {
        end_step(st)
    } else if op_named(w) is Some {
        binop_step(st, l, op_named(w)->0)
    } else if w == "ret"@ {
        ret_step(st, l)
    } else if w == "jmp"@ {
        jmp_step(st, l)
    } else if w == "br"@ {
        br_step(st, l)
    } else if w == "decl"@ {
        decl_step(st, l)
    } else if w == "static"@ {
        static_step(st, l)
    } else {
        call_step(st, l)
    }
}

/// Reading one line of miku source: a leading label (a first word ending in `:`) records
/// the label at the current instruction and adds a `Label` instruction; the rest of the
/// line, if any, is read by `parse_body`.  The state after, and whether the line was
/// accepted.
pub open spec fn parse_line(st: StateV, line: Seq<Seq<char>>) -> (StateV, bool) {
    if line.len() == 0 {
        (st, true)
    } else if line[0].len() > 0 && line[0].last() == ':' {
        let name = line[0].drop_last();
        let n = st.instructions.len();
        let st1 = StateV {
            instructions: st.instructions.push(
                InstrV::Label { name: name, label_index: n as usize },
            ),
            labels: st.labels.insert(name, n as usize),
            ..st
        };
        if line.len() == 1 {
            (st1, true)
        } else {
            parse_body(st1, line.drop_first())
        }
    } else {
        parse_body(st, line)
    }
}

proof fn lemma_instrs_push(v: Seq<MikuInstr>, x: MikuInstr)
    ensures
        instrs_view(v.push(x)) == instrs_view(v).push(x@),
{
    assert(instrs_view(v.push(x)) =~= instrs_view(v).push(x@));
}

proof fn lemma_funcs_push(v: Seq<FuncDec>, x: FuncDec)
    ensures
        funcs_view(v.push(x)) == funcs_view(v).push(x@),
{
    assert(funcs_view(v.push(x)) =~= funcs_view(v).push(x@));
}

proof fn lemma_decs_insert(m: Map<Seq<char>, VarDec>, k: Seq<char>, d: VarDec)
    ensures
        decs_view(m.insert(k, d)) == decs_view(m).insert(k, d@),
{
    assert(decs_view(m.insert(k, d)) =~= decs_view(m).insert(k, d@));
}

/// Whether a word ends with `:`.
fn ends_with_colon(w: &String) -> (r: bool)
    ensures
        r == (w@.len() > 0 && w@.last() == ':'),
{
    let v = crate::text::to_chars(w.as_str());
    v.len() > 0 && v[v.len() - 1] == ':'
}

/// The word without its last character.
fn drop_last_char(w: &String) -> (r: String)
    requires
        w@.len() > 0,
    ensures
        r@ == w@.drop_last(),
{
    let v = crate::text::to_chars(w.as_str());
    let mut out: Vec<char> = Vec::new();
    let mut i: usize = 0;
    let n: usize = v.len() - 1;
    while i < n
        invariant
            v@ == w@,
            n + 1 == v@.len(),
            i <= n,
            out@ == v@.take(i as int),
        decreases v@.len() - i,
    {
        out.push(v[i]);
        assert(v@.take(i + 1) == v@.take(i as int).push(v@[i as int]));
        i += 1;
    }
    assert(out@ =~= w@.drop_last());
    from_chars(out.as_slice())
}

/// Copies of the words after the first.
fn tail_words(line: &[String]) -> (r: Vec<String>)
    requires
        line@.len() >= 1,
    ensures
        words_view(r@) == words_view(line@).drop_first(),
{
    let mut out: Vec<String> = Vec::new();
    let mut i: usize = 1;
    while i < line.len()
        invariant
            1 <= i <= line@.len(),
            out@.len() == i - 1,
            forall|j: int| 0 <= j < out@.len() ==> (#[trigger] out@[j])@ == line@[j + 1]@,
        decreases line@.len() - i,
    {
        out.push(line[i].clone());
        i += 1;
    }
    assert(words_view(out@) =~= words_view(line@).drop_first());
    out
}

/// The binary operation that a word names, if any.
fn op_word(w: &str) -> (r: Option<OpType>)
    ensures
        r == op_named(w@),
{
    if str_equal(w, "+") {
        Some(OpType::Add)
    } else if str_equal(w, "-") {
        Some(OpType::Sub)
    } else if str_equal(w, "*") {
        Some(OpType::Mul)
    } else if str_equal(w, "/") {
        Some(OpType::Div)
    } else if str_equal(w, "<") {
        Some(OpType::CmpL)
    } else if str_equal(w, ">") {
        Some(OpType::CmpG)
    } else if str_equal(w, "==") {
        Some(OpType::CmpE)
    } else if str_equal(w, "&&") {
        Some(OpType::And)
    } else if str_equal(w, "||") {
        Some(OpType::Or)
    } else {
        None
    }
}

/// The words of a line can all be read as operands.
pub open spec fn words_ok(l: Seq<String>) -> bool {
    forall|i: int| 0 <= i < l.len() ==> char_word_ok(#[trigger] l[i]@)
}

proof fn lemma_find_func(fs: Seq<FuncDecV>, name: Seq<char>, i: int)
    requires
        0 <= i <= fs.len(),
        forall|j: int| 0 <= j < i ==> #[trigger] fs[j].name != name,
    ensures
        i < fs.len() && fs[i].name == name ==> find_func(fs, name) == Some(i),
        i == fs.len() ==> find_func(fs, name) is None,
    decreases fs.len(),
{
    if fs.len() > 0 {
        if i > 0 {
            assert forall|j: int| 0 <= j < i - 1 implies #[trigger] fs.drop_first()[j].name != name by {
                assert(fs.drop_first()[j] == fs[j + 1]);
            }
            lemma_find_func(fs.drop_first(), name, i - 1);
            if i < fs.len() {
                assert(fs.drop_first()[i - 1] == fs[i]);
            }
        }
    }
}

/// The position of the first declaration named `name`.
pub(crate) fn find_decl(fs: &Vec<FuncDec>, name: &str) -> (r: Option<usize>)
    ensures
        match r {
            Some(i) => i < fs@.len() && find_func(funcs_view(fs@), name@) == Some(i as int),
            None => find_func(funcs_view(fs@), name@) is None,
        },
{
    let ghost v = funcs_view(fs@);
    let mut i: usize = 0;
    while i < fs.len()
        invariant
            i <= fs@.len(),
            v == funcs_view(fs@),
            forall|j: int| 0 <= j < i ==> #[trigger] v[j].name != name@,
        decreases fs@.len() - i,
    {
        if str_equal(fs[i].name.as_str(), name) {
            proof {
                lemma_find_func(v, name@, i as int);
            }
            return Some(i);
        }
        i += 1;
    }
    proof {
        lemma_find_func(v, name@, i as int);
    }
    None
}

proof fn lemma_vars_from_none(st: StateV, l: Seq<Seq<char>>, from: int, bad: int)
    requires
        0 <= from <= bad < l.len(),
        var_of(st, l[bad]) is None,
    ensures
        vars_from(st, l, from) is None,
    decreases bad - from,
{
    if from < bad {
        lemma_vars_from_none(st, l, from + 1, bad);
    }
}

proof fn lemma_vars_from_some(st: StateV, l: Seq<Seq<char>>, from: int, us: Seq<UseV>)
    requires
        0 <= from,
        from <= l.len() ==> us.len() == l.len() - from,
        from > l.len() ==> us.len() == 0,
        forall|j: int| 0 <= j < us.len() ==> Some(#[trigger] us[j]) == var_of(st, l[j + from]),
    ensures
        vars_from(st, l, from) == Some(us),
    decreases l.len() - from,
{
    if from < l.len() {
        assert forall|j: int| 0 <= j < us.drop_first().len() implies Some(
            #[trigger] us.drop_first()[j],
        ) == var_of(st, l[j + (from + 1)]) by {
            assert(us.drop_first()[j] == us[j + 1]);
        }
        lemma_vars_from_some(st, l, from + 1, us.drop_first());
        assert(Some(us[0]) == var_of(st, l[0 + from]));
        assert(seq![us[0]] + us.drop_first() =~= us);
    } else {
        assert(us =~= seq![]);
    }
}

/// An instruction with its jump targets resolved against `labels`, or `None` when a
/// target is not a label.
pub open spec fn fix_instr(labels: Map<Seq<char>, usize>, i: InstrV) -> Option<InstrV> {
    match i {
        InstrV::Jmp { to, .. } => if labels.dom().contains(to) {
            Some(InstrV::Jmp { to, to_index: Some(labels[to]) })
        } else {
            None
        },
        InstrV::Branch { to_true, to_false, var, .. } => if labels.dom().contains(to_true)
            && labels.dom().contains(to_false) {
            Some(
                InstrV::Branch {
                    to_true,
                    to_true_index: Some(labels[to_true]),
                    to_false,
                    to_false_index: Some(labels[to_false]),
                    var,
                },
            )
        } else {
            None
        },
        _ => Some(i),
    }
}

/// The instructions with those before position `k` resolved.
pub open spec fn fixed_upto(labels: Map<Seq<char>, usize>, s: Seq<InstrV>, k: int) -> Seq<
    InstrV,
> {
    Seq::new(s.len(), |j: int| if j < k { fix_instr(labels, s[j])->0 } else { s[j] })
}

/// Every branch tests an operand of type `bool`.
pub open spec fn branches_bool(s: Seq<InstrV>) -> bool {
    forall|j: int| 0 <= j < s.len() ==> (#[trigger] s[j] matches InstrV::Branch { var, .. } ==> use_type(var) == TypeV::Bool)
}

/// Resolving jumps stops at the first instruction whose target is not a label: the
/// instructions before it are resolved, the others kept as they were.
pub open spec fn fixups_result(labels: Map<Seq<char>, usize>, s: Seq<InstrV>, out: Seq<InstrV>, ok: bool) -> bool {
    if ok {
        &&& forall|j: int| 0 <= j < s.len() ==> fix_instr(labels, #[trigger] s[j]) is Some
        &&& out == fixed_upto(labels, s, s.len() as int)
    } else {
        exists|k: int|
            0 <= k < s.len() && fix_instr(labels, #[trigger] s[k]) is None && (forall|j: int|
                0 <= j < k ==> fix_instr(labels, #[trigger] s[j]) is Some) && out == fixed_upto(
                labels,
                s,
                k,
            )
    }
}

/// A label's position, looked up in a table.
fn label_index(labels: &Table<usize>, name: &String) -> (r: Result<usize, String>)
    requires
        labels.wf(),
    ensures
        match r {
            Ok(i) => labels.map().dom().contains(name@) && i == labels.map()[name@],
            Err(_) => !labels.map().dom().contains(name@),
        },
{
    match labels.get(name.as_str()) {
        Some(i) => Ok(*i),
        None => {
            let mut e = String::from_str("could not find label ");
            push_str(&mut e, debug_pretty(name.as_str()).as_str());
            Err(e)
        },
    }
}

/// Resolves the jump targets of one instruction.
fn fix_one(labels: &Table<usize>, i: &MikuInstr) -> (r: Result<MikuInstr, String>)
    requires
        labels.wf(),
        i@ matches InstrV::Branch { var, .. } ==> use_type(var) == TypeV::Bool,
    ensures
        match r {
            Ok(j) => fix_instr(labels.map(), i@) == Some(j@),
            Err(_) => fix_instr(labels.map(), i@) is None,
        },
{
    match i {
        MikuInstr::Jmp { to, to_index: _ } => {
            let idx = match label_index(labels, to) {
                Ok(k) => k,
                Err(e) => return Err(e),
            };
            Ok(MikuInstr::Jmp { to: to.clone(), to_index: Some(idx) })
        },
        MikuInstr::Branch { to_true, to_true_index: _, to_false, to_false_index: _, var } => {
            let tr = match label_index(labels, to_true) {
                Ok(k) => k,
                Err(e) => return Err(e),
            };
            let fs = match label_index(labels, to_false) {
                Ok(k) => k,
                Err(e) => return Err(e),
            };
            Ok(
                MikuInstr::Branch {
                    to_true: to_true.clone(),
                    to_true_index: Some(tr),
                    to_false: to_false.clone(),
                    to_false_index: Some(fs),
                    var: var.clone(),
                },
            )
        },
        _ => Ok(i.clone()),
    }
}

/// Resolves the jump targets of a list of instructions in place (see `fixups_result`).
fn fix_instructions(labels: &Table<usize>, v: &mut Vec<MikuInstr>) -> (r: Result<(), String>)
    requires
        labels.wf(),
        branches_bool(instrs_view(old(v)@)),
    ensures
        fixups_result(labels.map(), instrs_view(old(v)@), instrs_view(final(v)@), r is Ok),
{
    let ghost s = instrs_view(v@);
    let ghost m = labels.map();
    let mut i: usize = 0;
    while i < v.len()
        invariant
            labels.wf(),
            m == labels.map(),
            s == instrs_view(old(v)@),
            s.len() == v@.len(),
            i <= v@.len(),
            branches_bool(s),
            forall|j: int| 0 <= j < i ==> fix_instr(m, #[trigger] s[j]) is Some,
            instrs_view(v@) == fixed_upto(m, s, i as int),
        decreases v@.len() - i,
    {
        assert(v@[i as int]@ == s[i as int]) by {
            assert(instrs_view(v@)[i as int] == v@[i as int]@);
        }
        let fixed = match fix_one(labels, &v[i]) {
            Ok(j) => j,
            Err(e) => {
                assert(fix_instr(m, s[i as int]) is None);
                assert(instrs_view(v@) == fixed_upto(m, s, i as int));
                assert(fixups_result(m, s, instrs_view(v@), false));
                return Err(e);
            },
        };
        let ghost prev = v@;
        v.set(i, fixed);
        assert forall|j: int| 0 <= j < v@.len() implies #[trigger] instrs_view(v@)[j] == fixed_upto(
            m,
            s,
            i + 1,
        )[j] by {
            if j != i {
                assert(instrs_view(prev)[j] == fixed_upto(m, s, i as int)[j]);
                assert(instrs_view(prev)[j] == prev[j]@);
            }
        }
        assert(instrs_view(v@) =~= fixed_upto(m, s, i + 1));
        i += 1;
    }
    Ok(())
}

/// The state of a parser that has read nothing.
pub open spec fn empty_state() -> StateV {
    StateV {
        instructions: seq![],
        labels: Map::empty(),
        functions: seq![],
        extern_functions: seq![],
        local_vars: Map::empty(),
        global_vars: Map::empty(),
        extern_vars: Map::empty(),
        types: Map::empty(),
        current_function: None,
    }
}

/// Reading lines in order, stopping at the first refused one: the state after, and the
/// position of the refused line, if any.
pub open spec fn parse_lines(st: StateV, ls: Seq<Seq<Seq<char>>>) -> (StateV, Option<int>)
    decreases ls.len(),
{
    if ls.len() == 0 {
        (st, None)
    } else {
        let (s1, bad) = parse_lines(st, ls.drop_last());
        if bad is Some {
            (s1, bad)
        } else {
            let (s2, ok) = parse_line(s1, ls.last());
            (s2, if ok { None } else { Some(ls.len() - 1) })
        }
    }
}

/// The words of each line of a source text.
pub open spec fn source_words(src: Seq<char>) -> Seq<Seq<Seq<char>>> {
    lines_of(src).map_values(|l: Seq<char>| words(l))
}

/// The source text can be read without a panic: its words can be read as operands and it
/// uses no unimplemented declaration.
pub open spec fn source_ok(src: Seq<char>) -> bool {
    forall|i: int|
        0 <= i < source_words(src).len() ==> {
            let l = #[trigger] source_words(src)[i];
            &&& forall|j: int| 0 <= j < l.len() ==> char_word_ok(#[trigger] l[j])
            &&& !line_unsupported(l)
        }
}

/// The view of an object: a parsed and resolved miku unit.
#[verifier::ext_equal]
pub struct ObjV {
    pub instructions: Seq<InstrV>,
    pub labels: Map<Seq<char>, usize>,
    pub functions: Seq<FuncDecV>,
    pub extern_functions: Seq<FuncDecV>,
    pub global_vars: Map<Seq<char>, VarDecV>,
    pub extern_vars: Map<Seq<char>, TypeV>,
    pub types: Map<Seq<char>, TypeV>,
}

/// The object that a parser's state becomes.
pub open spec fn obj_of(st: StateV) -> ObjV {
    ObjV {
        instructions: st.instructions,
        labels: st.labels,
        functions: st.functions,
        extern_functions: st.extern_functions,
        global_vars: st.global_vars,
        extern_vars: st.extern_vars,
        types: st.types,
    }
}

/// A parsed miku unit: its instructions and declarations.
#[derive(Debug)]
pub struct MikuObject {
    pub instructions: Vec<MikuInstr>,
    pub labels: Table<usize>,
    pub functions: Vec<FuncDec>,
    pub extern_functions: Vec<FuncDec>,
    pub global_vars: Table<VarDec>,
    pub extern_vars: Table<MikuType>,
    pub types: Table<MikuType>,
}

impl MikuObject {
    /// All tables keep their keys distinct.
    pub open spec fn wf(&self) -> bool {
        &&& self.labels.wf()
        &&& self.global_vars.wf()
        &&& self.extern_vars.wf()
        &&& self.types.wf()
    }
}

impl View for MikuObject {
    type V = ObjV;

    open spec fn view(&self) -> ObjV {
        ObjV {
            instructions: instrs_view(self.instructions@),
            labels: self.labels.map(),
            functions: funcs_view(self.functions@),
            extern_functions: funcs_view(self.extern_functions@),
            global_vars: decs_view(self.global_vars.map()),
            extern_vars: types_view(self.extern_vars.map()),
            types: types_view(self.types.map()),
        }
    }
}

proof fn lemma_branches_push(s: Seq<InstrV>, x: InstrV)
    requires
        branches_bool(s),
        x matches InstrV::Branch { var, .. } ==> use_type(var) == TypeV::Bool,
    ensures
        branches_bool(s.push(x)),
{
    assert forall|j: int| 0 <= j < s.push(x).len() implies (#[trigger] s.push(x)[j] matches InstrV::Branch { var, .. } ==> use_type(var) == TypeV::Bool) by {
        if j < s.len() {
            assert(s.push(x)[j] == s[j]);
        }
    }
}

/// Reading a line adds no branch on a non-boolean.
proof fn lemma_parse_line_branches(st: StateV, l: Seq<Seq<char>>)
    requires
        branches_bool(st.instructions),
    ensures
        branches_bool(parse_line(st, l).0.instructions),
{
    let n = st.instructions.len();
    let st1 = if l.len() > 0 && l[0].len() > 0 && l[0].last() == ':' {
        let name = l[0].drop_last();
        lemma_branches_push(st.instructions, InstrV::Label { name: name, label_index: n as usize });
        StateV {
            instructions: st.instructions.push(
                InstrV::Label { name: name, label_index: n as usize },
            ),
            labels: st.labels.insert(name, n as usize),
            ..st
        }
    } else {
        st
    };
    let b = unlabelled(l);
    if b.len() > 0 {
        let w = b[0];
        let m = st1.instructions.len();
        if w == "="@ || w == "^="@ || w == "&"@ {
            if let (Some(a), Some(c)) = (var_at(st1, b, 1), var_at(st1, b, 2)) {
                lemma_branches_push(st1.instructions, pair_step(st1, b).0.instructions.last());
                assert(pair_step(st1, b).0.instructions =~= st1.instructions.push(
                    pair_step(st1, b).0.instructions.last(),
                ));
            }
        } else if w == "defun"@ {
            lemma_branches_push(
                st1.instructions,
                InstrV::BeginFunction { name: b[2], label_index: m as usize },
            );
        } else if w == "end"@ {
            if let Some(p) = st1.current_function {
                lemma_branches_push(st1.instructions, InstrV::EndFunction { name: p });
            }
        } else if op_named(w) is Some {
            if let (Some(o), Some(a), Some(c)) = (
                var_at(st1, b, 1),
                var_at(st1, b, 2),
                var_at(st1, b, 3),
            ) {
                lemma_branches_push(
                    st1.instructions,
                    InstrV::BinOp { left: a, right: c, output: o, operation: op_named(w)->0 },
                );
            }
        } else if w == "ret"@ {
            lemma_branches_push(st1.instructions, InstrV::Return { value: var_at(st1, b, 1) });
        } else if w == "jmp"@ {
            if b.len() >= 2 {
                lemma_branches_push(st1.instructions, InstrV::Jmp { to: b[1], to_index: None });
            }
        } else if w == "br"@ {
            if let Some(c) = var_at(st1, b, 1) {
                if b.len() >= 4 && use_type(c) == TypeV::Bool {
                    lemma_branches_push(
                        st1.instructions,
                        InstrV::Branch {
                            to_true: b[2],
                            to_true_index: None,
                            to_false: b[3],
                            to_false_index: None,
                            var: c,
                        },
                    );
                }
            }
        } else if w == "decl"@ {
            if b.len() >= 3 {
                lemma_branches_push(
                    st1.instructions,
                    InstrV::DeclVar {
                        vtype: type_named(b[2]),
                        var_name: b[1],
                        count: st1.local_vars.dom().len() as u32,
                    },
                );
            }
        } else if w == "static"@ {
            if b.len() >= 4 {
                if let Some(v) = static_value(type_named(b[2]), b[3]) {
                    lemma_branches_push(
                        st1.instructions,
                        InstrV::DeclStatic {
                            vtype: type_named(b[2]),
                            var_name: b[1],
                            count: st1.global_vars.dom().len() as u32,
                            base_value: v,
                        },
                    );
                }
            }
        } else if w != "extern"@ {
            let ret = var_at(st1, b, 1);
            if let Some(args) = vars_from(st1, b, 2) {
                lemma_branches_push(
                    st1.instructions,
                    InstrV::Call { to: w, to_index: None, return_var: ret, args },
                );
            }
        }
    }
}

proof fn lemma_parse_lines_stop(st: StateV, ls: Seq<Seq<Seq<char>>>, i: int)
    requires
        0 <= i < ls.len(),
        parse_lines(st, ls.take(i)).1 is None,
        !parse_line(parse_lines(st, ls.take(i)).0, ls[i]).1,
    ensures
        parse_lines(st, ls).1 == Some(i),
    decreases ls.len(),
{
    if ls.len() == i + 1 {
        assert(ls.drop_last() =~= ls.take(i));
    } else {
        assert(ls.drop_last().take(i) =~= ls.take(i));
        assert(ls.drop_last()[i] == ls[i]);
        lemma_parse_lines_stop(st, ls.drop_last(), i);
    }
}

/// Whether an instruction survives linking: static and extern declarations do not.
pub open spec fn kept(i: InstrV) -> bool {
    !(i is DeclStatic) && !(i is DeclExtern)
}

/// An instruction with its resolved jump targets moved by `base`.
pub open spec fn shift_instr(i: InstrV, base: int) -> InstrV {
    match i {
        InstrV::Jmp { to, to_index } => InstrV::Jmp {
            to,
            to_index: match to_index {
                Some(k) => Some((k + base) as usize),
                None => None,
            },
        },
        InstrV::Branch { to_true, to_true_index, to_false, to_false_index, var } => {
            InstrV::Branch {
                to_true,
                to_true_index: Some((to_true_index->0 + base) as usize),
                to_false,
                to_false_index: Some((to_false_index->0 + base) as usize),
                var,
            }
        },
        _ => i,
    }
}

/// The instructions of one unit that linking keeps, targets moved by `base`.
pub open spec fn kept_shifted(s: Seq<InstrV>, base: int) -> Seq<InstrV>
    decreases s.len(),
{
    if s.len() == 0 {
        seq![]
    } else {
        let r = kept_shifted(s.drop_last(), base);
        if kept(s.last()) {
            r.push(shift_instr(s.last(), base))
        } else {
            r
        }
    }
}

/// The functions of one unit that have a start, their starts moved by `base`.
pub open spec fn placed_funcs(fs: Seq<FuncDecV>, base: int) -> Seq<FuncDecV>
    decreases fs.len(),
{
    if fs.len() == 0 {
        seq![]
    } else {
        let r = placed_funcs(fs.drop_last(), base);
        match fs.last().index {
            Some(k) => r.push(FuncDecV { index: Some((k + base) as usize), ..fs.last() }),
            None => r,
        }
    }
}

/// Global variable declarations with their indices moved by `base`.
pub open spec fn shift_globals(m: Map<Seq<char>, VarDecV>, base: int) -> Map<Seq<char>, VarDecV> {
    m.map_values(|d: VarDecV| VarDecV { index: (d.index + base) as usize, ..d })
}

/// The number of instructions of the units.
pub open spec fn link_base(objs: Seq<ObjV>) -> int
    decreases objs.len(),
{
    if objs.len() == 0 {
        0
    } else {
        link_base(objs.drop_last()) + objs.last().instructions.len()
    }
}

/// The number of instructions that linking keeps of the units.
pub open spec fn link_gbase(objs: Seq<ObjV>) -> int
    decreases objs.len(),
{
    if objs.len() == 0 {
        0
    } else {
        link_gbase(objs.drop_last()) + kept_shifted(
            objs.last().instructions,
            link_base(objs.drop_last()),
        ).len()
    }
}

/// The kept instructions of the units, one after the other.
pub open spec fn linked_instrs(objs: Seq<ObjV>) -> Seq<InstrV>
    decreases objs.len(),
{
    if objs.len() == 0 {
        seq![]
    } else {
        linked_instrs(objs.drop_last()) + kept_shifted(
            objs.last().instructions,
            link_base(objs.drop_last()),
        )
    }
}

/// The global variables of the units; a later unit's declaration of a name wins, and the
/// indices of each unit are moved by the count of instructions kept before it.
pub open spec fn linked_globals(objs: Seq<ObjV>) -> Map<Seq<char>, VarDecV>
    decreases objs.len(),
{
    if objs.len() == 0 {
        Map::empty()
    } else {
        linked_globals(objs.drop_last()).union_prefer_right(
            shift_globals(objs.last().global_vars, link_gbase(objs.drop_last())),
        )
    }
}

/// The placed functions of the units, one after the other.
pub open spec fn linked_funcs(objs: Seq<ObjV>) -> Seq<FuncDecV>
    decreases objs.len(),
{
    if objs.len() == 0 {
        seq![]
    } else {
        linked_funcs(objs.drop_last()) + placed_funcs(
            objs.last().functions,
            link_base(objs.drop_last()),
        )
    }
}

/// An operand with a global's index taken from `g`.
pub open spec fn upd_use(u: UseV, g: Map<Seq<char>, VarDecV>) -> UseV {
    match u {
        UseV::Declared { index, name, vtype } => if g.dom().contains(name) {
            UseV::Declared { index: Some(g[name].index), name, vtype }
        } else {
            u
        },
        _ => u,
    }
}

/// An optional operand with a global's index taken from `g`.
pub open spec fn upd_opt(u: Option<UseV>, g: Map<Seq<char>, VarDecV>) -> Option<UseV> {
    match u {
        Some(v) => Some(upd_use(v, g)),
        None => None,
    }
}

/// The instruction at position `p` of the linked program: functions and labels start at
/// `p`, and operands naming globals take the globals' indices.
pub open spec fn relabel(i: InstrV, p: int, g: Map<Seq<char>, VarDecV>) -> InstrV {
    match i {
        InstrV::BeginFunction { name, .. } => InstrV::BeginFunction { name, label_index: p as usize },
        InstrV::Label { name, .. } => InstrV::Label { name, label_index: p as usize },
        InstrV::Branch { to_true, to_true_index, to_false, to_false_index, var } => {
            InstrV::Branch {
                to_true,
                to_true_index,
                to_false,
                to_false_index,
                var: upd_use(var, g),
            }
        },
        InstrV::Call { to, to_index, return_var, args } => InstrV::Call {
            to,
            to_index,
            return_var: upd_opt(return_var, g),
            args: args.map_values(|a: UseV| upd_use(a, g)),
        },
        InstrV::DeclStatic { vtype, var_name, count, base_value } => InstrV::DeclStatic {
            vtype,
            var_name,
            count: g[var_name].index as u32,
            base_value,
        },
        InstrV::Assign { left, right } => InstrV::Assign {
            left: upd_use(left, g),
            right: upd_use(right, g),
        },
        InstrV::DerefAssign { left, right } => InstrV::DerefAssign {
            left: upd_use(left, g),
            right: upd_use(right, g),
        },
        InstrV::GetRef { assigned_to, of } => InstrV::GetRef {
            assigned_to: upd_use(assigned_to, g),
            of: upd_use(of, g),
        },
        InstrV::BinOp { left, right, output, operation } => InstrV::BinOp {
            left: upd_use(left, g),
            right: upd_use(right, g),
            output: upd_use(output, g),
            operation,
        },
        InstrV::Return { value } => InstrV::Return { value: upd_opt(value, g) },
        _ => i,
    }
}

/// Whether some function of `fs` is named `name`.
pub open spec fn has_func(fs: Seq<FuncDecV>, name: Seq<char>) -> bool {
    exists|k: int| 0 <= k < fs.len() && #[trigger] fs[k].name == name
}

/// The extern functions of the units that no linked function defines, in order.
pub open spec fn linked_externs(objs: Seq<ObjV>, fs: Seq<FuncDecV>) -> Seq<FuncDecV>
    decreases objs.len(),
{
    if objs.len() == 0 {
        seq![]
    } else {
        linked_externs(objs.drop_last(), fs) + objs.last().extern_functions.filter(
            |f: FuncDecV| !has_func(fs, f.name),
        )
    }
}

/// The extern variables of the units that are not globals; a later unit's wins.
pub open spec fn linked_extern_vars(objs: Seq<ObjV>, g: Map<Seq<char>, VarDecV>) -> Map<
    Seq<char>,
    TypeV,
>
    decreases objs.len(),
{
    if objs.len() == 0 {
        Map::empty()
    } else {
        linked_extern_vars(objs.drop_last(), g).union_prefer_right(
            objs.last().extern_vars.restrict(objs.last().extern_vars.dom() - g.dom()),
        )
    }
}

/// The linked program before calls are resolved.
pub open spec fn linked(objs: Seq<ObjV>) -> ObjV {
    let li = linked_instrs(objs);
    let g = linked_globals(objs);
    let fs = linked_funcs(objs);
    ObjV {
        instructions: Seq::new(li.len(), |p: int| relabel(li[p], p, g)),
        labels: Map::empty(),
        functions: fs,
        extern_functions: linked_externs(objs, fs),
        global_vars: g,
        extern_vars: linked_extern_vars(objs, g),
        types: Map::empty(),
    }
}

/// A call resolved against the functions: its target is the start of the first function
/// of that name, which must have one.  Other instructions stay as they are.
pub open spec fn resolve_call(fs: Seq<FuncDecV>, i: InstrV) -> Option<InstrV> {
    match i {
        InstrV::Call { to, return_var, args, .. } => match find_func(fs, to) {
            Some(k) => match fs[k].index {
                Some(x) => Some(InstrV::Call { to, to_index: Some(x), return_var, args }),
                None => None,
            },
            None => None,
        },
        _ => Some(i),
    }
}

/// The error for a call whose function is not defined: the function's name as
/// `{:#?}` shows it.
pub open spec fn unresolved_msg(i: InstrV) -> Seq<char> {
    "could not find function "@ + crate::text::debug_str_text(i->Call_to)
}

/// The error of resolving `s`: that of its first call that cannot be resolved.
pub open spec fn resolve_error(fs: Seq<FuncDecV>, s: Seq<InstrV>, e: Seq<char>) -> bool {
    exists|k: int|
        0 <= k < s.len() && resolve_call(fs, #[trigger] s[k]) is None && (forall|j: int|
            0 <= j < k ==> resolve_call(fs, #[trigger] s[j]) is Some) && e == unresolved_msg(s[k])
}

/// The instructions with the calls before position `k` resolved.
pub open spec fn resolved_upto(fs: Seq<FuncDecV>, s: Seq<InstrV>, k: int) -> Seq<InstrV> {
    Seq::new(s.len(), |j: int| if j < k { resolve_call(fs, s[j])->0 } else { s[j] })
}

/// Resolving calls stops at the first call that does not resolve: the instructions
/// before it are resolved, the others kept as they were.
pub open spec fn resolve_result(fs: Seq<FuncDecV>, s: Seq<InstrV>, out: Seq<InstrV>, ok: bool) -> bool {
    if ok {
        &&& forall|j: int| 0 <= j < s.len() ==> resolve_call(fs, #[trigger] s[j]) is Some
        &&& out == resolved_upto(fs, s, s.len() as int)
    } else {
        exists|k: int|
            0 <= k < s.len() && resolve_call(fs, #[trigger] s[k]) is None && (forall|j: int|
                0 <= j < k ==> resolve_call(fs, #[trigger] s[j]) is Some) && out == resolved_upto(
                fs,
                s,
                k,
            )
    }
}

/// A unit can be moved to instruction position `ibc` and global position `gvc`:
/// every branch has both targets, and no jump target, function start or global index
/// overflows when moved.
pub open spec fn obj_shift_ok(o: ObjV, ibc: int, gvc: int) -> bool {
    let n = o.instructions.len();
    &&& forall|j: int|
        0 <= j < n ==> match #[trigger] o.instructions[j] {
            InstrV::Jmp { to_index, .. } => to_index matches Some(k) ==> k + ibc <= usize::MAX,
            InstrV::Branch { to_true_index, to_false_index, .. } => {
                &&& to_true_index matches Some(k) && k + ibc <= usize::MAX
                &&& to_false_index matches Some(k) && k + ibc <= usize::MAX
            },
            _ => true,
        }
    &&& forall|j: int|
        0 <= j < o.functions.len() ==> ((#[trigger] o.functions[j]).index matches Some(k) ==> k
            + ibc <= usize::MAX)
    &&& forall|name: Seq<char>| #[trigger] o.global_vars.dom().contains(name) ==> o.global_vars[name].index + gvc
        <= usize::MAX
}

/// The units can be linked without a panic or an overflow: each can be moved to where
/// the units before it end, and all their instructions together can be counted.
pub open spec fn link_ok(objs: Seq<ObjV>) -> bool {
    &&& forall|i: int|
        0 <= i < objs.len() ==> obj_shift_ok(
            #[trigger] objs[i],
            link_base(objs.take(i)),
            link_gbase(objs.take(i)),
        )
    &&& link_base(objs) <= usize::MAX
}

/// The views of a list of objects.
pub open spec fn objs_view(v: Seq<MikuObject>) -> Seq<ObjV> {
    v.map_values(|o: MikuObject| o@)
}

proof fn lemma_kept_shifted(s: Seq<InstrV>, base: int)
    ensures
        kept_shifted(s, base).len() <= s.len(),
        forall|j: int| 0 <= j < kept_shifted(s, base).len() ==> kept(#[trigger] kept_shifted(s, base)[j]),
    decreases s.len(),
{
    if s.len() > 0 {
        lemma_kept_shifted(s.drop_last(), base);
        let r = kept_shifted(s.drop_last(), base);
        if kept(s.last()) {
            assert forall|j: int| 0 <= j < r.push(shift_instr(s.last(), base)).len() implies kept(
                #[trigger] r.push(shift_instr(s.last(), base))[j],
            ) by {
                if j < r.len() {
                    assert(r.push(shift_instr(s.last(), base))[j] == r[j]);
                }
            }
        }
    }
}

/// Moves the resolved jump targets of an instruction by `base`.
fn shift_jumps(i: &MikuInstr, base: usize) -> (r: MikuInstr)
    requires
        (i@ matches InstrV::Jmp { to_index: Some(k), .. } ==> k + base <= usize::MAX),
        (i@ matches InstrV::Branch { to_true_index, to_false_index, .. } ==> (
        to_true_index matches Some(k) && k + base <= usize::MAX) && (to_false_index matches Some(
            k,
        ) && k + base <= usize::MAX)),
    ensures
        r@ == shift_instr(i@, base as int),
{
    match i {
        MikuInstr::Jmp { to, to_index } => MikuInstr::Jmp {
            to: to.clone(),
            to_index: match to_index {
                Some(k) => Some(*k + base),
                None => None,
            },
        },
        MikuInstr::Branch { to_true, to_true_index, to_false, to_false_index, var } => {
            let t = match to_true_index {
                Some(k) => *k + base,
                None => 0,
            };
            let f = match to_false_index {
                Some(k) => *k + base,
                None => 0,
            };
            MikuInstr::Branch {
                to_true: to_true.clone(),
                to_true_index: Some(t),
                to_false: to_false.clone(),
                to_false_index: Some(f),
                var: var.clone(),
            }
        },
        _ => i.clone(),
    }
}

/// Appends the kept instructions, the globals and the placed functions of one unit to the
/// program being linked; returns how many instructions were kept.
#[verifier::loop_isolation(false)]
fn append_unit(out: &mut MikuObject, o: &MikuObject, ibc: usize, gvc: usize) -> (count: usize)
    requires
        old(out).wf(),
        o.wf(),
        obj_shift_ok(o@, ibc as int, gvc as int),
        ibc + o@.instructions.len() <= usize::MAX,
        gvc + o@.instructions.len() <= usize::MAX,
    ensures
        final(out).wf(),
        final(out)@ == (ObjV {
            instructions: old(out)@.instructions + kept_shifted(o@.instructions, ibc as int),
            global_vars: old(out)@.global_vars.union_prefer_right(
                shift_globals(o@.global_vars, gvc as int),
            ),
            functions: old(out)@.functions + placed_funcs(o@.functions, ibc as int),
            ..old(out)@
        }),
        count == kept_shifted(o@.instructions, ibc as int).len(),
{
    let ghost s = o@.instructions;
    let ghost i0 = old(out)@.instructions;
    let mut count: usize = 0;
    let mut j: usize = 0;
    while j < o.instructions.len()
        invariant
            out.wf(),
            j <= s.len(),
            s == o@.instructions,
            instrs_view(out.instructions@) == i0 + kept_shifted(s.take(j as int), ibc as int),
            count == kept_shifted(s.take(j as int), ibc as int).len(),
            count <= j,
            out.global_vars == old(out).global_vars,
            out.functions == old(out).functions,
            out.extern_functions == old(out).extern_functions,
            out.labels == old(out).labels,
            out.extern_vars == old(out).extern_vars,
            out.types == old(out).types,
        decreases s.len() - j,
    {
        let ins = &o.instructions[j];
        assert(ins@ == s[j as int]);
        assert(s.take(j + 1).drop_last() =~= s.take(j as int));
        assert(s.take(j + 1).last() == s[j as int]);
        proof {
            lemma_kept_shifted(s.take(j as int), ibc as int);
        }
        let skip = match ins {
            MikuInstr::DeclStatic { .. } => true,
            MikuInstr::DeclExtern { .. } => true,
            _ => false,
        };
        if !skip {
            let sh = shift_jumps(ins, ibc);
            let ghost before = out.instructions@;
            out.instructions.push(sh);
            proof {
                lemma_instrs_push(before, out.instructions@.last());
            }
            count += 1;
        }
        j += 1;
    }
    assert(s.take(j as int) =~= s);
    let ghost gseq = o.global_vars.seq();
    let ghost g0 = old(out)@.global_vars;
    let n = o.global_vars.len();
    let mut k: usize = 0;
    while k < n
        invariant
            out.wf(),
            o.wf(),
            k <= n,
            n == gseq.len(),
            gseq == o.global_vars.seq(),
            decs_view(out.global_vars.map()) == g0.union_prefer_right(
                shift_globals(decs_view(entries_map(gseq.take(k as int))), gvc as int),
            ),
            instrs_view(out.instructions@) == i0 + kept_shifted(s, ibc as int),
            out.functions == old(out).functions,
            out.extern_functions == old(out).extern_functions,
            out.labels == old(out).labels,
            out.extern_vars == old(out).extern_vars,
            out.types == old(out).types,
        decreases n - k,
    {
        let (name, d) = o.global_vars.entry(k);
        proof {
            lemma_entries_map_value(gseq, k as int);
            assert(o@.global_vars.dom().contains(name@));
        }
        let mut d2 = d.clone();
        d2.index = d.index + gvc;
        proof {
            lemma_decs_insert(out.global_vars.map(), name@, d2);
            assert(gseq.take(k + 1).drop_last() =~= gseq.take(k as int));
            assert(gseq.take(k + 1).last() == gseq[k as int]);
        }
        out.global_vars.insert(name.clone(), d2);
        assert(decs_view(out.global_vars.map()) =~= g0.union_prefer_right(
            shift_globals(decs_view(entries_map(gseq.take(k + 1))), gvc as int),
        ));
        k += 1;
    }
    assert(gseq.take(k as int) =~= gseq);
    let ghost fs = o@.functions;
    let ghost f0 = old(out)@.functions;
    let mut j: usize = 0;
    while j < o.functions.len()
        invariant
            out.wf(),
            j <= fs.len(),
            fs == o@.functions,
            funcs_view(out.functions@) == f0 + placed_funcs(fs.take(j as int), ibc as int),
            decs_view(out.global_vars.map()) == g0.union_prefer_right(
                shift_globals(o@.global_vars, gvc as int),
            ),
            instrs_view(out.instructions@) == i0 + kept_shifted(s, ibc as int),
            out.extern_functions == old(out).extern_functions,
            out.labels == old(out).labels,
            out.extern_vars == old(out).extern_vars,
            out.types == old(out).types,
        decreases fs.len() - j,
    {
        let f = &o.functions[j];
        assert(f@ == fs[j as int]);
        assert(fs.take(j + 1).drop_last() =~= fs.take(j as int));
        assert(fs.take(j + 1).last() == fs[j as int]);
        match f.index {
            Some(indx) => {
                let mut k2 = f.clone();
                k2.index = Some(indx + ibc);
                let ghost before = out.functions@;
                out.functions.push(k2);
                proof {
                    lemma_funcs_push(before, out.functions@.last());
                }
            },
            None => {},
        }
        j += 1;
    }
    assert(fs.take(j as int) =~= fs);
    assert(out@ =~= (ObjV {
        instructions: old(out)@.instructions + kept_shifted(o@.instructions, ibc as int),
        global_vars: old(out)@.global_vars.union_prefer_right(
            shift_globals(o@.global_vars, gvc as int),
        ),
        functions: old(out)@.functions + placed_funcs(o@.functions, ibc as int),
        ..old(out)@
    }));
    count
}

proof fn lemma_link_base_prefix(objs: Seq<ObjV>, k: int)
    requires
        0 <= k <= objs.len(),
    ensures
        link_base(objs.take(k)) <= link_base(objs),
        link_gbase(objs) <= link_base(objs),
        0 <= link_gbase(objs),
    decreases objs.len(),
{
    if objs.len() > 0 {
        if k == objs.len() {
            assert(objs.take(k) =~= objs);
            lemma_link_base_prefix(objs.drop_last(), 0);
        } else {
            assert(objs.take(k) =~= objs.drop_last().take(k));
            lemma_link_base_prefix(objs.drop_last(), k);
        }
        lemma_kept_shifted(objs.last().instructions, link_base(objs.drop_last()));
    } else {
        assert(objs.take(k) =~= objs);
    }
}

proof fn lemma_linked_kept(objs: Seq<ObjV>)
    ensures
        forall|j: int| 0 <= j < linked_instrs(objs).len() ==> kept(#[trigger] linked_instrs(objs)[j]),
    decreases objs.len(),
{
    if objs.len() > 0 {
        lemma_linked_kept(objs.drop_last());
        let a = linked_instrs(objs.drop_last());
        let b = kept_shifted(objs.last().instructions, link_base(objs.drop_last()));
        lemma_kept_shifted(objs.last().instructions, link_base(objs.drop_last()));
        assert forall|j: int| 0 <= j < (a + b).len() implies kept(#[trigger] (a + b)[j]) by {
            if j < a.len() {
                assert((a + b)[j] == a[j]);
            } else {
                assert((a + b)[j] == b[j - a.len()]);
            }
        }
    }
}

/// An operand with a global's index taken from the table.
fn upd_var(u: &VarUse, g: &Table<VarDec>) -> (r: VarUse)
    requires
        g.wf(),
    ensures
        r@ == upd_use(u@, decs_view(g.map())),
{
    match u {
        VarUse::Declared { index: _, name, vtype } => match g.get(name.as_str()) {
            Some(d) => VarUse::Declared {
                index: Some(d.index),
                name: name.clone(),
                vtype: vtype.clone(),
            },
            None => u.clone(),
        },
        _ => u.clone(),
    }
}

fn upd_opt_var(u: &Option<VarUse>, g: &Table<VarDec>) -> (r: Option<VarUse>)
    requires
        g.wf(),
    ensures
        opt_use(r) == upd_opt(opt_use(*u), decs_view(g.map())),
{
    match u {
        Some(v) => Some(upd_var(v, g)),
        None => None,
    }
}

fn upd_vars(v: &Vec<VarUse>, g: &Table<VarDec>) -> (r: Vec<VarUse>)
    requires
        g.wf(),
    ensures
        uses_view(r@) == uses_view(v@).map_values(|a: UseV| upd_use(a, decs_view(g.map()))),
{
    let mut out: Vec<VarUse> = Vec::new();
    let mut i: usize = 0;
    while i < v.len()
        invariant
            g.wf(),
            i <= v@.len(),
            out@.len() == i,
            forall|j: int| 0 <= j < i ==> (#[trigger] out@[j])@ == upd_use(v@[j]@, decs_view(g.map())),
        decreases v@.len() - i,
    {
        out.push(upd_var(&v[i], g));
        i += 1;
    }
    assert(uses_view(out@) =~= uses_view(v@).map_values(|a: UseV| upd_use(a, decs_view(g.map()))));
    out
}

/// The instruction at position `p` of the linked program (see `relabel`).
fn relabel_one(i: &MikuInstr, p: usize, g: &Table<VarDec>) -> (r: MikuInstr)
    requires
        g.wf(),
        kept(i@),
    ensures
        r@ == relabel(i@, p as int, decs_view(g.map())),
{
    match i {
        MikuInstr::BeginFunction { name, label_index: _ } => MikuInstr::BeginFunction {
            name: name.clone(),
            label_index: p,
        },
        MikuInstr::Label { name, label_index: _ } => MikuInstr::Label {
            name: name.clone(),
            label_index: p,
        },
        MikuInstr::Branch { to_true, to_true_index, to_false, to_false_index, var } => {
            MikuInstr::Branch {
                to_true: to_true.clone(),
                to_true_index: *to_true_index,
                to_false: to_false.clone(),
                to_false_index: *to_false_index,
                var: upd_var(var, g),
            }
        },
        MikuInstr::Call { to, to_index, return_var, args } => MikuInstr::Call {
            to: to.clone(),
            to_index: *to_index,
            return_var: upd_opt_var(return_var, g),
            args: upd_vars(args, g),
        },
        MikuInstr::Assign { left, right } => MikuInstr::Assign {
            left: upd_var(left, g),
            right: upd_var(right, g),
        },
        MikuInstr::DerefAssign { left, right } => MikuInstr::DerefAssign {
            left: upd_var(left, g),
            right: upd_var(right, g),
        },
        MikuInstr::GetRef { assigned_to, of } => MikuInstr::GetRef {
            assigned_to: upd_var(assigned_to, g),
            of: upd_var(of, g),
        },
        MikuInstr::BinOp { left, right, output, operation } => MikuInstr::BinOp {
            left: upd_var(left, g),
            right: upd_var(right, g),
            output: upd_var(output, g),
            operation: *operation,
        },
        MikuInstr::Return { value } => MikuInstr::Return { value: upd_opt_var(value, g) },
        _ => i.clone(),
    }
}

/// Whether some function of the list is named `name`.
fn has_func_named(fs: &Vec<FuncDec>, name: &str) -> (r: bool)
    ensures
        r == has_func(funcs_view(fs@), name@),
{
    let mut i: usize = 0;
    while i < fs.len()
        invariant
            i <= fs@.len(),
            forall|j: int| 0 <= j < i ==> (#[trigger] funcs_view(fs@)[j]).name != name@,
        decreases fs@.len() - i,
    {
        if str_equal(fs[i].name.as_str(), name) {
            assert(funcs_view(fs@)[i as int].name == name@);
            return true;
        }
        i += 1;
    }
    false
}

proof fn lemma_types_insert(m: Map<Seq<char>, MikuType>, k: Seq<char>, t: MikuType)
    ensures
        types_view(m.insert(k, t)) == types_view(m).insert(k, t@),
{
    assert(types_view(m.insert(k, t)) =~= types_view(m).insert(k, t@));
}

/// Places every instruction of the program at its position (see `relabel`).
fn relabel_all(out: &mut MikuObject)
    requires
        old(out).wf(),
        forall|j: int|
            0 <= j < old(out)@.instructions.len() ==> kept(#[trigger] old(out)@.instructions[j]),
    ensures
        final(out).wf(),
        final(out)@ == (ObjV {
            instructions: Seq::new(
                old(out)@.instructions.len(),
                |p: int| relabel(old(out)@.instructions[p], p, old(out)@.global_vars),
            ),
            ..old(out)@
        }),
{
    let ghost s = old(out)@.instructions;
    let ghost g = old(out)@.global_vars;
    let mut p: usize = 0;
    while p < out.instructions.len()
        invariant
            out.wf(),
            s.len() == out.instructions@.len(),
            p <= s.len(),
            forall|j: int| 0 <= j < s.len() ==> kept(#[trigger] s[j]),
            g == decs_view(out.global_vars.map()),
            instrs_view(out.instructions@) == Seq::new(
                s.len(),
                |q: int|
                    if q < p {
                        relabel(s[q], q, g)
                    } else {
                        s[q]
                    },
            ),
            out.global_vars == old(out).global_vars,
            out.functions == old(out).functions,
            out.extern_functions == old(out).extern_functions,
            out.labels == old(out).labels,
            out.extern_vars == old(out).extern_vars,
            out.types == old(out).types,
        decreases s.len() - p,
    {
        assert(out.instructions@[p as int]@ == s[p as int]) by {
            assert(instrs_view(out.instructions@)[p as int] == out.instructions@[p as int]@);
        }
        let r = relabel_one(&out.instructions[p], p, &out.global_vars);
        let ghost prev = out.instructions@;
        out.instructions.set(p, r);
        assert forall|j: int| 0 <= j < s.len() implies #[trigger] instrs_view(out.instructions@)[j]
            == (if j < p + 1 {
            relabel(s[j], j, g)
        } else {
            s[j]
        }) by {
            if j != p {
                assert(instrs_view(prev)[j] == prev[j]@);
            }
        }
        assert(instrs_view(out.instructions@) =~= Seq::new(
            s.len(),
            |q: int|
                if q < p + 1 {
                    relabel(s[q], q, g)
                } else {
                    s[q]
                },
        ));
        p += 1;
    }
    assert(out@ =~= (ObjV {
        instructions: Seq::new(s.len(), |q: int| relabel(s[q], q, g)),
        ..old(out)@
    }));
}

/// Adds the extern declarations of the units: functions that no linked function defines,
/// and variables that are not globals.
#[verifier::loop_isolation(false)]
fn add_externs(out: &mut MikuObject, objects: &[MikuObject])
    requires
        old(out).wf(),
        forall|i: int| 0 <= i < objects@.len() ==> (#[trigger] objects@[i]).wf(),
    ensures
        final(out).wf(),
        final(out)@ == (ObjV {
            extern_functions: old(out)@.extern_functions + linked_externs(
                objs_view(objects@),
                old(out)@.functions,
            ),
            extern_vars: old(out)@.extern_vars.union_prefer_right(
                linked_extern_vars(objs_view(objects@), old(out)@.global_vars),
            ),
            ..old(out)@
        }),
{
    let ghost ov = objs_view(objects@);
    let ghost fs = old(out)@.functions;
    let ghost g = old(out)@.global_vars;
    let ghost e0 = old(out)@.extern_functions;
    let ghost v0 = old(out)@.extern_vars;
    let mut i: usize = 0;
    while i < objects.len()
        invariant
            out.wf(),
            i <= objects@.len(),
            ov == objs_view(objects@),
            funcs_view(out.extern_functions@) == e0 + linked_externs(ov.take(i as int), fs),
            types_view(out.extern_vars.map()) == v0.union_prefer_right(
                linked_extern_vars(ov.take(i as int), g),
            ),
            out.instructions == old(out).instructions,
            out.global_vars == old(out).global_vars,
            out.functions == old(out).functions,
            out.labels == old(out).labels,
            out.types == old(out).types,
        decreases objects@.len() - i,
    {
        let o = &objects[i];
        assert(o@ == ov[i as int]);
        assert(ov.take(i + 1).drop_last() =~= ov.take(i as int));
        assert(ov.take(i + 1).last() == ov[i as int]);
        let ghost ef = o@.extern_functions;
        let ghost e1 = funcs_view(out.extern_functions@);
        let ghost evs = out.extern_vars;
        let mut j: usize = 0;
        while j < o.extern_functions.len()
            invariant
                out.wf(),
                j <= ef.len(),
                ef == o@.extern_functions,
                fs == funcs_view(out.functions@),
                funcs_view(out.extern_functions@) == e1 + ef.take(j as int).filter(
                    |f: FuncDecV| !has_func(fs, f.name),
                ),
                out.instructions == old(out).instructions,
                out.global_vars == old(out).global_vars,
                out.functions == old(out).functions,
                out.labels == old(out).labels,
                out.types == old(out).types,
                out.extern_vars == evs,
            decreases ef.len() - j,
        {
            let f = &o.extern_functions[j];
            assert(f@ == ef[j as int]);
            assert(ef.take(j + 1) =~= ef.take(j as int).push(ef[j as int]));
            proof {
                ef.take(j as int).lemma_filter_push(ef[j as int], |f: FuncDecV| !has_func(fs, f.name));
            }
            if !has_func_named(&out.functions, f.name.as_str()) {
                let ghost before = out.extern_functions@;
                out.extern_functions.push(f.clone());
                proof {
                    lemma_funcs_push(before, out.extern_functions@.last());
                }
            }
            j += 1;
        }
        assert(ef.take(j as int) =~= ef);
        assert(funcs_view(out.extern_functions@) =~= e0 + linked_externs(ov.take(i + 1), fs));
        let ghost vseq = o.extern_vars.seq();
        let ghost v1 = types_view(out.extern_vars.map());
        let ghost efv = out.extern_functions@;
        let n = o.extern_vars.len();
        let mut k: usize = 0;
        while k < n
            invariant
                out.wf(),
                o.wf(),
                k <= n,
                n == vseq.len(),
                vseq == o.extern_vars.seq(),
                g == decs_view(out.global_vars.map()),
                types_view(out.extern_vars.map()) == v1.union_prefer_right(
                    types_view(entries_map(vseq.take(k as int))).restrict(
                        types_view(entries_map(vseq.take(k as int))).dom() - g.dom(),
                    ),
                ),
                out.extern_functions@ == efv,
                out.instructions == old(out).instructions,
                out.global_vars == old(out).global_vars,
                out.functions == old(out).functions,
                out.labels == old(out).labels,
                out.types == old(out).types,
            decreases n - k,
        {
            let (name, t) = o.extern_vars.entry(k);
            assert(vseq.take(k + 1).drop_last() =~= vseq.take(k as int));
            assert(vseq.take(k + 1).last() == vseq[k as int]);
            proof {
                lemma_types_insert(entries_map(vseq.take(k as int)), name@, *t);
            }
            if !out.global_vars.contains_key(name.as_str()) {
                assert(!g.dom().contains(name@));
                let t2 = t.clone();
                proof {
                    lemma_types_insert(out.extern_vars.map(), name@, t2);
                }
                out.extern_vars.insert(name.clone(), t2);
            } else {
                assert(g.dom().contains(name@));
            }
            assert(types_view(out.extern_vars.map()) =~= v1.union_prefer_right(
                types_view(entries_map(vseq.take(k + 1))).restrict(
                    types_view(entries_map(vseq.take(k + 1))).dom() - g.dom(),
                ),
            ));
            k += 1;
        }
        assert(vseq.take(k as int) =~= vseq);
        assert(types_view(entries_map(vseq)) == o@.extern_vars);
        assert(linked_extern_vars(ov.take(i + 1), g) == linked_extern_vars(ov.take(i as int), g).union_prefer_right(
            o@.extern_vars.restrict(o@.extern_vars.dom() - g.dom())));
        assert(types_view(out.extern_vars.map()) =~= v0.union_prefer_right(
            linked_extern_vars(ov.take(i + 1), g),
        ));
        i += 1;
    }
    assert(ov.take(i as int) =~= ov);
    assert(out@ =~= (ObjV {
        extern_functions: e0 + linked_externs(ov, fs),
        extern_vars: v0.union_prefer_right(linked_extern_vars(ov, g)),
        ..old(out)@
    }));
}

/// Resolves one call against the functions (see `resolve_call`).
fn resolve_one(fs: &Vec<FuncDec>, i: &MikuInstr) -> (r: Result<MikuInstr, String>)
    ensures
        match r {
            Ok(j) => resolve_call(funcs_view(fs@), i@) == Some(j@),
            Err(e) => resolve_call(funcs_view(fs@), i@) is None && e@ == unresolved_msg(i@),
        },
{
    match i {
        MikuInstr::Call { to, to_index: _, return_var, args } => {
            let found = match find_decl(fs, to.as_str()) {
                Some(k) => {
                    assert(funcs_view(fs@)[k as int] == fs@[k as int]@);
                    fs[k].index
                },
                None => None,
            };
            match found {
                Some(x) => Ok(
                    MikuInstr::Call {
                        to: to.clone(),
                        to_index: Some(x),
                        return_var: copy_opt_use(return_var),
                        args: copy_uses(args),
                    },
                ),
                None => {
                    let mut e = String::from_str("could not find function ");
                    push_str(&mut e, crate::text::debug_str(to.as_str()).as_str());
                    Err(e)
                },
            }
        },
        _ => Ok(i.clone()),
    }
}

/// Resolves the calls of a list of instructions in place (see `resolve_result`).
fn resolve_instructions(fs: &Vec<FuncDec>, v: &mut Vec<MikuInstr>) -> (r: Result<(), String>)
    ensures
        resolve_result(funcs_view(fs@), instrs_view(old(v)@), instrs_view(final(v)@), r is Ok),
        r matches Err(e) ==> resolve_error(funcs_view(fs@), instrs_view(old(v)@), e@),
{
    let ghost s = instrs_view(v@);
    let ghost f = funcs_view(fs@);
    let mut i: usize = 0;
    while i < v.len()
        invariant
            f == funcs_view(fs@),
            s == instrs_view(old(v)@),
            s.len() == v@.len(),
            i <= v@.len(),
            forall|j: int| 0 <= j < i ==> resolve_call(f, #[trigger] s[j]) is Some,
            instrs_view(v@) == resolved_upto(f, s, i as int),
        decreases v@.len() - i,
    {
        assert(v@[i as int]@ == s[i as int]) by {
            assert(instrs_view(v@)[i as int] == v@[i as int]@);
        }
        let fixed = match resolve_one(fs, &v[i]) {
            Ok(j) => j,
            Err(e) => {
                assert(resolve_call(f, s[i as int]) is None);
                assert(resolve_result(f, s, instrs_view(v@), false));
                assert(resolve_error(f, s, e@));
                return Err(e);
            },
        };
        let ghost prev = v@;
        v.set(i, fixed);
        assert forall|j: int| 0 <= j < v@.len() implies #[trigger] instrs_view(v@)[j]
            == resolved_upto(f, s, i + 1)[j] by {
            if j != i {
                assert(instrs_view(prev)[j] == resolved_upto(f, s, i as int)[j]);
                assert(instrs_view(prev)[j] == prev[j]@);
            }
        }
        assert(instrs_view(v@) =~= resolved_upto(f, s, i + 1));
        i += 1;
    }
    Ok(())
}

impl MikuObject {
    /// An empty object.
    pub fn new() -> (r: Self)
        ensures
            r.wf(),
            r@ == (ObjV {
                instructions: seq![],
                labels: Map::empty(),
                functions: seq![],
                extern_functions: seq![],
                global_vars: Map::empty(),
                extern_vars: Map::empty(),
                types: Map::empty(),
            }),
    {
        let r = MikuObject {
            instructions: Vec::new(),
            labels: Table::new(),
            functions: Vec::new(),
            extern_functions: Vec::new(),
            global_vars: Table::new(),
            extern_vars: Table::new(),
            types: Table::new(),
        };
        assert(r@ =~= (ObjV {
            instructions: seq![],
            labels: Map::empty(),
            functions: seq![],
            extern_functions: seq![],
            global_vars: Map::empty(),
            extern_vars: Map::empty(),
            types: Map::empty(),
        }));
        r
    }

    /// Resolves every call to the start of the first function of its name; stops with an
    /// error at the first call whose function is not defined here.
    pub fn fix_ups(&mut self) -> (r: Result<(), String>)
        requires
            old(self).wf(),
        ensures
            final(self).wf(),
            resolve_result(
                old(self)@.functions,
                old(self)@.instructions,
                final(self)@.instructions,
                r is Ok,
            ),
            r matches Err(e) ==> resolve_error(old(self)@.functions, old(self)@.instructions, e@),
            final(self)@ == (ObjV { instructions: final(self)@.instructions, ..old(self)@ }),
    {
        let r = resolve_instructions(&self.functions, &mut self.instructions);
        assert(self@ =~= (ObjV { instructions: self@.instructions, ..old(self)@ }));
        r
    }

    /// Links units into one program (see `linked`): their kept instructions one after the
    /// other with jump targets and function starts moved, their globals renumbered, extern
    /// declarations that nothing here defines, and finally every call resolved.
    pub fn link(objects: &[MikuObject]) -> (r: Result<MikuObject, String>)
        requires
            forall|i: int| 0 <= i < objects@.len() ==> (#[trigger] objects@[i]).wf(),
            link_ok(objs_view(objects@)),
        ensures
            ({
                let l = linked(objs_view(objects@));
                &&& (r is Ok <==> forall|j: int|
                    0 <= j < l.instructions.len() ==> resolve_call(
                        l.functions,
                        #[trigger] l.instructions[j],
                    ) is Some)
                &&& (r matches Ok(obj) ==> obj.wf() && obj@ == (ObjV {
                    instructions: resolved_upto(
                        l.functions,
                        l.instructions,
                        l.instructions.len() as int,
                    ),
                    ..l
                }))
                &&& (r matches Err(e) ==> resolve_error(l.functions, l.instructions, e@))
            }),
    {
        let ghost ov = objs_view(objects@);
        let mut out = MikuObject::new();
        let mut ibc: usize = 0;
        let mut gvc: usize = 0;
        let mut i: usize = 0;
        while i < objects.len()
            invariant
                out.wf(),
                i <= objects@.len(),
                ov == objs_view(objects@),
                forall|k: int| 0 <= k < objects@.len() ==> (#[trigger] objects@[k]).wf(),
                link_ok(ov),
                ibc == link_base(ov.take(i as int)),
                gvc == link_gbase(ov.take(i as int)),
                out@ == (ObjV {
                    instructions: linked_instrs(ov.take(i as int)),
                    labels: Map::empty(),
                    functions: linked_funcs(ov.take(i as int)),
                    extern_functions: seq![],
                    global_vars: linked_globals(ov.take(i as int)),
                    extern_vars: Map::empty(),
                    types: Map::empty(),
                }),
            decreases objects@.len() - i,
        {
            let o = &objects[i];
            assert(o@ == ov[i as int]);
            assert(ov.take(i + 1).drop_last() =~= ov.take(i as int));
            assert(ov.take(i + 1).last() == ov[i as int]);
            proof {
                lemma_link_base_prefix(ov, i + 1);
                lemma_link_base_prefix(ov.take(i as int), 0);
                lemma_link_base_prefix(ov.take(i + 1), 0);
                assert(obj_shift_ok(ov[i as int], ibc as int, gvc as int));
            }
            let c = append_unit(&mut out, o, ibc, gvc);
            ibc = ibc + o.instructions.len();
            gvc = gvc + c;
            i += 1;
        }
        assert(ov.take(i as int) =~= ov);
        proof {
            lemma_linked_kept(ov);
        }
        relabel_all(&mut out);
        add_externs(&mut out, objects);
        assert(out@ =~= linked(ov));
        match out.fix_ups() {
            Ok(()) => {},
            Err(e) => return Err(e),
        }
        Ok(out)
    }
}

/// Whether a unit can be moved to instruction position `ibc` and global position `gvc`
/// (see `obj_shift_ok`).
fn unit_shift_ok(o: &MikuObject, ibc: usize, gvc: usize) -> (r: bool)
    requires
        o.wf(),
    ensures
        r == obj_shift_ok(o@, ibc as int, gvc as int),
{
    let ghost ov = o@;
    let n = o.instructions.len();
    let mut j: usize = 0;
    while j < n
        invariant
            n == o.instructions@.len(),
            ov == o@,
            j <= n,
            forall|k: int|
                0 <= k < j ==> match #[trigger] ov.instructions[k] {
                    InstrV::Jmp { to_index, .. } => to_index matches Some(x) ==> x + ibc <= usize::MAX,
                    InstrV::Branch { to_true_index, to_false_index, .. } => {
                        &&& to_true_index matches Some(x) && x + ibc <= usize::MAX
                        &&& to_false_index matches Some(x) && x + ibc <= usize::MAX
                    },
                    _ => true,
                },
        decreases n - j,
    {
        assert(ov.instructions[j as int] == o.instructions@[j as int]@);
        let ok = match &o.instructions[j] {
            MikuInstr::Jmp { to_index, .. } => match to_index {
                Some(x) => *x <= usize::MAX - ibc,
                None => true,
            },
            MikuInstr::Branch { to_true_index, to_false_index, .. } => match (to_true_index, to_false_index) {
                (Some(x), Some(y)) => *x <= usize::MAX - ibc && *y <= usize::MAX - ibc,
                _ => false,
            },
            _ => true,
        };
        if !ok {
            return false;
        }
        j += 1;
    }
    let m = o.functions.len();
    let mut f: usize = 0;
    while f < m
        invariant
            m == o.functions@.len(),
            ov == o@,
            f <= m,
            forall|k: int| 0 <= k < f ==> ((#[trigger] ov.functions[k]).index matches Some(x) ==> x + ibc <= usize::MAX),
        decreases m - f,
    {
        assert(ov.functions[f as int] == o.functions@[f as int]@);
        match o.functions[f].index {
            Some(x) => {
                if x > usize::MAX - ibc {
                    return false;
                }
            },
            None => {},
        }
        f += 1;
    }
    let g = o.global_vars.count();
    let ghost es = o.global_vars.seq();
    let mut q: usize = 0;
    while q < g
        invariant
            g == es.len(),
            es == o.global_vars.seq(),
            o.global_vars.wf(),
            ov == o@,
            q <= g,
            forall|k: int| 0 <= k < q ==> (#[trigger] es[k]).1.index + gvc <= usize::MAX,
        decreases g - q,
    {
        let (_, d) = o.global_vars.entry(q);
        if d.index > usize::MAX - gvc {
            proof {
                crate::table::lemma_entries_map_value(es, q as int);
                assert(o.global_vars.map() == crate::table::entries_map(es));
                assert(ov.global_vars == decs_view(o.global_vars.map()));
                assert(ov.global_vars.dom().contains(es[q as int].0));
                assert(ov.global_vars[es[q as int].0].index == es[q as int].1.index);
            }
            return false;
        }
        q += 1;
    }
    assert forall|name: Seq<char>| #[trigger] ov.global_vars.dom().contains(name) implies ov.global_vars[name].index + gvc
        <= usize::MAX by {
        assert(o.global_vars.map() == crate::table::entries_map(es));
        assert(ov.global_vars == decs_view(o.global_vars.map()));
        crate::table::lemma_entries_map_dom(es, name);
        let k = choose|k: int| 0 <= k < es.len() && #[trigger] es[k].0 == name;
        crate::table::lemma_entries_map_value(es, k);
        assert(ov.global_vars[name].index == es[k].1.index);
    }
    true
}

impl MikuObject {
    /// Whether `link` can link the units without a panic or an overflow (see
    /// `link_ok`): the check to make before calling it.
    #[verifier::rlimit(50)]
    pub fn can_link(objects: &[MikuObject]) -> (r: bool)
        requires
            forall|i: int| 0 <= i < objects@.len() ==> (#[trigger] objects@[i]).wf(),
        ensures
            r == link_ok(objs_view(objects@)),
    {
        let ghost ov = objs_view(objects@);
        let mut ibc: usize = 0;
        let mut gvc: usize = 0;
        let mut i: usize = 0;
        assert(ov.take(0) =~= Seq::<ObjV>::empty());
        while i < objects.len()
            invariant
                i <= objects@.len(),
                ov == objs_view(objects@),
                ov.len() == objects@.len(),
                forall|k: int| 0 <= k < objects@.len() ==> (#[trigger] objects@[k]).wf(),
                ibc == link_base(ov.take(i as int)),
                gvc == link_gbase(ov.take(i as int)),
                forall|k: int| 0 <= k < i ==> obj_shift_ok(#[trigger] ov[k], link_base(ov.take(k)), link_gbase(ov.take(k))),
            decreases objects@.len() - i,
        {
            let o = &objects[i];
            assert(o@ == ov[i as int]);
            if !unit_shift_ok(o, ibc, gvc) {
                assert(!obj_shift_ok(ov[i as int], link_base(ov.take(i as int)), link_gbase(ov.take(i as int))));
                return false;
            }
            let n = o.instructions.len();
            proof {
                lemma_link_step(ov, i as int);
            }
            if ibc > usize::MAX - n {
                proof {
                    lemma_link_base_prefix(ov, i + 1);
                }
                return false;
            }
            let c = kept_count(o, ibc);
            gvc = gvc + c;
            ibc = ibc + n;
            i += 1;
        }
        assert(ov.take(i as int) =~= ov);
        true
    }
}

proof fn lemma_link_step(ov: Seq<ObjV>, i: int)
    requires
        0 <= i < ov.len(),
    ensures
        link_base(ov.take(i + 1)) == link_base(ov.take(i)) + ov[i].instructions.len(),
        link_gbase(ov.take(i + 1)) == link_gbase(ov.take(i)) + kept_shifted(
            ov[i].instructions,
            link_base(ov.take(i)),
        ).len(),
        link_gbase(ov.take(i + 1)) <= link_base(ov.take(i + 1)),
{
    assert(ov.take(i + 1).drop_last() =~= ov.take(i));
    assert(ov.take(i + 1).last() == ov[i]);
    lemma_link_base_prefix(ov.take(i + 1), i + 1);
}

/// How many instructions of the unit linking keeps (see `kept_shifted`).
fn kept_count(o: &MikuObject, base: usize) -> (c: usize)
    ensures
        c == kept_shifted(o@.instructions, base as int).len(),
{
    let ghost s = o@.instructions;
    let n = o.instructions.len();
    let mut c: usize = 0;
    let mut j: usize = 0;
    assert(s.take(0) =~= Seq::<InstrV>::empty());
    while j < n
        invariant
            n == s.len(),
            s == o@.instructions,
            j <= n,
            c == kept_shifted(s.take(j as int), base as int).len(),
            c <= j,
        decreases n - j,
    {
        assert(s.take(j + 1).drop_last() =~= s.take(j as int));
        assert(s.take(j + 1).last() == s[j as int]);
        assert(s[j as int] == o.instructions@[j as int]@);
        match &o.instructions[j] {
            MikuInstr::DeclStatic { .. } | MikuInstr::DeclExtern { .. } => {},
            _ => {
                c += 1;
            },
        }
        j += 1;
    }
    assert(s.take(j as int) =~= s);
    c
}

impl ParserState {
    /// All tables keep their keys distinct.
    pub open spec fn wf(&self) -> bool {
        &&& self.labels.wf()
        &&& self.local_vars.wf()
        &&& self.global_vars.wf()
        &&& self.extern_vars.wf()
        &&& self.types.wf()
    }

    /// Word `index` of the line.
    pub fn expect_literal<'a>(&self, line: &'a [String], index: usize) -> (r: Result<
        &'a str,
        String,
    >)
        ensures
            index < line@.len() ==> (r matches Ok(w) && w@ == line@[index as int]@),
            index >= line@.len() ==> (r matches Err(e) && e@ == "expected literal found nothing"@),
    {
        if index >= line.len() {
            return Err(String::from_str("expected literal found nothing"));
        }
        Ok(line[index].as_str())
    }

    /// The operand that word `index` of the line denotes.
    pub fn expect_variable(&self, line: &[String], index: usize) -> (r: Result<VarUse, String>)
        requires
            self.wf(),
            index < line@.len() ==> char_word_ok(line@[index as int]@),
        ensures
            r is Ok <==> var_at(self@, words_view(line@), index as int) is Some,
            r matches Ok(u) ==> Some(u@) == var_at(self@, words_view(line@), index as int),
            index >= line@.len() ==> (r matches Err(e) && e@ == "expected literal found nothing"@),
            index < line@.len() && line@[index as int]@ == "_"@ ==> (r matches Err(e) && e@
                == "_"@),
    {
        let s = match self.expect_literal(line, index) {
            Ok(s) => s,
            Err(e) => return Err(e),
        };
        let ghost w = s@;
        assert(words_view(line@)[index as int] == w);
        let v = crate::text::to_chars(s);
        if str_equal(s, "_") {
            return Err(String::from_str("_"));
        }
        if v.len() > 0 && v[0] == '"' {
            return Ok(VarUse::Literal { v: MikuLiteral::String { v: String::from_str(s) } });
        }
        if v.len() == 3 && v[0] == '\'' {
            return Ok(VarUse::Literal { v: MikuLiteral::Char { v: v[1] } });
        }
        if has_char(&v, '.') {
            if is_float_text(s) {
                return Ok(VarUse::Literal { v: MikuLiteral::Double { v: String::from_str(s) } });
            } else {
                return Err(String::from_str("'.' not allowed in literals other than doubles"));
            }
        }
        match parse_i64(s) {
            Some(n) => {
                return Ok(VarUse::Literal { v: MikuLiteral::Integer { v: n } });
            },
            None => {},
        }
        if str_equal(s, "true") {
            return Ok(VarUse::Literal { v: MikuLiteral::Bool { v: true } });
        }
        if str_equal(s, "false") {
            return Ok(VarUse::Literal { v: MikuLiteral::Bool { v: false } });
        }
        match self.local_vars.get(s) {
            Some(p) => {
                return Ok(
                    VarUse::Declared {
                        index: Some(p.index),
                        name: String::from_str(s),
                        vtype: p.var_type.clone(),
                    },
                );
            },
            None => {},
        }
        match self.global_vars.get(s) {
            Some(p) => {
                return Ok(
                    VarUse::Declared {
                        index: Some(p.index),
                        name: String::from_str(s),
                        vtype: p.var_type.clone(),
                    },
                );
            },
            None => {},
        }
        match self.extern_vars.get(s) {
            Some(p) => {
                return Ok(
                    VarUse::Declared { index: None, name: String::from_str(s), vtype: p.clone() },
                );
            },
            None => {},
        }
        let mut e = String::from_str("undeclared variable ");
        push_str(&mut e, debug_pretty(s).as_str());
        Err(e)
    }

    /// The type that word `index` of the line names.
    pub fn expect_type(&self, line: &[String], index: usize) -> (r: Result<MikuType, String>)
        ensures
            index < line@.len() ==> (r matches Ok(t) && t@ == type_named(line@[index as int]@)),
            index >= line@.len() ==> (r matches Err(e) && e@ == "expected literal found nothing"@),
    {
        let s = match self.expect_literal(line, index) {
            Ok(s) => s,
            Err(e) => return Err(e),
        };
        if str_equal(s, "int") {
            return Ok(MikuType::Integer);
        }
        if str_equal(s, "float") {
            return Ok(MikuType::Double);
        }
        if str_equal(s, "char") {
            return Ok(MikuType::Char);
        }
        if str_equal(s, "bool") {
            return Ok(MikuType::Bool);
        }
        if str_equal(s, "string") {
            return Ok(MikuType::String);
        }
        Ok(MikuType::Undefined { name: String::from_str(s) })
    }

    /// The function header that the line spells: result type, name, then pairs of
    /// argument name and argument type.
    pub fn expect_function_header(&self, line: &[String]) -> (r: Result<FuncDec, String>)
        ensures
            r is Ok <==> header_of(words_view(line@)) is Some,
            r matches Ok(f) ==> Some(f@) == header_of(words_view(line@)),
            r matches Err(e) ==> e@ == "expected literal found nothing"@,
    {
        let ghost ws = words_view(line@);
        let return_type = match self.expect_type(line, 0) {
            Ok(t) => t,
            Err(e) => return Err(e),
        };
        let name = match self.expect_literal(line, 1) {
            Ok(n) => n,
            Err(e) => return Err(e),
        };
        let mut index: usize = 2;
        let mut arg_count: usize = 0;
        let mut args: Vec<VarDec> = Vec::new();
        while index < line.len()
            invariant
                2 <= index,
                index == 2 + 2 * arg_count,
                index <= line@.len(),
                ws == words_view(line@),
                line@.len() >= 2,
                args@.len() == arg_count,
                forall|k: int|
                    0 <= k < arg_count ==> (#[trigger] args@[k])@ == (VarDecV {
                        name: ws[2 + 2 * k],
                        index: k as usize,
                        var_type: type_named(ws[3 + 2 * k]),
                    }),
            decreases line@.len() + 2 - index,
        {
            let vtype = match self.expect_type(line, index + 1) {
                Ok(t) => t,
                Err(e) => {
                    assert((line@.len() - 2) % 2 != 0);
                    return Err(e);
                },
            };
            let vname = match self.expect_literal(line, index) {
                Ok(n) => n,
                Err(e) => return Err(e),
            };
            let dec = VarDec { name: String::from_str(vname), var_type: vtype, index: arg_count };
            index += 2;
            arg_count += 1;
            args.push(dec);
        }
        let out = FuncDec {
            name: String::from_str(name),
            index: None,
            args,
            return_type,
        };
        assert(index == line@.len());
        assert(out@.args =~= header_of(ws)->0.args);
        Ok(out)
    }

    /// Whether `call` is a call instruction whose callee is declared and whose operands
    /// match the callee's signature.
    /// A parser that has read nothing.
    pub fn new() -> (r: Self)
        ensures
            r.wf(),
            r@ == empty_state(),
    {
        let r = ParserState {
            instructions: Vec::new(),
            labels: Table::new(),
            functions: Vec::new(),
            extern_functions: Vec::new(),
            local_vars: Table::new(),
            global_vars: Table::new(),
            extern_vars: Table::new(),
            types: Table::new(),
            current_function: None,
        };
        assert(r@ =~= empty_state());
        r
    }

    /// Resolves the targets of jumps and branches against the labels; stops with an error
    /// at the first target that is not a label.
    pub fn fix_ups(&mut self) -> (r: Result<(), String>)
        requires
            old(self).wf(),
            branches_bool(old(self)@.instructions),
        ensures
            final(self).wf(),
            fixups_result(
                old(self)@.labels,
                old(self)@.instructions,
                final(self)@.instructions,
                r is Ok,
            ),
            final(self)@ == (StateV { instructions: final(self)@.instructions, ..old(self)@ }),
    {
        let r = fix_instructions(&self.labels, &mut self.instructions);
        assert(self@ =~= (StateV { instructions: self@.instructions, ..old(self)@ }));
        r
    }

    /// The object that the state read so far makes.
    pub fn into_obj(self) -> (r: MikuObject)
        requires
            self.wf(),
        ensures
            r@ == obj_of(self@),
            r.wf(),
    {
        let r = MikuObject {
            instructions: self.instructions,
            labels: self.labels,
            functions: self.functions,
            extern_functions: self.extern_functions,
            global_vars: self.global_vars,
            extern_vars: self.extern_vars,
            types: self.types,
        };
        assert(r@ =~= obj_of(self@));
        r
    }

    /// Reads a whole miku source text: each line in turn, then resolves jump targets.
    /// A refused line `n` (counting from 1) is reported as `Error line:n, ` followed by
    /// the line's error.
    #[verifier::loop_isolation(false)]
    pub fn parse_to_program(src: &str) -> (r: Result<MikuObject, String>)
        requires
            source_ok(src@),
        ensures
            ({
                let (st, bad) = parse_lines(empty_state(), source_words(src@));
                &&& bad is Some ==> (r matches Err(e) && e@.take(11) == "Error line:"@ && e@.skip(
                    11,
                ).take(decimal((bad->0 + 1) as nat).len() as int + 2) == decimal((bad->0 + 1) as nat)
                    + ", "@)
                &&& bad is None ==> (r is Ok <==> forall|j: int|
                    0 <= j < st.instructions.len() ==> fix_instr(
                        st.labels,
                        #[trigger] st.instructions[j],
                    ) is Some)
                &&& bad is None ==> (r matches Ok(obj) ==> obj@ == obj_of(
                    StateV {
                        instructions: fixed_upto(
                            st.labels,
                            st.instructions,
                            st.instructions.len() as int,
                        ),
                        ..st
                    },
                ))
            }),
    {
        let ls = lines(src);
        let ghost sw = source_words(src@);
        assert(sw.len() == ls@.len());
        let mut out = Self::new();
        let mut i: usize = 0;
        while i < ls.len()
            invariant
                out.wf(),
                i <= ls@.len(),
                sw.len() == ls@.len(),
                parse_lines(empty_state(), sw.take(i as int)).1 is None,
                out@ == parse_lines(empty_state(), sw.take(i as int)).0,
                branches_bool(out@.instructions),
            decreases ls@.len() - i,
        {
            let p = split_line(ls[i].as_str());
            assert(words_view(p@) =~= sw[i as int]) by {
                assert(lines_of(src@)[i as int] == ls@[i as int]@);
                assert(sw[i as int] == words(lines_of(src@)[i as int]));
                assert(words_view(p@) =~= Seq::new(p@.len(), |k: int| p@[k]@));
            }
            assert(words_ok(p@)) by {
                assert forall|j: int| 0 <= j < p@.len() implies char_word_ok(#[trigger] p@[j]@) by {
                    assert(sw[i as int][j] == p@[j]@);
                }
            }
            assert(sw.take(i + 1).drop_last() =~= sw.take(i as int));
            assert(sw.take(i + 1).last() == sw[i as int]);
            proof {
                lemma_parse_line_branches(out@, sw[i as int]);
            }
            match out.parse_instruction(p) {
                Ok(()) => {},
                Err(e) => {
                    let mut msg = String::from_str("Error line:");
                    let ghost before = msg@;
                    push_decimal(&mut msg, (i + 1) as u64);
                    push_str(&mut msg, ", ");
                    push_str(&mut msg, e.as_str());
                    proof {
                        reveal_strlit("Error line:");
                        reveal_strlit(", ");
                        let d = decimal((i + 1) as nat);
                        assert(msg@ =~= "Error line:"@ + d + ", "@ + e@);
                        assert(msg@.take(11) =~= "Error line:"@);
                        assert(msg@.skip(11).take(d.len() as int + 2) =~= d + ", "@);
                        let k = sw.len() as int;
                        lemma_parse_lines_stop(empty_state(), sw, i as int);
                    }
                    return Err(msg);
                },
            }
            i += 1;
        }
        assert(sw.take(i as int) =~= sw);
        match out.fix_ups() {
            Ok(()) => {},
            Err(e) => return Err(e),
        }
        let obj = out.into_obj();
        Ok(obj)
    }

    #[verifier::loop_isolation(false)]
    pub fn validate_call(&self, call: &MikuInstr) -> (r: Result<(), String>)
        ensures
            r is Ok <==> (call@ matches InstrV::Call { to, return_var, args, .. } && call_ok(
                self@,
                to,
                return_var,
                args,
            )),
    {
        match call {
            MikuInstr::Call { to, to_index: _, return_var, args } => {
                let fi = find_decl(&self.functions, to.as_str());
                let ei = find_decl(&self.extern_functions, to.as_str());
                let func: &FuncDec = match ei {
                    Some(i) => &self.extern_functions[i],
                    None => match fi {
                        Some(i) => &self.functions[i],
                        None => {
                            let mut e = debug_pretty(to.as_str());
                            push_str(&mut e, " is not a declared function");
                            return Err(e);
                        },
                    },
                };
                let ghost f = func@;
                assert(call_target(self@, to@) == Some(f));
                if func.args.len() != args.len() {
                    assert(uses_view(args@).len() == args@.len());
                    assert(f.args.len() == func.args@.len());
                    let mut e = String::from_str("calls args don't match signature, expected ");
                    push_str(&mut e, debug_pretty(&func.args).as_str());
                    push_str(&mut e, " found ");
                    push_str(&mut e, debug_pretty(args).as_str());
                    return Err(e);
                }
                let mut i: usize = 0;
                while i < func.args.len()
                    invariant
                        i <= func.args@.len(),
                        func.args@.len() == args@.len(),
                        f == func@,
                        forall|j: int|
                            0 <= j < i ==> #[trigger] f.args[j].var_type == use_type(
                                uses_view(args@)[j],
                            ),
                    decreases func.args@.len() - i,
                {
                    let t = args[i].get_type();
                    if !same_type(&func.args[i].var_type, &t) {
                        assert(f.args[i as int].var_type != use_type(uses_view(args@)[i as int]));
                        let mut e = String::from_str(
                            "calls args don't match signature, expected ",
                        );
                        push_str(&mut e, debug_pretty(&func.args).as_str());
                        push_str(&mut e, " found ");
                        push_str(&mut e, debug_pretty(args).as_str());
                        return Err(e);
                    }
                    i += 1;
                }
                match return_var {
                    Some(v) => {
                        let k = func.return_type.clone();
                        let t = v.get_type();
                        if !same_type(&t, &k) {
                            let mut e = String::from_str("expected return type ");
                            push_str(&mut e, debug_pretty(&k).as_str());
                            push_str(&mut e, ", found ");
                            push_str(&mut e, debug_pretty(&t).as_str());
                            return Err(e);
                        }
                    },
                    None => {},
                }
                Ok(())
            },
            _ => {
                let mut e = debug_pretty(call);
                push_str(&mut e, " was not a call instruction");
                Err(e)
            },
        }
    }

    fn parse_words(&mut self, l: &[String]) -> (r: Result<(), String>)
        requires
            old(self).wf(),
            l@.len() > 0,
            words_ok(l@),
            !body_unsupported(words_view(l@)),
        ensures
            final(self).wf(),
            final(self)@ == parse_body(old(self)@, words_view(l@)).0,
            (r is Ok) == parse_body(old(self)@, words_view(l@)).1,
    {
        let w = l[0].as_str();
        assert(words_view(l@)[0] == w@);
        if str_equal(w, "=") || str_equal(w, "^=") || str_equal(w, "&") {
            return self.pair_instr(l);
        }
        if str_equal(w, "defun") {
            return self.defun(l);
        }
        if str_equal(w, "extern") {
            return self.extern_decl(l);
        }
        if str_equal(w, "end") {
            return self.end_function();
        }
        match op_word(w) {
            Some(op) => {
                return self.binop(l, op);
            },
            None => {},
        }
        if str_equal(w, "ret") {
            return self.ret(l);
        }
        if str_equal(w, "jmp") {
            return self.jmp(l);
        }
        if str_equal(w, "br") {
            return self.br(l);
        }
        if str_equal(w, "decl") {
            return self.decl(l);
        }
        if str_equal(w, "static") {
            assert(l@.len() >= 4 ==> words_view(l@)[2] == l@[2]@);
            return self.static_decl(l);
        }
        self.call(l)
    }

    fn call(&mut self, l: &[String]) -> (r: Result<(), String>)
        requires
            old(self).wf(),
            l@.len() > 0,
            words_ok(l@),
        ensures
            final(self).wf(),
            final(self)@ == call_step(old(self)@, words_view(l@)).0,
            (r is Ok) == call_step(old(self)@, words_view(l@)).1,
    {
        let ghost ws = words_view(l@);
        let to_call = l[0].as_str();
        assert(ws[0] == to_call@);
        let ret = match self.expect_variable(l, 1) {
            Ok(rt) => Some(rt),
            Err(_) => None,
        };
        let mut args: Vec<VarUse> = Vec::new();
        let mut index: usize = 2;
        while index < l.len()
            invariant
                self.wf(),
                2 <= index,
                index <= l@.len() || index == 2,
                words_ok(l@),
                ws == words_view(l@),
                args@.len() == index - 2,
                forall|j: int|
                    0 <= j < args@.len() ==> Some((#[trigger] args@[j])@) == var_of(self@, ws[j + 2]),
            decreases l@.len() - index,
        {
            let ag = match self.expect_variable(l, index) {
                Ok(a) => a,
                Err(e) => {
                    proof {
                        lemma_vars_from_none(self@, ws, 2, index as int);
                    }
                    return Err(e);
                },
            };
            args.push(ag);
            index += 1;
        }
        proof {
            assert forall|j: int| 0 <= j < uses_view(args@).len() implies Some(
                #[trigger] uses_view(args@)[j],
            ) == var_of(self@, ws[j + 2]) by {
                assert(uses_view(args@)[j] == args@[j]@);
            }
            lemma_vars_from_some(self@, ws, 2, uses_view(args@));
        }
        let v = MikuInstr::Call { to: String::from_str(to_call), return_var: ret, args, to_index: None };
        match self.validate_call(&v) {
            Ok(()) => {},
            Err(e) => return Err(e),
        }
        let ghost before = self.instructions@;
        self.instructions.push(v);
        proof {
            lemma_instrs_push(before, self.instructions@.last());
            assert(self@ =~= call_step(old(self)@, ws).0);
        }
        Ok(())
    }

    /// Reads one line of miku source, given as its words: a leading label (a first word
    /// ending in `:`) records the label at the current instruction; the rest of the line
    /// is an instruction or declaration.  A refused line is reported as an error.
    pub fn parse_instruction(&mut self, line: Vec<String>) -> (r: Result<(), String>)
        requires
            old(self).wf(),
            words_ok(line@),
            !line_unsupported(words_view(line@)),
        ensures
            final(self).wf(),
            final(self)@ == parse_line(old(self)@, words_view(line@)).0,
            (r is Ok) == parse_line(old(self)@, words_view(line@)).1,
    {
        let ghost ws = words_view(line@);
        if line.len() < 1 {
            return Ok(());
        }
        let mut line = line;
        assert(ws[0] == line@[0]@);
        if ends_with_colon(&line[0]) {
            let name = drop_last_char(&line[0]);
            let index = self.instructions.len();
            let ghost before = self.instructions@;
            self.labels.insert(name.clone(), index);
            self.instructions.push(MikuInstr::Label { name, label_index: index });
            proof {
                lemma_instrs_push(before, self.instructions@.last());
            }
            line.remove(0);
            assert(words_view(line@) =~= ws.drop_first());
            if line.len() == 0 {
                assert(self@ =~= parse_line(old(self)@, ws).0);
                return Ok(());
            }
            let ghost mid = self@;
            assert(mid =~= StateV {
                instructions: old(self)@.instructions.push(
                    InstrV::Label { name: ws[0].drop_last(), label_index: index },
                ),
                labels: old(self)@.labels.insert(ws[0].drop_last(), index),
                ..old(self)@
            });
            return self.parse_words(line.as_slice());
        }
        self.parse_words(line.as_slice())
    }

    fn pair_instr(&mut self, l: &[String]) -> (r: Result<(), String>)
        requires
            old(self).wf(),
            l@.len() > 0,
            words_ok(l@),
        ensures
            final(self).wf(),
            final(self)@ == pair_step(old(self)@, words_view(l@)).0,
            (r is Ok) == pair_step(old(self)@, words_view(l@)).1,
    {
        let a = match self.expect_variable(l, 1) {
            Ok(a) => a,
            Err(e) => return Err(e),
        };
        let b = match self.expect_variable(l, 2) {
            Ok(b) => b,
            Err(e) => return Err(e),
        };
        let w = l[0].as_str();
        let ghost ws = words_view(l@);
        assert(ws[0] == w@);
        let v = if str_equal(w, "=") {
            MikuInstr::Assign { left: a, right: b }
        } else if str_equal(w, "^=") {
            MikuInstr::DerefAssign { left: a, right: b }
        } else {
            MikuInstr::GetRef { assigned_to: a, of: b }
        };
        let ghost before = self.instructions@;
        self.instructions.push(v);
        proof {
            lemma_instrs_push(before, self.instructions@.last());
            assert(self@ =~= pair_step(old(self)@, ws).0);
        }
        Ok(())
    }

    #[verifier::loop_isolation(false)]
    fn defun(&mut self, l: &[String]) -> (r: Result<(), String>)
        requires
            old(self).wf(),
            l@.len() > 0,
        ensures
            final(self).wf(),
            final(self)@ == defun_step(old(self)@, words_view(l@)).0,
            (r is Ok) == defun_step(old(self)@, words_view(l@)).1,
    {
        let ghost ws = words_view(l@);
        if l.len() < 2 {
            return Err(String::from_str("function requires information"));
        }
        if self.current_function.is_some() {
            return Err(String::from_str("cannot declare a function inside another function"));
        }
        let tail = tail_words(l);
        let mut func = match self.expect_function_header(tail.as_slice()) {
            Ok(f) => f,
            Err(e) => return Err(e),
        };
        let ghost f0 = func@;
        let n = self.instructions.len();
        func.index = Some(n);
        self.current_function = Some(func.name.clone());
        assert(ws[2] == l@[2]@);
        let v = MikuInstr::BeginFunction { name: l[2].clone(), label_index: n };
        let mut i: usize = 0;
        let ghost locals0 = decs_view(self.local_vars.map());
        while i < func.args.len()
            invariant
                self.wf(),
                i <= func.args@.len(),
                f0.args == func@.args,
                self.instructions@ == old(self).instructions@,
                self.functions@ == old(self).functions@,
                self.extern_functions@ == old(self).extern_functions@,
                self.labels == old(self).labels,
                self.global_vars == old(self).global_vars,
                self.extern_vars == old(self).extern_vars,
                self.types == old(self).types,
                opt_name(self.current_function) == Some(f0.name),
                decs_view(self.local_vars.map()) == insert_args(locals0, f0.args.take(i as int)),
            decreases func.args@.len() - i,
        {
            let d = func.args[i].clone();
            proof {
                lemma_decs_insert(self.local_vars.map(), d.name@, d);
                assert(f0.args.take(i + 1).drop_last() =~= f0.args.take(i as int));
                assert(f0.args.take(i + 1).last() == d@);
            }
            self.local_vars.insert(func.args[i].name.clone(), d);
            i += 1;
        }
        assert(f0.args.take(i as int) =~= f0.args);
        let ghost before = self.instructions@;
        self.instructions.push(v);
        let ghost fbefore = self.functions@;
        self.functions.push(func);
        proof {
            lemma_instrs_push(before, self.instructions@.last());
            lemma_funcs_push(fbefore, self.functions@.last());
            assert(self@.functions =~= defun_step(old(self)@, ws).0.functions);
            assert(self@ =~= defun_step(old(self)@, ws).0);
        }
        Ok(())
    }

    fn extern_decl(&mut self, l: &[String]) -> (r: Result<(), String>)
        requires
            old(self).wf(),
            l@.len() > 0,
        ensures
            final(self).wf(),
            final(self)@ == extern_step(old(self)@, words_view(l@)).0,
            (r is Ok) == extern_step(old(self)@, words_view(l@)).1,
    {
        if l.len() < 2 {
            return Err(String::from_str("function requires information"));
        }
        let tail = tail_words(l);
        let func = match self.expect_function_header(tail.as_slice()) {
            Ok(f) => f,
            Err(e) => return Err(e),
        };
        let ghost before = self.extern_functions@;
        self.extern_functions.push(func);
        proof {
            lemma_funcs_push(before, self.extern_functions@.last());
            assert(self@ =~= extern_step(old(self)@, words_view(l@)).0);
        }
        Ok(())
    }

    fn end_function(&mut self) -> (r: Result<(), String>)
        requires
            old(self).wf(),
        ensures
            final(self).wf(),
            final(self)@ == end_step(old(self)@).0,
            (r is Ok) == end_step(old(self)@).1,
    {
        let p = match &self.current_function {
            Some(p) => p.clone(),
            None => return Err(String::from_str("end not inside of function")),
        };
        self.current_function = None;
        let ghost before = self.instructions@;
        self.instructions.push(MikuInstr::EndFunction { name: p });
        self.local_vars.clear();
        proof {
            lemma_instrs_push(before, self.instructions@.last());
            assert(decs_view(self.local_vars.map()) =~= Map::empty());
            assert(self@ =~= end_step(old(self)@).0);
        }
        Ok(())
    }

    fn binop(&mut self, l: &[String], op: OpType) -> (r: Result<(), String>)
        requires
            old(self).wf(),
            l@.len() > 0,
            words_ok(l@),
        ensures
            final(self).wf(),
            final(self)@ == binop_step(old(self)@, words_view(l@), op).0,
            (r is Ok) == binop_step(old(self)@, words_view(l@), op).1,
    {
        let output = match self.expect_variable(l, 1) {
            Ok(a) => a,
            Err(e) => return Err(e),
        };
        let left = match self.expect_variable(l, 2) {
            Ok(a) => a,
            Err(e) => return Err(e),
        };
        let right = match self.expect_variable(l, 3) {
            Ok(a) => a,
            Err(e) => return Err(e),
        };
        let ghost before = self.instructions@;
        self.instructions.push(MikuInstr::BinOp { operation: op, left, right, output });
        proof {
            lemma_instrs_push(before, self.instructions@.last());
            assert(self@ =~= binop_step(old(self)@, words_view(l@), op).0);
        }
        Ok(())
    }

    fn ret(&mut self, l: &[String]) -> (r: Result<(), String>)
        requires
            old(self).wf(),
            l@.len() > 0,
            words_ok(l@),
        ensures
            final(self).wf(),
            final(self)@ == ret_step(old(self)@, words_view(l@)).0,
            (r is Ok) == ret_step(old(self)@, words_view(l@)).1,
    {
        let value = match self.expect_variable(l, 1) {
            Ok(rt) => Some(rt),
            Err(_) => None,
        };
        let ghost before = self.instructions@;
        self.instructions.push(MikuInstr::Return { value });
        proof {
            lemma_instrs_push(before, self.instructions@.last());
            assert(self@ =~= ret_step(old(self)@, words_view(l@)).0);
        }
        Ok(())
    }

    fn jmp(&mut self, l: &[String]) -> (r: Result<(), String>)
        requires
            old(self).wf(),
            l@.len() > 0,
        ensures
            final(self).wf(),
            final(self)@ == jmp_step(old(self)@, words_view(l@)).0,
            (r is Ok) == jmp_step(old(self)@, words_view(l@)).1,
    {
        let target = match self.expect_literal(l, 1) {
            Ok(t) => t,
            Err(e) => return Err(e),
        };
        let ghost before = self.instructions@;
        self.instructions.push(MikuInstr::Jmp { to: String::from_str(target), to_index: None });
        proof {
            lemma_instrs_push(before, self.instructions@.last());
            assert(self@ =~= jmp_step(old(self)@, words_view(l@)).0);
        }
        Ok(())
    }

    fn br(&mut self, l: &[String]) -> (r: Result<(), String>)
        requires
            old(self).wf(),
            l@.len() > 0,
            words_ok(l@),
        ensures
            final(self).wf(),
            final(self)@ == br_step(old(self)@, words_view(l@)).0,
            (r is Ok) == br_step(old(self)@, words_view(l@)).1,
    {
        let cond = match self.expect_variable(l, 1) {
            Ok(c) => c,
            Err(e) => return Err(e),
        };
        let if_true = match self.expect_literal(l, 2) {
            Ok(t) => t,
            Err(e) => return Err(e),
        };
        let if_false = match self.expect_literal(l, 3) {
            Ok(t) => t,
            Err(e) => return Err(e),
        };
        let t = cond.get_type();
        if !same_type(&t, &MikuType::Bool) {
            let mut e = String::from_str("conditional variable ");
            push_str(&mut e, debug_pretty(&cond).as_str());
            push_str(&mut e, " is not a boolean");
            return Err(e);
        }
        let v = MikuInstr::Branch {
            var: cond,
            to_true: String::from_str(if_true),
            to_false: String::from_str(if_false),
            to_true_index: None,
            to_false_index: None,
        };
        let ghost before = self.instructions@;
        self.instructions.push(v);
        proof {
            lemma_instrs_push(before, self.instructions@.last());
            assert(self@ =~= br_step(old(self)@, words_view(l@)).0);
        }
        Ok(())
    }

    fn decl(&mut self, l: &[String]) -> (r: Result<(), String>)
        requires
            old(self).wf(),
            l@.len() > 0,
        ensures
            final(self).wf(),
            final(self)@ == decl_step(old(self)@, words_view(l@)).0,
            (r is Ok) == decl_step(old(self)@, words_view(l@)).1,
    {
        let name = match self.expect_literal(l, 1) {
            Ok(t) => t,
            Err(e) => return Err(e),
        };
        let vtype = match self.expect_type(l, 2) {
            Ok(t) => t,
            Err(e) => return Err(e),
        };
        assert(words_view(l@)[1] == l@[1]@ && words_view(l@)[2] == l@[2]@);
        let count = self.local_vars.len() as u32;
        let dc = VarDec { name: String::from_str(name), var_type: vtype.clone(), index: count as usize };
        let v = MikuInstr::DeclVar { var_name: String::from_str(name), vtype, count };
        let ghost before = self.instructions@;
        self.instructions.push(v);
        proof {
            lemma_decs_insert(self.local_vars.map(), name@, dc);
        }
        self.local_vars.insert(String::from_str(name), dc);
        proof {
            lemma_instrs_push(before, self.instructions@.last());
            assert(old(self)@.local_vars.dom() =~= old(self).local_vars.map().dom());
            let sp = decl_step(old(self)@, words_view(l@)).0;
            assert(self@.instructions =~= sp.instructions);
            assert(self@.local_vars =~= sp.local_vars);
            assert(self@ =~= sp);
        }
        Ok(())
    }

    fn static_decl(&mut self, l: &[String]) -> (r: Result<(), String>)
        requires
            old(self).wf(),
            l@.len() > 0,
            !(l@.len() >= 4 && (l@[2]@ == "char"@ || l@[2]@ == "bool"@)),
        ensures
            final(self).wf(),
            final(self)@ == static_step(old(self)@, words_view(l@)).0,
            (r is Ok) == static_step(old(self)@, words_view(l@)).1,
    {
        let name = match self.expect_literal(l, 1) {
            Ok(t) => t,
            Err(e) => return Err(e),
        };
        let vtype = match self.expect_type(l, 2) {
            Ok(t) => t,
            Err(e) => return Err(e),
        };
        let lit = match self.expect_literal(l, 3) {
            Ok(t) => t,
            Err(e) => return Err(e),
        };
        let vlit = match &vtype {
            MikuType::String => MikuLiteral::String { v: String::from_str(lit) },
            MikuType::Double => {
                if is_float_text(lit) {
                    MikuLiteral::Double { v: String::from_str(lit) }
                } else {
                    let mut e = String::from_str("cannot parse ");
                    push_str(&mut e, debug_pretty(lit).as_str());
                    push_str(&mut e, " into float");
                    return Err(e);
                }
            },
            MikuType::Integer => match parse_i64(lit) {
                Some(p) => MikuLiteral::Integer { v: p },
                None => {
                    let mut e = String::from_str("cannot parse ");
                    push_str(&mut e, debug_pretty(lit).as_str());
                    push_str(&mut e, " into int");
                    return Err(e);
                },
            },
            _ => {
                let mut e = String::from_str("statics of type ");
                push_str(&mut e, debug_pretty(&vtype).as_str());
                push_str(&mut e, " are currently unsupported");
                return Err(e);
            },
        };
        assert(words_view(l@)[1] == l@[1]@ && words_view(l@)[2] == l@[2]@ && words_view(l@)[3]
            == l@[3]@);
        let count = self.global_vars.len();
        let v = MikuInstr::DeclStatic {
            base_value: vlit,
            count: count as u32,
            var_name: String::from_str(name),
            vtype: vtype.clone(),
        };
        let dc = VarDec { name: String::from_str(name), index: count, var_type: vtype };
        proof {
            lemma_decs_insert(self.global_vars.map(), name@, dc);
        }
        self.global_vars.insert(String::from_str(name), dc);
        let ghost before = self.instructions@;
        self.instructions.push(v);
        proof {
            lemma_instrs_push(before, self.instructions@.last());
            assert(old(self)@.global_vars.dom() =~= old(self).global_vars.map().dom());
            assert(self@ =~= static_step(old(self)@, words_view(l@)).0);
        }
        Ok(())
    }

}

/// The words of `s`: its maximal runs of non-whitespace characters, in order.
pub open spec fn words(s: Seq<char>) -> Seq<Seq<char>> {
    let (done, cur) = words_state(s);
    if cur.len() > 0 {
        done.push(cur)
    } else {
        done
    }
}

/// The completed words of `s` and the word being read at its end.
pub open spec fn words_state(s: Seq<char>) -> (Seq<Seq<char>>, Seq<char>)
    decreases s.len(),
{
    if s.len() == 0 {
        (seq![], seq![])
    } else {
        let (done, cur) = words_state(s.drop_last());
        let c = s.last();
        if spec_is_whitespace(c) {
            if cur.len() > 0 {
                (done.push(cur), seq![])
            } else {
                (done, seq![])
            }
        } else {
            (done, cur.push(c))
        }
    }
}

/// Splits a line into its whitespace-separated words.
pub fn split_line(v: &str) -> (r: Vec<String>)
    ensures
        Seq::new(r@.len(), |i: int| r@[i]@) == words(v@),
{
    broadcast use vstd::string::group_string_axioms;

    let mut out: Vec<String> = Vec::new();
    let mut cur: Vec<char> = Vec::new();
    for c in it: v.chars()
        invariant
            it.seq() == v@,
            ({
                let (done, w) = words_state(v@.take(it.index() as int));
                &&& Seq::new(out@.len(), |i: int| out@[i]@) == done
                &&& cur@ == w
            }),
    {
        proof {
            let post = v@.take(it.index() + 1);
            assert(post.drop_last() == v@.take(it.index() as int));
            assert(post.last() == c);
        }
        if is_whitespace(c) {
            if cur.len() > 0 {
                out.push(from_chars(cur.as_slice()));
                cur = Vec::new();
            }
        } else {
            cur.push(c);
        }
        assert(Seq::new(out@.len(), |i: int| out@[i]@) =~= words_state(
            v@.take(it.index() + 1),
        ).0);
    }
    assert(v@.take(v@.len() as int) == v@);
    if cur.len() > 0 {
        out.push(from_chars(cur.as_slice()));
    }
    assert(Seq::new(out@.len(), |i: int| out@[i]@) =~= words(v@));
    out
}

} // verus!
