//! The intermediate form that the lisp compiler produces: types, variables and
//! instructions, and the compiler's scopes and function table.
use crate::rust_lisp::lisp::{nodes_view, Node, NodeView};
use crate::table::Table;
use vstd::prelude::*;

verus! {

/// What a compilation can report.
#[derive(Debug)]
pub enum CompilerResult {
    NoReturnedVariable,
}

/// A type of the compiled language.
#[derive(Debug)]
pub enum Type {
    Void,
    Integer,
    Double,
    Char,
    String,
    Bool,
    List { vtype: Box<Type> },
    Box { vtype: Box<Type> },
    FunctionPointer { captures: Vec<Var>, to_call: Box<Callable> },
}

/// A value: a numbered local (with its type and a byte offset), a place reached
/// through another, or a literal. A double literal holds the number's printed form.
#[derive(Debug)]
pub enum Var {
    Basic { idx: usize, vtype: Type, byte_offset: usize },
    FieldAccess { field_idx: usize, base: Box<Var> },
    DeRef { base: Box<Var> },
    TakeRef { base: Box<Var> },
    ListLiteral { list: Vec<Var> },
    StringLiteral { v: String },
    IntegerLiteral { v: i64 },
    DoubleLiteral { v: String },
    CharacterLiteral { v: char },
    BoolLiteral { v: bool },
}

/// What a call calls: a variable holding a function, or a function by name.
#[derive(Debug)]
pub enum Callable {
    Variable { v: Var },
    Function { v: String },
}

/// The model of a type.
pub enum TyV {
    Void,
    Integer,
    Double,
    Char,
    String,
    Bool,
    List(Box<TyV>),
    Boxed(Box<TyV>),
    FunctionPointer(Seq<VarV>, Box<CallV>),
}

/// The model of a variable.
pub enum VarV {
    Basic { idx: usize, vtype: TyV, byte_offset: usize },
    FieldAccess { field_idx: usize, base: Box<VarV> },
    DeRef(Box<VarV>),
    TakeRef(Box<VarV>),
    ListLiteral(Seq<VarV>),
    StringLiteral(Seq<char>),
    IntegerLiteral(i64),
    DoubleLiteral(Seq<char>),
    CharacterLiteral(char),
    BoolLiteral(bool),
}

/// The model of a callee.
pub enum CallV {
    Variable(VarV),
    Function(Seq<char>),
}

pub open spec fn ty_view(t: Type) -> TyV
    decreases t,
{
    match t {
        Type::Void => TyV::Void,
        Type::Integer => TyV::Integer,
        Type::Double => TyV::Double,
        Type::Char => TyV::Char,
        Type::String => TyV::String,
        Type::Bool => TyV::Bool,
        Type::List { vtype } => TyV::List(Box::new(ty_view(*vtype))),
        Type::Box { vtype } => TyV::Boxed(Box::new(ty_view(*vtype))),
        Type::FunctionPointer { captures, to_call } => TyV::FunctionPointer(
            Seq::new(
                captures@.len(),
                |i: int|
                    {
                        if 0 <= i < captures@.len() {
                            proof {
                                assert(decreases_to!(t => captures));
                                assert(decreases_to!(captures => captures@));
                            }
                            var_view(captures@[i])
                        } else {
                            VarV::BoolLiteral(false)
                        }
                    },
            ),
            Box::new(call_view(*to_call)),
        ),
    }
}

pub open spec fn var_view(v: Var) -> VarV
    decreases v,
{
    match v {
        Var::Basic { idx, vtype, byte_offset } => VarV::Basic { idx, vtype: ty_view(vtype), byte_offset },
        Var::FieldAccess { field_idx, base } => VarV::FieldAccess { field_idx, base: Box::new(var_view(*base)) },
        Var::DeRef { base } => VarV::DeRef(Box::new(var_view(*base))),
        Var::TakeRef { base } => VarV::TakeRef(Box::new(var_view(*base))),
        Var::ListLiteral { list } => VarV::ListLiteral(
            Seq::new(
                list@.len(),
                |i: int|
                    {
                        if 0 <= i < list@.len() {
                            proof {
                                assert(decreases_to!(v => list));
                                assert(decreases_to!(list => list@));
                            }
                            var_view(list@[i])
                        } else {
                            VarV::BoolLiteral(false)
                        }
                    },
            ),
        ),
        Var::StringLiteral { v } => VarV::StringLiteral(v@),
        Var::IntegerLiteral { v } => VarV::IntegerLiteral(v),
        Var::DoubleLiteral { v } => VarV::DoubleLiteral(v@),
        Var::CharacterLiteral { v } => VarV::CharacterLiteral(v),
        Var::BoolLiteral { v } => VarV::BoolLiteral(v),
    }
}

pub open spec fn call_view(c: Callable) -> CallV
    decreases c,
{
    match c {
        Callable::Variable { v } => CallV::Variable(var_view(v)),
        Callable::Function { v } => CallV::Function(v@),
    }
}

/// The models of a list of variables.
pub open spec fn vars_view(s: Seq<Var>) -> Seq<VarV> {
    Seq::new(s.len(), |i: int| var_view(s[i]))
}

/// The models of a list of types.
pub open spec fn tys_view(s: Seq<Type>) -> Seq<TyV> {
    Seq::new(s.len(), |i: int| ty_view(s[i]))
}

impl View for Type {
    type V = TyV;

    open spec fn view(&self) -> TyV {
        ty_view(*self)
    }
}

impl View for Var {
    type V = VarV;

    open spec fn view(&self) -> VarV {
        var_view(*self)
    }
}

impl View for Callable {
    type V = CallV;

    open spec fn view(&self) -> CallV {
        call_view(*self)
    }
}

proof fn lemma_fp_view(captures: Vec<Var>, to_call: Box<Callable>)
    ensures
        ty_view(Type::FunctionPointer { captures, to_call }) == TyV::FunctionPointer(
            vars_view(captures@),
            Box::new(call_view(*to_call)),
        ),
{
    assert(ty_view(Type::FunctionPointer { captures, to_call })->FunctionPointer_0 =~= vars_view(
        captures@,
    ));
}

proof fn lemma_list_literal_view(list: Vec<Var>)
    ensures
        var_view(Var::ListLiteral { list }) == VarV::ListLiteral(vars_view(list@)),
{
    assert(var_view(Var::ListLiteral { list })->ListLiteral_0 =~= vars_view(list@));
}

/// A copy of a type with the same model.
pub fn copy_type(t: &Type) -> (r: Type)
    ensures
        r@ == t@,
    decreases t,
{
    match t {
        Type::Void => Type::Void,
        Type::Integer => Type::Integer,
        Type::Double => Type::Double,
        Type::Char => Type::Char,
        Type::String => Type::String,
        Type::Bool => Type::Bool,
        Type::List { vtype } => Type::List { vtype: Box::new(copy_type(vtype)) },
        Type::Box { vtype } => Type::Box { vtype: Box::new(copy_type(vtype)) },
        Type::FunctionPointer { captures, to_call } => {
            proof {
                assert(decreases_to!(t => captures));
            }
            let c = copy_vars(captures);
            let k = copy_callable(to_call);
            let b = Box::new(k);
            proof {
                lemma_fp_view(c, b);
                lemma_fp_view(*captures, *to_call);
            }
            Type::FunctionPointer { captures: c, to_call: b }
        },
    }
}

/// A copy of a variable with the same model.
pub fn copy_var(v: &Var) -> (r: Var)
    ensures
        r@ == v@,
    decreases v,
{
    match v {
        Var::Basic { idx, vtype, byte_offset } => Var::Basic {
            idx: *idx,
            vtype: copy_type(vtype),
            byte_offset: *byte_offset,
        },
        Var::FieldAccess { field_idx, base } => Var::FieldAccess {
            field_idx: *field_idx,
            base: Box::new(copy_var(base)),
        },
        Var::DeRef { base } => Var::DeRef { base: Box::new(copy_var(base)) },
        Var::TakeRef { base } => Var::TakeRef { base: Box::new(copy_var(base)) },
        Var::ListLiteral { list } => {
            proof {
                assert(decreases_to!(v => list));
            }
            let c = copy_vars(list);
            proof {
                lemma_list_literal_view(c);
                lemma_list_literal_view(*list);
            }
            Var::ListLiteral { list: c }
        },
        Var::StringLiteral { v } => Var::StringLiteral { v: v.clone() },
        Var::IntegerLiteral { v } => Var::IntegerLiteral { v: *v },
        Var::DoubleLiteral { v } => Var::DoubleLiteral { v: v.clone() },
        Var::CharacterLiteral { v } => Var::CharacterLiteral { v: *v },
        Var::BoolLiteral { v } => Var::BoolLiteral { v: *v },
    }
}

/// A copy of a callee with the same model.
pub fn copy_callable(c: &Callable) -> (r: Callable)
    ensures
        r@ == c@,
    decreases c,
{
    match c {
        Callable::Variable { v } => Callable::Variable { v: copy_var(v) },
        Callable::Function { v } => Callable::Function { v: v.clone() },
    }
}

/// A copy of a list of variables with the same models.
pub fn copy_vars(v: &Vec<Var>) -> (r: Vec<Var>)
    ensures
        vars_view(r@) == vars_view(v@),
    decreases v,
{
    let mut r: Vec<Var> = Vec::new();
    let mut i: usize = 0;
    while i < v.len()
        invariant
            i <= v@.len(),
            r@.len() == i,
            forall|j: int| 0 <= j < i ==> var_view(#[trigger] r@[j]) == var_view(v@[j]),
        decreases v@.len() - i,
    {
        proof {
            assert(decreases_to!(v => v@));
            assert(decreases_to!(v@ => v@[i as int]));
        }
        let c = copy_var(&v[i]);
        r.push(c);
        i = i + 1;
    }
    assert(vars_view(r@) =~= vars_view(v@));
    r
}

/// Whether two types are the same type.
pub fn same_type(a: &Type, b: &Type) -> (r: bool)
    ensures
        r == (a@ == b@),
    decreases a,
{
    match (a, b) {
        (Type::Void, Type::Void) => true,
        (Type::Integer, Type::Integer) => true,
        (Type::Double, Type::Double) => true,
        (Type::Char, Type::Char) => true,
        (Type::String, Type::String) => true,
        (Type::Bool, Type::Bool) => true,
        (Type::List { vtype: x }, Type::List { vtype: y }) => same_type(x, y),
        (Type::Box { vtype: x }, Type::Box { vtype: y }) => same_type(x, y),
        (
            Type::FunctionPointer { captures: c1, to_call: k1 },
            Type::FunctionPointer { captures: c2, to_call: k2 },
        ) => {
            proof {
                lemma_fp_view(*c1, *k1);
                lemma_fp_view(*c2, *k2);
                assert(decreases_to!(a => c1));
            }
            same_vars(c1, c2) && same_callable(k1, k2)
        },
        _ => false,
    }
}

/// Whether two variables are the same.
pub fn same_var(a: &Var, b: &Var) -> (r: bool)
    ensures
        r == (a@ == b@),
    decreases a,
{
    match (a, b) {
        (Var::Basic { idx: i1, vtype: t1, byte_offset: o1 }, Var::Basic { idx: i2, vtype: t2, byte_offset: o2 }) => {
            *i1 == *i2 && *o1 == *o2 && same_type(t1, t2)
        },
        (Var::FieldAccess { field_idx: f1, base: b1 }, Var::FieldAccess { field_idx: f2, base: b2 }) => {
            *f1 == *f2 && same_var(b1, b2)
        },
        (Var::DeRef { base: b1 }, Var::DeRef { base: b2 }) => same_var(b1, b2),
        (Var::TakeRef { base: b1 }, Var::TakeRef { base: b2 }) => same_var(b1, b2),
        (Var::ListLiteral { list: l1 }, Var::ListLiteral { list: l2 }) => {
            proof {
                lemma_list_literal_view(*l1);
                lemma_list_literal_view(*l2);
                assert(decreases_to!(a => l1));
            }
            same_vars(l1, l2)
        },
        (Var::StringLiteral { v: x }, Var::StringLiteral { v: y }) => crate::text::str_equal(x.as_str(), y.as_str()),
        (Var::IntegerLiteral { v: x }, Var::IntegerLiteral { v: y }) => *x == *y,
        (Var::DoubleLiteral { v: x }, Var::DoubleLiteral { v: y }) => crate::text::str_equal(x.as_str(), y.as_str()),
        (Var::CharacterLiteral { v: x }, Var::CharacterLiteral { v: y }) => *x == *y,
        (Var::BoolLiteral { v: x }, Var::BoolLiteral { v: y }) => *x == *y,
        _ => false,
    }
}

/// Whether two callees are the same.
pub fn same_callable(a: &Callable, b: &Callable) -> (r: bool)
    ensures
        r == (a@ == b@),
    decreases a,
{
    match (a, b) {
        (Callable::Variable { v: x }, Callable::Variable { v: y }) => same_var(x, y),
        (Callable::Function { v: x }, Callable::Function { v: y }) => crate::text::str_equal(x.as_str(), y.as_str()),
        _ => false,
    }
}

/// Whether two lists of variables are the same, item by item.
pub fn same_vars(a: &Vec<Var>, b: &Vec<Var>) -> (r: bool)
    ensures
        r == (vars_view(a@) == vars_view(b@)),
    decreases a,
{
    if a.len() != b.len() {
        assert(vars_view(a@).len() != vars_view(b@).len());
        return false;
    }
    let mut i: usize = 0;
    while i < a.len()
        invariant
            i <= a@.len(),
            a@.len() == b@.len(),
            forall|j: int| 0 <= j < i ==> var_view(#[trigger] a@[j]) == var_view(b@[j]),
        decreases a@.len() - i,
    {
        proof {
            assert(decreases_to!(a => a@));
            assert(decreases_to!(a@ => a@[i as int]));
        }
        if !same_var(&a[i], &b[i]) {
            assert(vars_view(a@)[i as int] != vars_view(b@)[i as int]);
            return false;
        }
        i = i + 1;
    }
    assert(vars_view(a@) =~= vars_view(b@));
    true
}

/// The type of a variable: that of a local, or that of a string, integer or double
/// literal; no other variable has one.
pub open spec fn var_type(v: VarV) -> Option<TyV> {
    match v {
        VarV::Basic { vtype, .. } => Some(vtype),
        VarV::StringLiteral(_) => Some(TyV::String),
        VarV::IntegerLiteral(_) => Some(TyV::Integer),
        VarV::DoubleLiteral(_) => Some(TyV::Double),
        _ => None,
    }
}

/// The type of `v`, where `var_type` gives one.
pub fn type_of(v: &Var) -> (r: Option<Type>)
    ensures
        match var_type(v@) {
            Some(t) => r matches Some(x) && x@ == t,
            None => r is None,
        },
{
    match v {
        Var::Basic { vtype, .. } => Some(copy_type(vtype)),
        Var::StringLiteral { .. } => Some(Type::String),
        Var::IntegerLiteral { .. } => Some(Type::Integer),
        Var::DoubleLiteral { .. } => Some(Type::Double),
        _ => None,
    }
}

impl Var {
    /// The variable's type (see `var_type`).
    pub fn get_type(&self) -> (r: Type)
        requires
            var_type(self@) is Some,
        ensures
            r@ == var_type(self@)->Some_0,
    {
        match type_of(self) {
            Some(t) => t,
            None => Type::Void,
        }
    }
}

/// An instruction of a compiled function.
#[derive(Debug)]
pub enum Instruction {
    FunctionCall { to_call: Callable, arguments: Vec<Var>, output: Option<Var> },
    Return { to_return: Option<Var> },
    Branch { condition: Var, if_true: Vec<Instruction>, if_false: Vec<Instruction> },
    Loop { condition: Var, to_do: Vec<Instruction> },
    Declare { to_declare: Var },
    Assignment { left: Var, right: Var },
}

/// The model of an instruction.
pub enum InsV {
    FunctionCall { to_call: CallV, arguments: Seq<VarV>, output: Option<VarV> },
    Return(Option<VarV>),
    Branch { condition: VarV, if_true: Seq<InsV>, if_false: Seq<InsV> },
    Loop { condition: VarV, to_do: Seq<InsV> },
    Declare(VarV),
    Assignment { left: VarV, right: VarV },
}

/// The model of an optional variable.
pub open spec fn opt_view(o: Option<Var>) -> Option<VarV> {
    match o {
        Some(v) => Some(var_view(v)),
        None => None,
    }
}

pub open spec fn ins_view(i: Instruction) -> InsV
    decreases i,
{
    match i {
        Instruction::FunctionCall { to_call, arguments, output } => InsV::FunctionCall {
            to_call: call_view(to_call),
            arguments: vars_view(arguments@),
            output: opt_view(output),
        },
        Instruction::Return { to_return } => InsV::Return(opt_view(to_return)),
        Instruction::Branch { condition, if_true, if_false } => InsV::Branch {
            condition: var_view(condition),
            if_true: Seq::new(
                if_true@.len(),
                |k: int|
                    {
                        if 0 <= k < if_true@.len() {
                            proof {
                                assert(decreases_to!(i => if_true));
                                assert(decreases_to!(if_true => if_true@));
                            }
                            ins_view(if_true@[k])
                        } else {
                            InsV::Return(None)
                        }
                    },
            ),
            if_false: Seq::new(
                if_false@.len(),
                |k: int|
                    {
                        if 0 <= k < if_false@.len() {
                            proof {
                                assert(decreases_to!(i => if_false));
                                assert(decreases_to!(if_false => if_false@));
                            }
                            ins_view(if_false@[k])
                        } else {
                            InsV::Return(None)
                        }
                    },
            ),
        },
        Instruction::Loop { condition, to_do } => InsV::Loop {
            condition: var_view(condition),
            to_do: Seq::new(
                to_do@.len(),
                |k: int|
                    {
                        if 0 <= k < to_do@.len() {
                            proof {
                                assert(decreases_to!(i => to_do));
                                assert(decreases_to!(to_do => to_do@));
                            }
                            ins_view(to_do@[k])
                        } else {
                            InsV::Return(None)
                        }
                    },
            ),
        },
        Instruction::Declare { to_declare } => InsV::Declare(var_view(to_declare)),
        Instruction::Assignment { left, right } => InsV::Assignment {
            left: var_view(left),
            right: var_view(right),
        },
    }
}

/// The models of a list of instructions.
pub open spec fn inss_view(s: Seq<Instruction>) -> Seq<InsV> {
    Seq::new(s.len(), |i: int| ins_view(s[i]))
}

impl View for Instruction {
    type V = InsV;

    open spec fn view(&self) -> InsV {
        ins_view(*self)
    }
}

/// The models of a branch's and a loop's bodies are those of their instructions.
pub proof fn lemma_body_views(i: Instruction)
    ensures
        i matches Instruction::Branch { condition, if_true, if_false } ==> ins_view(i) == (InsV::Branch {
            condition: var_view(condition),
            if_true: inss_view(if_true@),
            if_false: inss_view(if_false@),
        }),
        i matches Instruction::Loop { condition, to_do } ==> ins_view(i) == (InsV::Loop {
            condition: var_view(condition),
            to_do: inss_view(to_do@),
        }),
{
    match i {
        Instruction::Branch { condition, if_true, if_false } => {
            assert(ins_view(i)->if_true =~= inss_view(if_true@));
            assert(ins_view(i)->if_false =~= inss_view(if_false@));
        },
        Instruction::Loop { condition, to_do } => {
            assert(ins_view(i)->to_do =~= inss_view(to_do@));
        },
        _ => {},
    }
}

/// A function: its return and argument types, its instructions, and whether it is
/// only declared here (defined elsewhere).
#[derive(Debug)]
pub struct Function {
    pub return_type: Type,
    pub arguments: Vec<Type>,
    pub ins: Vec<Instruction>,
    pub external: bool,
}

/// The model of a function.
pub struct FunctionV {
    pub return_type: TyV,
    pub arguments: Seq<TyV>,
    pub ins: Seq<InsV>,
    pub external: bool,
}

impl View for Function {
    type V = FunctionV;

    open spec fn view(&self) -> FunctionV {
        FunctionV {
            return_type: self.return_type@,
            arguments: tys_view(self.arguments@),
            ins: inss_view(self.ins@),
            external: self.external,
        }
    }
}

/// The models of a list of functions.
pub open spec fn funcs_view(s: Seq<Function>) -> Seq<FunctionV> {
    Seq::new(s.len(), |i: int| s[i]@)
}

/// A scope: its variables by name, the scope around it, the instructions compiled in
/// it so far, and whether it is a function's outermost scope (lookups stop there).
#[derive(Debug)]
pub struct Scope {
    pub variables: Table<Var>,
    pub next: Option<Box<Scope>>,
    pub instructions: Vec<Instruction>,
    pub is_function_base: bool,
}

/// The compiler's state: named types, the innermost scope, the functions declared
/// under each name (in the order the names were first declared), and the printed
/// forms of the double literals, by their text in the source.
#[derive(Debug)]
pub struct Compiler {
    pub types: Table<Type>,
    pub current_scope: Box<Scope>,
    pub global_functions: Table<Vec<Function>>,
    pub doubles: Table<String>,
}

/// The model of the function table: each name with the models of its functions.
pub open spec fn fn_table_view(t: Seq<(Seq<char>, Vec<Function>)>) -> Seq<(Seq<char>, Seq<FunctionV>)> {
    Seq::new(t.len(), |i: int| (t[i].0, funcs_view(t[i].1@)))
}

/// The model of a scope.
pub struct ScopeV {
    pub vars: Map<Seq<char>, VarV>,
    pub next: Option<Box<ScopeV>>,
    pub ins: Seq<InsV>,
    pub base: bool,
}

pub open spec fn scope_view(s: Scope) -> ScopeV
    decreases s,
{
    ScopeV {
        vars: s.variables.map().map_values(|v: Var| v@),
        next: match s.next {
            Some(b) => Some(Box::new(scope_view(*b))),
            None => None,
        },
        ins: inss_view(s.instructions@),
        base: s.is_function_base,
    }
}

/// Every table of the chain of scopes has distinct keys.
pub open spec fn scope_wf(s: Scope) -> bool
    decreases s,
{
    &&& s.variables.wf()
    &&& match s.next {
        Some(b) => scope_wf(*b),
        None => true,
    }
}

/// The variable a name stands for: the innermost scope that has it gives it, and the
/// search stops at a function's outermost scope.
pub open spec fn lookup(s: ScopeV, name: Seq<char>) -> Option<VarV>
    decreases s,
{
    if s.vars.dom().contains(name) {
        Some(s.vars[name])
    } else if s.base {
        None
    } else {
        match s.next {
            Some(b) => lookup(*b, name),
            None => None,
        }
    }
}

/// The number of variables visible from the scope: its own and, unless it is a
/// function's outermost scope, those visible from the scope around it.
pub open spec fn scope_nv(s: ScopeV) -> nat
    decreases s,
{
    s.vars.dom().len() + if s.base {
        0
    } else {
        match s.next {
            Some(b) => scope_nv(*b),
            None => 0,
        }
    }
}

/// The scope after declaring `name` as the next local, of type `t`.
pub open spec fn scope_decl(s: ScopeV, name: Seq<char>, t: TyV) -> ScopeV {
    ScopeV { vars: s.vars.insert(name, VarV::Basic { idx: scope_nv(s) as usize, vtype: t, byte_offset: 0 }), ..s }
}

/// The name of a temporary: `tmp_x` and its number.
pub open spec fn tmp_name(id: nat) -> Seq<char> {
    "tmp_x"@ + crate::text::decimal(id)
}

impl View for Scope {
    type V = ScopeV;

    open spec fn view(&self) -> ScopeV {
        scope_view(*self)
    }
}

impl Scope {
    /// An empty scope that is not a function's outermost one.
    pub fn new() -> (r: Self)
        ensures
            scope_wf(r),
            r@ == (ScopeV { vars: Map::empty(), next: None, ins: seq![], base: false }),
    {
        let r = Scope { variables: Table::new(), next: None, instructions: Vec::new(), is_function_base: false };
        assert(r@.vars =~= Map::<Seq<char>, VarV>::empty());
        assert(r@.ins =~= seq![]);
        r
    }

    /// Whether `s` names a variable visible from this scope (see `lookup`).
    pub fn is_defined(&self, s: &str) -> (r: bool)
        ensures
            r == lookup(self@, s@) is Some,
        decreases self,
    {
        if self.variables.contains_key(s) {
            return true;
        }
        if self.is_function_base {
            return false;
        }
        match &self.next {
            Some(k) => k.is_defined(s),
            None => false,
        }
    }

    /// The variable `s` names (see `lookup`).
    pub fn get_var(&self, s: &str) -> (r: Option<Var>)
        requires
            scope_wf(*self),
        ensures
            match lookup(self@, s@) {
                Some(v) => r matches Some(x) && x@ == v,
                None => r is None,
            },
        decreases self,
    {
        match self.variables.get(s) {
            Some(v) => {
                return Some(copy_var(v));
            },
            None => {},
        }
        if self.is_function_base {
            return None;
        }
        match &self.next {
            Some(k) => k.get_var(s),
            None => None,
        }
    }

    /// The number of variables visible from this scope (see `scope_nv`).
    pub fn nv(&self) -> (r: usize)
        requires
            scope_wf(*self),
            scope_nv(self@) <= usize::MAX,
        ensures
            r == scope_nv(self@),
        decreases self,
    {
        let base = self.variables.len();
        assert(self@.vars.dom() =~= self.variables.map().dom());
        if self.is_function_base {
            base
        } else {
            match &self.next {
                Some(p) => base + p.nv(),
                None => base,
            }
        }
    }

    /// Declares `name` as the next local, of type `vtype`, and gives it.
    pub fn decl(&mut self, name: String, vtype: &Type) -> (r: Var)
        requires
            scope_wf(*old(self)),
            scope_nv(old(self)@) <= usize::MAX,
        ensures
            scope_wf(*final(self)),
            final(self)@ == scope_decl(old(self)@, name@, vtype@),
            r@ == (VarV::Basic { idx: scope_nv(old(self)@) as usize, vtype: vtype@, byte_offset: 0 }),
    {
        let id = self.nv();
        let v = Var::Basic { idx: id, vtype: copy_type(vtype), byte_offset: 0 };
        let ghost before = self.variables.map();
        self.variables.insert(name, copy_var(&v));
        assert(self@.vars =~= old(self)@.vars.insert(name@, v@));
        v
    }

    /// Declares a temporary (see `tmp_name`) of type `vtype` and gives it.
    pub fn decl_tmp(&mut self, vtype: &Type) -> (r: Var)
        requires
            scope_wf(*old(self)),
            scope_nv(old(self)@) <= usize::MAX,
        ensures
            scope_wf(*final(self)),
            final(self)@ == scope_decl(old(self)@, tmp_name(scope_nv(old(self)@)), vtype@),
            r@ == (VarV::Basic { idx: scope_nv(old(self)@) as usize, vtype: vtype@, byte_offset: 0 }),
    {
        let id = self.nv();
        let mut name = String::from_str("tmp_x");
        crate::text::push_decimal(&mut name, id as u64);
        self.decl(name, vtype)
    }
}

/// The model of the compiler's state.
pub struct CompV {
    pub types: Map<Seq<char>, TyV>,
    pub scope: ScopeV,
    pub fns: Seq<(Seq<char>, Seq<FunctionV>)>,
    pub doubles: Map<Seq<char>, Seq<char>>,
}

/// The state with a new, empty scope inside the current one.
pub open spec fn push_scope_v(c: CompV) -> CompV {
    CompV { scope: ScopeV { vars: Map::empty(), next: Some(Box::new(c.scope)), ins: seq![], base: false }, ..c }
}

/// The state with the current scope left: its instructions go after those of the
/// scope around it. Without a scope around it nothing changes.
pub open spec fn pop_scope_v(c: CompV) -> CompV {
    match c.scope.next {
        None => c,
        Some(p) => CompV { scope: ScopeV { ins: p.ins + c.scope.ins, ..*p }, ..c },
    }
}

/// The state with an instruction added to the current scope.
pub open spec fn push_ins(c: CompV, i: InsV) -> CompV {
    CompV { scope: ScopeV { ins: c.scope.ins.push(i), ..c.scope }, ..c }
}

/// The state with the current scope's instructions replaced.
pub open spec fn set_ins(c: CompV, s: Seq<InsV>) -> CompV {
    CompV { scope: ScopeV { ins: s, ..c.scope }, ..c }
}

/// Two functions have the same signature: the same argument types, at least one.
pub open spec fn same_sig(a: FunctionV, b: FunctionV) -> bool {
    a.arguments.len() > 0 && a.arguments == b.arguments
}

/// The first of the functions from `k` on with the signature of `f` (-1 if none).
pub open spec fn first_same(fs: Seq<FunctionV>, f: FunctionV, k: int) -> int
    decreases fs.len() - k,
{
    if k < 0 || k >= fs.len() {
        -1
    } else if same_sig(fs[k], f) {
        k
    } else {
        first_same(fs, f, k + 1)
    }
}

/// The functions declared under `name`.
pub open spec fn fns_of(fns: Seq<(Seq<char>, Seq<FunctionV>)>, name: Seq<char>) -> Seq<FunctionV> {
    let i = crate::table::key_index(fns, name, 0);
    if i >= 0 {
        fns[i].1
    } else {
        seq![]
    }
}

/// The function table after declaring `f` under `name`: it replaces the first external
/// function with its signature, or goes after the others; `None` when a function with
/// its signature is already defined.
pub open spec fn declare_fn(fns: Seq<(Seq<char>, Seq<FunctionV>)>, name: Seq<char>, f: FunctionV) -> Option<
    Seq<(Seq<char>, Seq<FunctionV>)>,
> {
    let fs = fns_of(fns, name);
    let j = first_same(fs, f, 0);
    if j >= 0 {
        if fs[j].external {
            Some(crate::table::seq_insert(fns, name, fs.update(j, f)))
        } else {
            None
        }
    } else {
        Some(crate::table::seq_insert(fns, name, fs.push(f)))
    }
}

impl View for Compiler {
    type V = CompV;

    open spec fn view(&self) -> CompV {
        CompV {
            types: self.types.map().map_values(|t: Type| t@),
            scope: scope_view(*self.current_scope),
            fns: fn_table_view(self.global_functions.seq()),
            doubles: self.doubles.map().map_values(|s: String| s@),
        }
    }
}

proof fn lemma_key_index_view(s: Seq<(Seq<char>, Vec<Function>)>, k: Seq<char>, i: int)
    ensures
        crate::table::key_index(fn_table_view(s), k, i) == crate::table::key_index(s, k, i),
    decreases s.len() - i,
{
    if 0 <= i < s.len() {
        lemma_key_index_view(s, k, i + 1);
    }
}

/// Whether two functions have the same signature (see `same_sig`).
fn same_signature(a: &Function, b: &Function) -> (r: bool)
    ensures
        r == same_sig(a@, b@),
{
    if a.arguments.len() != b.arguments.len() || a.arguments.len() == 0 {
        assert(a@.arguments.len() != b@.arguments.len() || a@.arguments.len() == 0);
        return false;
    }
    let mut j: usize = 0;
    while j < a.arguments.len()
        invariant
            j <= a.arguments@.len(),
            a.arguments@.len() == b.arguments@.len(),
            forall|m: int| 0 <= m < j ==> ty_view(#[trigger] a.arguments@[m]) == ty_view(b.arguments@[m]),
        decreases a.arguments@.len() - j,
    {
        if !same_type(&a.arguments[j], &b.arguments[j]) {
            assert(a@.arguments[j as int] != b@.arguments[j as int]);
            return false;
        }
        j += 1;
    }
    assert(a@.arguments =~= b@.arguments);
    true
}

impl Compiler {
    /// The compiler's tables have distinct keys, and so does each scope's.
    pub open spec fn wf(&self) -> bool {
        &&& self.types.wf()
        &&& scope_wf(*self.current_scope)
        &&& self.global_functions.wf()
        &&& self.doubles.wf()
    }

    /// Declares `func` under `name` (see `declare_fn`).
    pub fn declare_function(&mut self, name: String, func: Function)
        requires
            old(self).wf(),
            declare_fn(old(self)@.fns, name@, func@) is Some,
        ensures
            final(self).wf(),
            final(self)@ == (CompV { fns: declare_fn(old(self)@.fns, name@, func@)->Some_0, ..old(self)@ }),
    {
        let ghost fv = func@;
        let ghost t0 = old(self).global_functions.seq();
        let ghost was_in = old(self).global_functions.map().dom().contains(name@);
        proof {
            lemma_key_index_view(t0, name@, 0);
            crate::table::lemma_entries_map_dom(t0, name@);
            if !was_in {
                assert forall|m: int| 0 <= m < t0.len() implies #[trigger] t0[m].0 != name@ by {}
                crate::table::lemma_key_index_none(t0, name@, 0);
            }
        }
        let e: Vec<Function> = Vec::new();
        let ghost ge = e;
        if !self.global_functions.contains_key(name.as_str()) {
            self.global_functions.insert(name.clone(), e);
        }
        let ghost t1 = self.global_functions.seq();
        proof {
            if !was_in {
                assert(t1 == t0.push((name@, ge)));
                assert(ge@ == Seq::<Function>::empty());
            }
        }
        let i = match self.global_functions.position(name.as_str()) {
            Some(i) => i,
            None => {
                proof {
                    crate::table::lemma_entries_map_dom(t1, name@);
                    if !was_in {
                        assert(t1[t0.len() as int].0 == name@);
                    }
                }
                return;
            },
        };
        proof {
            crate::table::lemma_key_index_distinct(t1, name@, i as int);
            if was_in {
                assert(t1 == t0);
            } else {
                assert(i == t0.len()) by {
                    if i < t0.len() {
                        assert(t0[i as int].0 == name@);
                    }
                }
            }
        }
        let mut ps = self.global_functions.swap_value(i, Vec::new());
        let ghost fs = funcs_view(ps@);
        assert(fs == fns_of(old(self)@.fns, name@));
        let mut j: usize = 0;
        let mut found = false;
        while j < ps.len()
            invariant_except_break
                j <= ps@.len(),
                fs == funcs_view(ps@),
                fv == func@,
                !found,
                first_same(fs, fv, 0) == first_same(fs, fv, j as int),
            ensures
                found ==> j < ps@.len() && first_same(fs, fv, 0) == j,
                !found ==> first_same(fs, fv, 0) == -1,
                fs == funcs_view(ps@),
            decreases ps@.len() - j,
        {
            assert(fs[j as int] == ps@[j as int]@);
            if same_signature(&ps[j], &func) {
                assert(first_same(fs, fv, j as int) == j);
                found = true;
                break;
            }
            assert(first_same(fs, fv, j as int) == first_same(fs, fv, j + 1));
            j += 1;
        }
        if found {
            ps.set(j, func);
        } else {
            ps.push(func);
        }
        self.global_functions.swap_value(i, ps);
        proof {
            let t = self.global_functions.seq();
            let newfs = if found {
                fs.update(j as int, fv)
            } else {
                fs.push(fv)
            };
            assert(funcs_view(ps@) =~= newfs);
            assert(t == t1.update(i as int, (name@, ps)));
            assert(fn_table_view(t) =~= crate::table::seq_insert(old(self)@.fns, name@, newfs));
            assert(self@.types =~= old(self)@.types);
            assert(self@.doubles =~= old(self)@.doubles);
        }
    }
}

/// A character that UTF-8 writes in one byte.
pub open spec fn one_byte(c: char) -> bool {
    (c as u32) < 128
}

/// The type a type name stands for: `*` and one more character before a type is a
/// box of it, `[]` before a type a list of it, then `int`, `real`, `String`, `byte`,
/// `void` and the named types. The outer `None` is for a name whose first byte, or
/// whose first two bytes, cannot be cut off (a name of one character among them); the
/// inner `None` for a name that stands for no type.
pub open spec fn type_of_name(types: Map<Seq<char>, TyV>, s: Seq<char>) -> Option<Option<TyV>>
    decreases s.len(),
{
    if s.len() == 0 || !one_byte(s[0]) {
        None
    } else if s[0] == '*' {
        if s.len() < 2 || !one_byte(s[1]) {
            None
        } else {
            match type_of_name(types, s.skip(2)) {
                None => None,
                Some(None) => Some(None),
                Some(Some(t)) => Some(Some(TyV::Boxed(Box::new(t)))),
            }
        }
    } else if s.len() < 2 || !one_byte(s[1]) {
        None
    } else if s[0] == '[' && s[1] == ']' {
        match type_of_name(types, s.skip(2)) {
            None => None,
            Some(None) => Some(None),
            Some(Some(t)) => Some(Some(TyV::List(Box::new(t)))),
        }
    } else if s == "int"@ {
        Some(Some(TyV::Integer))
    } else if s == "real"@ {
        Some(Some(TyV::Double))
    } else if s == "String"@ {
        Some(Some(TyV::String))
    } else if s == "byte"@ {
        Some(Some(TyV::Char))
    } else if s == "void"@ {
        Some(Some(TyV::Void))
    } else if types.dom().contains(s) {
        Some(Some(types[s]))
    } else {
        Some(None)
    }
}

/// The characters of `v` from `k` on, as a string.
fn chars_from(v: &Vec<char>, k: usize) -> (r: String)
    requires
        k <= v@.len(),
    ensures
        r@ == v@.skip(k as int),
{
    let mut out = String::new();
    let mut i: usize = k;
    while i < v.len()
        invariant
            k <= i <= v@.len(),
            out@ == v@.subrange(k as int, i as int),
        decreases v@.len() - i,
    {
        crate::text::push_char(&mut out, v[i]);
        i += 1;
        assert(out@ =~= v@.subrange(k as int, i as int));
    }
    assert(v@.subrange(k as int, i as int) =~= v@.skip(k as int));
    out
}

impl Compiler {
    /// Enters a new, empty scope (see `push_scope_v`).
    pub fn push_scope(&mut self)
        requires
            old(self).wf(),
        ensures
            final(self).wf(),
            final(self)@ == push_scope_v(old(self)@),
    {
        let mut b = Box::new(Scope::new());
        std::mem::swap(&mut self.current_scope, &mut b);
        self.current_scope.next = Some(b);
        assert(self@.scope =~= push_scope_v(old(self)@).scope);
    }

    /// Leaves the current scope (see `pop_scope_v`).
    pub fn pop_scope(&mut self)
        requires
            old(self).wf(),
        ensures
            final(self).wf(),
            final(self)@ == pop_scope_v(old(self)@),
    {
        if self.current_scope.next.is_none() {
            return;
        }
        let ghost s0 = *self.current_scope;
        let mut p = match self.current_scope.next.take() {
            Some(p) => p,
            None => {
                return;
            },
        };
        assert(s0.next == Some(p));
        assert(scope_wf(*p));
        let ghost p0 = *p;
        let ghost pins = p.instructions@;
        let ghost cins = self.current_scope.instructions@;
        assert(pop_scope_v(old(self)@).scope == (ScopeV { ins: scope_view(p0).ins + inss_view(cins), ..scope_view(p0) }));
        assert(cins == s0.instructions@);
        p.instructions.append(&mut self.current_scope.instructions);
        assert(p.variables == p0.variables);
        assert(p.next == p0.next);
        self.current_scope = p;
        assert(inss_view(pins + cins) =~= inss_view(pins) + inss_view(cins));
        let ghost want = pop_scope_v(old(self)@).scope;
        assert(self@.scope.ins == want.ins);
        assert(self@.scope.vars == want.vars);
        assert(self@.scope.next == want.next);
        assert(self@.scope.base == want.base);
    }

    /// The type that `s` names (see `type_of_name`).
    pub fn parse_type(&self, s: &str) -> (r: Option<Type>)
        requires
            self.wf(),
            type_of_name(self@.types, s@) is Some,
        ensures
            match type_of_name(self@.types, s@)->Some_0 {
                Some(t) => r matches Some(x) && x@ == t,
                None => r is None,
            },
        decreases s@.len(),
    {
        let v = crate::text::to_chars(s);
        if v[0] == '*' {
            let rest = chars_from(&v, 2);
            match self.parse_type(rest.as_str()) {
                Some(t) => Some(Type::Box { vtype: Box::new(t) }),
                None => None,
            }
        } else if v[0] == '[' && v[1] == ']' {
            let rest = chars_from(&v, 2);
            match self.parse_type(rest.as_str()) {
                Some(t) => Some(Type::List { vtype: Box::new(t) }),
                None => None,
            }
        } else if crate::text::str_equal(s, "int") {
            Some(Type::Integer)
        } else if crate::text::str_equal(s, "real") {
            Some(Type::Double)
        } else if crate::text::str_equal(s, "String") {
            Some(Type::String)
        } else if crate::text::str_equal(s, "byte") {
            Some(Type::Char)
        } else if crate::text::str_equal(s, "void") {
            Some(Type::Void)
        } else {
            match self.types.get(s) {
                Some(t) => {
                    assert(self@.types.dom().contains(s@));
                    Some(copy_type(t))
                },
                None => {
                    assert(!self@.types.dom().contains(s@));
                    None
                },
            }
        }
    }

    /// Whether `s` names a type (see `type_of_name`).
    pub fn is_valid_type(&self, s: &str) -> (r: bool)
        requires
            self.wf(),
            type_of_name(self@.types, s@) is Some,
        ensures
            r == type_of_name(self@.types, s@)->Some_0 is Some,
    {
        self.parse_type(s).is_some()
    }
}

/// A function declared here and defined elsewhere.
pub open spec fn ext_fn(ret: TyV, args: Seq<TyV>) -> FunctionV {
    FunctionV { return_type: ret, arguments: args, ins: seq![], external: true }
}

/// The functions every compilation starts with: printing, integer arithmetic and
/// comparison, and conversion of integers and doubles to strings.
pub open spec fn builtin_fns() -> Seq<(Seq<char>, Seq<FunctionV>)> {
    let ii = seq![TyV::Integer, TyV::Integer];
    seq![
        ("print"@, seq![ext_fn(TyV::Integer, seq![TyV::String])]),
        ("println"@, seq![ext_fn(TyV::Integer, seq![TyV::String])]),
        ("+"@, seq![ext_fn(TyV::Integer, ii)]),
        ("-"@, seq![ext_fn(TyV::Integer, ii)]),
        ("*"@, seq![ext_fn(TyV::Integer, ii)]),
        ("/"@, seq![ext_fn(TyV::Integer, ii)]),
        ("=="@, seq![ext_fn(TyV::Bool, ii)]),
        (">="@, seq![ext_fn(TyV::Bool, ii)]),
        ("<="@, seq![ext_fn(TyV::Bool, ii)]),
        ("to_string"@, seq![ext_fn(TyV::String, seq![TyV::Integer]), ext_fn(TyV::String, seq![TyV::Double])]),
    ]
}

/// The state of a new compiler: no named types, one empty scope, the built-in
/// functions, and the printed forms of double literals given.
pub open spec fn initial_state(doubles: Map<Seq<char>, Seq<char>>) -> CompV {
    CompV {
        types: Map::empty(),
        scope: ScopeV { vars: Map::empty(), next: None, ins: seq![], base: false },
        fns: builtin_fns(),
        doubles,
    }
}

fn ext(ret: Type, args: Vec<Type>) -> (r: Function)
    ensures
        r@ == ext_fn(ret@, tys_view(args@)),
{
    let r = Function { return_type: ret, arguments: args, ins: Vec::new(), external: true };
    assert(r@.ins =~= seq![]);
    r
}

fn one_fn(f: Function) -> (r: Vec<Function>)
    ensures
        funcs_view(r@) == seq![f@],
        r@.len() == 1,
{
    let mut v = Vec::new();
    v.push(f);
    assert(funcs_view(v@) =~= seq![f@]);
    v
}

fn int_pair() -> (r: Vec<Type>)
    ensures
        tys_view(r@) == seq![TyV::Integer, TyV::Integer],
{
    let mut v = Vec::new();
    v.push(Type::Integer);
    v.push(Type::Integer);
    assert(tys_view(v@) =~= seq![TyV::Integer, TyV::Integer]);
    v
}

fn one_type(t: Type) -> (r: Vec<Type>)
    ensures
        tys_view(r@) == seq![t@],
{
    let mut v = Vec::new();
    v.push(t);
    assert(tys_view(v@) =~= seq![t@]);
    v
}

/// Adds the functions `fs` under a name not in the table yet.
fn put(g: &mut Table<Vec<Function>>, name: &str, fs: Vec<Function>)
    requires
        old(g).wf(),
        !old(g).map().dom().contains(name@),
    ensures
        final(g).wf(),
        fn_table_view(final(g).seq()) == fn_table_view(old(g).seq()).push((name@, funcs_view(fs@))),
        final(g).map().dom() == old(g).map().dom().insert(name@),
{
    let ghost gf = fs;
    g.insert(String::from_str(name), fs);
    assert(fn_table_view(g.seq()) =~= fn_table_view(old(g).seq()).push((name@, funcs_view(gf@))));
}

impl Compiler {
    /// A compiler with the built-in functions (see `initial_state`); `doubles` gives the
    /// printed form of each double literal by its text.
    #[verifier::spinoff_prover]
    pub fn new(doubles: Table<String>) -> (r: Self)
        requires
            doubles.wf(),
        ensures
            r.wf(),
            r@ == initial_state(doubles.map().map_values(|s: String| s@)),
    {
        proof {
            reveal_strlit("print");
            reveal_strlit("println");
            reveal_strlit("+");
            reveal_strlit("-");
            reveal_strlit("*");
            reveal_strlit("/");
            reveal_strlit("==");
            reveal_strlit(">=");
            reveal_strlit("<=");
            reveal_strlit("to_string");
        }
        assert("print"@.len() == 5 && "println"@.len() == 7 && "to_string"@.len() == 9);
        assert("+"@.len() == 1 && "-"@.len() == 1 && "*"@.len() == 1 && "/"@.len() == 1);
        assert("+"@[0] == '+' && "-"@[0] == '-' && "*"@[0] == '*' && "/"@[0] == '/');
        assert("=="@.len() == 2 && ">="@.len() == 2 && "<="@.len() == 2);
        assert("=="@[0] == '=' && ">="@[0] == '>' && "<="@[0] == '<');
        let ghost b = builtin_fns();
        let mut g: Table<Vec<Function>> = Table::new();
        put(&mut g, "print", one_fn(ext(Type::Integer, one_type(Type::String))));
        assert(fn_table_view(g.seq()) =~= b.take(1));
        put(&mut g, "println", one_fn(ext(Type::Integer, one_type(Type::String))));
        assert(fn_table_view(g.seq()) =~= b.take(2));
        put(&mut g, "+", one_fn(ext(Type::Integer, int_pair())));
        assert(fn_table_view(g.seq()) =~= b.take(3));
        put(&mut g, "-", one_fn(ext(Type::Integer, int_pair())));
        assert(fn_table_view(g.seq()) =~= b.take(4));
        put(&mut g, "*", one_fn(ext(Type::Integer, int_pair())));
        assert(fn_table_view(g.seq()) =~= b.take(5));
        put(&mut g, "/", one_fn(ext(Type::Integer, int_pair())));
        assert(fn_table_view(g.seq()) =~= b.take(6));
        put(&mut g, "==", one_fn(ext(Type::Bool, int_pair())));
        assert(fn_table_view(g.seq()) =~= b.take(7));
        put(&mut g, ">=", one_fn(ext(Type::Bool, int_pair())));
        assert(fn_table_view(g.seq()) =~= b.take(8));
        put(&mut g, "<=", one_fn(ext(Type::Bool, int_pair())));
        assert(fn_table_view(g.seq()) =~= b.take(9));
        let mut ts = one_fn(ext(Type::String, one_type(Type::Integer)));
        let ghost t0 = ts@;
        let f2 = ext(Type::String, one_type(Type::Double));
        let ghost v2 = f2@;
        ts.push(f2);
        assert(funcs_view(t0)[0] == t0[0]@);
        assert(ts@[0] == t0[0]);
        assert(funcs_view(ts@) =~= seq![funcs_view(t0)[0], v2]);
        assert(funcs_view(ts@) =~= b[9].1);
        put(&mut g, "to_string", ts);
        assert(fn_table_view(g.seq()) =~= b);
        let r = Compiler { types: Table::new(), current_scope: Box::new(Scope::new()), global_functions: g, doubles };
        assert(r@.types =~= Map::<Seq<char>, TyV>::empty());
        r
    }
}

/// The outcome of compiling: the compiler panics, or ends in a state with the
/// variable that holds the value, if any.
pub enum Run {
    Stuck,
    Done(CompV, Option<VarV>),
}

/// The outcome of compiling several nodes in turn: a panic, a node that gave no
/// variable (with the state then), or the variables of all of them.
pub enum Many {
    Stuck,
    Short(CompV),
    All(CompV, Seq<VarV>),
}

/// The variable an atom gives: a string literal (the text with its quotes), an
/// integer that `i64::from_str` reads, a double that `f64::from_str` reads (its printed
/// form from the state's table, else its text), or the variable the name stands for.
pub open spec fn atom_var(c: CompV, s: Seq<char>) -> Option<VarV> {
    if s.len() > 0 && s[0] == '"' {
        Some(VarV::StringLiteral(s))
    } else if crate::number::i64_text(s) is Some {
        Some(VarV::IntegerLiteral(crate::number::i64_text(s)->Some_0))
    } else if crate::number::float_text(s) {
        Some(
            VarV::DoubleLiteral(
                if c.doubles.dom().contains(s) {
                    c.doubles[s]
                } else {
                    s
                },
            ),
        )
    } else {
        lookup(c.scope, s)
    }
}

/// Checks argument types against the variables from `j` on: `Some(true)` at the
/// first that differs, `None` where a variable has no type.
pub open spec fn sig_check(ts: Seq<TyV>, args: Seq<VarV>, j: nat) -> Option<bool>
    decreases ts.len() - j,
{
    if j >= ts.len() || j >= args.len() {
        Some(false)
    } else {
        match var_type(args[j as int]) {
            None => None,
            Some(t) => if ts[j as int] != t {
                Some(true)
            } else {
                sig_check(ts, args, j + 1)
            },
        }
    }
}

/// The return and argument types of each function.
pub open spec fn sig_list(fs: Seq<FunctionV>) -> Seq<(TyV, Seq<TyV>)> {
    Seq::new(fs.len(), |i: int| (fs[i].return_type, fs[i].arguments))
}

/// The position of the function a call picks among the signatures from `i` on: with
/// no arguments, the first taking none; else the last whose argument types are those
/// of the arguments (`acc` is the one picked so far, -1 for none). `None` where a type
/// check panics.
pub open spec fn pick_fn(sigs: Seq<(TyV, Seq<TyV>)>, args: Seq<VarV>, i: nat, acc: int) -> Option<int>
    decreases sigs.len() - i,
{
    if i >= sigs.len() {
        Some(acc)
    } else if sigs[i as int].1.len() == args.len() {
        if args.len() == 0 {
            Some(i as int)
        } else {
            match sig_check(sigs[i as int].1, args, 0) {
                None => None,
                Some(true) => pick_fn(sigs, args, i + 1, acc),
                Some(false) => pick_fn(sigs, args, i + 1, i as int),
            }
        }
    } else {
        pick_fn(sigs, args, i + 1, acc)
    }
}

/// The state after declaring `name` as the next local of type `t` (see `scope_decl`).
pub open spec fn decl_v(c: CompV, name: Seq<char>, t: TyV) -> CompV {
    CompV { scope: scope_decl(c.scope, name, t), ..c }
}

/// The next local, of type `t`.
pub open spec fn next_local(c: CompV, t: TyV) -> VarV {
    VarV::Basic { idx: scope_nv(c.scope) as usize, vtype: t, byte_offset: 0 }
}

/// The parameters of a function from pair `i` on (name, then type name): each is
/// declared in turn. A name or type that is not an atom, or a name without a type,
/// panics; a type name that stands for no type ends it with `Short`.
pub open spec fn defun_args(c: CompV, al: Seq<NodeView>, i: nat, acc: Seq<VarV>) -> Many
    decreases al.len() - i,
{
    if i >= al.len() {
        Many::All(c, acc)
    } else {
        match al[i as int] {
            NodeView::List(_) => Many::Stuck,
            NodeView::Value(name) => if i + 1 >= al.len() {
                Many::Stuck
            } else {
                match al[i + 1 as int] {
                    NodeView::List(_) => Many::Stuck,
                    NodeView::Value(tn) => match type_of_name(c.types, tn) {
                        None => Many::Stuck,
                        Some(None) => Many::Short(c),
                        Some(Some(t)) => if scope_nv(c.scope) > usize::MAX {
                            Many::Stuck
                        } else {
                            defun_args(decl_v(c, name, t), al, i + 2, acc.push(next_local(c, t)))
                        },
                    },
                }
            },
        }
    }
}

/// The argument types of an external function from pair `i` on; `None` where the
/// compiler panics (a part that is not an atom, a name without a type, a type name
/// that stands for no type).
pub open spec fn extern_args(types: Map<Seq<char>, TyV>, al: Seq<NodeView>, i: nat, acc: Seq<TyV>) -> Option<
    Seq<TyV>,
>
    decreases al.len() - i,
{
    if i >= al.len() {
        Some(acc)
    } else if !(al[i as int] is Value) || i + 1 >= al.len() {
        None
    } else {
        match al[i + 1 as int] {
            NodeView::List(_) => None,
            NodeView::Value(tn) => match type_of_name(types, tn) {
                Some(Some(t)) => extern_args(types, al, i + 2, acc.push(t)),
                _ => None,
            },
        }
    }
}

/// The types of variables that all have one.
pub open spec fn types_of_vars(vs: Seq<VarV>) -> Seq<TyV> {
    Seq::new(vs.len(), |i: int| var_type(vs[i])->Some_0)
}

/// Compiling a node: a list is compiled as a form (see `comp_list`), an atom gives its
/// variable (see `atom_var`).
pub open spec fn comp_node(c: CompV, n: NodeView) -> Run
    decreases n, 0nat,
{
    match n {
        NodeView::List(items) => comp_list(c, items),
        NodeView::Value(s) => Run::Done(c, atom_var(c, s)),
    }
}

/// Compiling the nodes from `k` on in turn, stopping at the first that gives no
/// variable.
pub open spec fn comp_each(c: CompV, items: Seq<NodeView>, k: nat, acc: Seq<VarV>) -> Many
    decreases items, if k <= items.len() { items.len() - k } else { 0 },
{
    if k >= items.len() {
        Many::All(c, acc)
    } else {
        match comp_node(c, items[k as int]) {
            Run::Stuck => Many::Stuck,
            Run::Done(c1, None) => Many::Short(c1),
            Run::Done(c1, Some(v)) => comp_each(c1, items, k + 1, acc.push(v)),
        }
    }
}

/// Compiling the nodes from `k` on in turn, keeping the variables that they give.
pub open spec fn comp_somes(c: CompV, items: Seq<NodeView>, k: nat, acc: Seq<VarV>) -> Many
    decreases items, items.len() - k,
{
    if k >= items.len() {
        Many::All(c, acc)
    } else {
        match comp_node(c, items[k as int]) {
            Run::Stuck => Many::Stuck,
            Run::Done(c1, None) => comp_somes(c1, items, k + 1, acc),
            Run::Done(c1, Some(v)) => comp_somes(c1, items, k + 1, acc.push(v)),
        }
    }
}

/// `(= l r)`: an assignment, giving `l`.
pub open spec fn form_assign(c: CompV, items: Seq<NodeView>) -> Run
    decreases items, items.len() + 1,
{
    if items.len() < 2 {
        Run::Stuck
    } else {
        match comp_node(c, items[1]) {
            Run::Stuck => Run::Stuck,
            Run::Done(c1, None) => Run::Done(c1, None),
            Run::Done(c1, Some(l)) => if items.len() < 3 {
                Run::Stuck
            } else {
                match comp_node(c1, items[2]) {
                    Run::Stuck => Run::Stuck,
                    Run::Done(c2, None) => Run::Done(c2, None),
                    Run::Done(c2, Some(r)) => Run::Done(
                        push_ins(c2, InsV::Assignment { left: l, right: r }),
                        Some(l),
                    ),
                }
            },
        }
    }
}

/// `(f args...)` for a declared function `f`: the arguments are compiled, a function
/// is picked (see `pick_fn`; the functions are those declared before the arguments
/// were compiled), and a temporary of its return type receives the call's result.
pub open spec fn form_call(c: CompV, items: Seq<NodeView>, s: Seq<char>) -> Run
    decreases items, items.len() + 1,
{
    let sigs = sig_list(fns_of(c.fns, s));
    match comp_each(c, items, 1, seq![]) {
        Many::Stuck => Run::Stuck,
        Many::Short(c1) => Run::Done(c1, None),
        Many::All(c1, args) => match pick_fn(sigs, args, 0, -1) {
            Some(j) => if j < 0 || scope_nv(c1.scope) > usize::MAX {
                Run::Stuck
            } else {
                let rt = sigs[j].0;
                let outv = next_local(c1, rt);
                let c2 = decl_v(c1, tmp_name(scope_nv(c1.scope)), rt);
                let c3 = push_ins(c2, InsV::Declare(outv));
                Run::Done(
                    push_ins(
                        c3,
                        InsV::FunctionCall { to_call: CallV::Function(s), arguments: args, output: Some(outv) },
                    ),
                    Some(outv),
                )
            },
            None => Run::Stuck,
        },
    }
}

/// `(branch cond then else)`: the condition, then each body compiled in a scope of its
/// own, whose instructions go into the branch.
pub open spec fn form_branch(c: CompV, items: Seq<NodeView>) -> Run
    decreases items, items.len() + 1,
{
    if items.len() < 2 {
        Run::Stuck
    } else {
        match comp_node(c, items[1]) {
            Run::Stuck => Run::Stuck,
            Run::Done(c1, None) => Run::Done(c1, None),
            Run::Done(c1, Some(cond)) => if items.len() < 3 {
                Run::Stuck
            } else {
                match comp_node(push_scope_v(c1), items[2]) {
                    Run::Stuck => Run::Stuck,
                    Run::Done(c3, _) => {
                        let t = c3.scope.ins;
                        let c4 = pop_scope_v(set_ins(c3, seq![]));
                        if items.len() < 4 {
                            Run::Stuck
                        } else {
                            match comp_node(push_scope_v(c4), items[3]) {
                                Run::Stuck => Run::Stuck,
                                Run::Done(c6, _) => {
                                    let f = c6.scope.ins;
                                    let c7 = pop_scope_v(set_ins(c6, seq![]));
                                    Run::Done(
                                        push_ins(c7, InsV::Branch { condition: cond, if_true: t, if_false: f }),
                                        None,
                                    )
                                },
                            }
                        }
                    },
                }
            },
        }
    }
}

/// `(loop cond body)`: the condition (which must give a variable), then the body in a
/// scope of its own. Leaving that scope puts the body's instructions after the outer
/// ones, and then the outer scope's instructions are dropped: the loop is left alone.
pub open spec fn form_loop(c: CompV, items: Seq<NodeView>) -> Run
    decreases items, items.len() + 1,
{
    if items.len() < 2 {
        Run::Stuck
    } else {
        match comp_node(c, items[1]) {
            Run::Stuck => Run::Stuck,
            Run::Done(_, None) => Run::Stuck,
            Run::Done(c1, Some(cond)) => if items.len() < 3 {
                Run::Stuck
            } else {
                match comp_node(push_scope_v(c1), items[2]) {
                    Run::Stuck => Run::Stuck,
                    Run::Done(c3, _) => {
                        let body = c3.scope.ins;
                        let c4 = set_ins(pop_scope_v(c3), seq![]);
                        Run::Done(push_ins(c4, InsV::Loop { condition: cond, to_do: body }), None)
                    },
                }
            },
        }
    }
}

/// The state in a function's new outermost scope.
pub open spec fn push_fn_scope(c: CompV) -> CompV {
    CompV { scope: ScopeV { base: true, ..push_scope_v(c).scope }, ..c }
}

/// `(defun name ret (params...) body)`: the return type (an integer when `ret` is a
/// list), the parameters declared in a function scope, the body compiled there; the
/// function is declared with the body's instructions and the scope is left. A `None`
/// on the way leaves the function scope entered.
pub open spec fn form_defun(c: CompV, items: Seq<NodeView>) -> Run
    decreases items, items.len() + 1,
{
    if items.len() < 3 || !(items[1] is Value) {
        Run::Stuck
    } else {
        let name = items[1]->Value_0;
        let ret_o: Option<Option<TyV>> = match items[2] {
            NodeView::Value(r) => type_of_name(c.types, r),
            NodeView::List(_) => Some(Some(TyV::Integer)),
        };
        match ret_o {
            None => Run::Stuck,
            Some(None) => Run::Done(c, None),
            Some(Some(ret)) => {
                let c1 = push_fn_scope(c);
                if items.len() < 4 {
                    Run::Stuck
                } else {
                    match items[3] {
                        NodeView::Value(_) => Run::Done(c1, None),
                        NodeView::List(al) => match defun_args(c1, al, 0, seq![]) {
                            Many::Stuck => Run::Stuck,
                            Many::Short(c2) => Run::Done(c2, None),
                            Many::All(c2, args) => if items.len() < 5 {
                                Run::Stuck
                            } else {
                                match comp_node(c2, items[4]) {
                                    Run::Stuck => Run::Stuck,
                                    Run::Done(c3, None) => Run::Done(c3, None),
                                    Run::Done(c3, Some(_)) => {
                                        let f = FunctionV {
                                            return_type: ret,
                                            arguments: types_of_vars(args),
                                            ins: c3.scope.ins,
                                            external: false,
                                        };
                                        let c4 = set_ins(c3, seq![]);
                                        match declare_fn(c4.fns, name, f) {
                                            None => Run::Stuck,
                                            Some(fns) => Run::Done(pop_scope_v(CompV { fns, ..c4 }), None),
                                        }
                                    },
                                }
                            },
                        },
                    }
                }
            },
        }
    }
}

/// `(let name type)`: a local declared, giving it.
pub open spec fn form_let(c: CompV, items: Seq<NodeView>) -> Run {
    if items.len() < 3 || !(items[1] is Value) || !(items[2] is Value) {
        Run::Stuck
    } else {
        match type_of_name(c.types, items[2]->Value_0) {
            Some(Some(t)) => if scope_nv(c.scope) > usize::MAX {
                Run::Stuck
            } else {
                let v = next_local(c, t);
                Run::Done(push_ins(decl_v(c, items[1]->Value_0, t), InsV::Declare(v)), Some(v))
            },
            _ => Run::Stuck,
        }
    }
}

/// `(extern name ret (params...))`: an external function declared.
pub open spec fn form_extern(c: CompV, items: Seq<NodeView>) -> Run {
    if items.len() < 3 || !(items[1] is Value) || !(items[2] is Value) {
        Run::Stuck
    } else {
        match type_of_name(c.types, items[2]->Value_0) {
            Some(Some(rt)) => if items.len() < 4 || !(items[3] is List) {
                Run::Stuck
            } else {
                match extern_args(c.types, items[3]->List_0, 0, seq![]) {
                    None => Run::Stuck,
                    Some(ts) => match declare_fn(
                        c.fns,
                        items[1]->Value_0,
                        FunctionV { return_type: rt, arguments: ts, ins: seq![], external: true },
                    ) {
                        None => Run::Stuck,
                        Some(fns) => Run::Done(CompV { fns, ..c }, None),
                    },
                }
            },
            _ => Run::Stuck,
        }
    }
}

/// `(return value)`: a return of the value's variable, if it gives one.
pub open spec fn form_return(c: CompV, items: Seq<NodeView>) -> Run
    decreases items, items.len() + 1,
{
    if items.len() < 2 {
        Run::Stuck
    } else {
        match comp_node(c, items[1]) {
            Run::Stuck => Run::Stuck,
            Run::Done(c1, v) => Run::Done(push_ins(c1, InsV::Return(v)), None),
        }
    }
}

/// A form headed by the atom `s`: a list literal when `_s` names a variable, else
/// assignment, a call of a declared function, `branch`, `loop`, `defun`, `let`,
/// `extern`, `return`, `import`; any other head panics.
pub open spec fn comp_form(c: CompV, items: Seq<NodeView>, s: Seq<char>) -> Run
    decreases items, items.len() + 2,
{
    if lookup(c.scope, "_"@ + s) is Some {
        match comp_each(c, items, 0, seq![]) {
            Many::Stuck => Run::Stuck,
            Many::Short(c1) => Run::Done(c1, None),
            Many::All(c1, vs) => Run::Done(c1, Some(VarV::ListLiteral(vs))),
        }
    } else if s == "="@ {
        form_assign(c, items)
    } else if crate::table::key_index(c.fns, s, 0) >= 0 {
        form_call(c, items, s)
    } else if s == "branch"@ {
        form_branch(c, items)
    } else if s == "loop"@ {
        form_loop(c, items)
    } else if s == "defun"@ {
        form_defun(c, items)
    } else if s == "let"@ {
        form_let(c, items)
    } else if s == "extern"@ {
        form_extern(c, items)
    } else if s == "return"@ {
        form_return(c, items)
    } else if s == "import"@ {
        if items.len() < 2 || !(items[1] is Value) {
            Run::Stuck
        } else {
            Run::Done(c, None)
        }
    } else {
        Run::Stuck
    }
}

/// Compiling a list: nothing for an empty one; a list headed by a list gives the list
/// literal of what its items give; a list headed by an atom is a form.
pub open spec fn comp_list(c: CompV, items: Seq<NodeView>) -> Run
    decreases items, items.len() + 3,
{
    if items.len() == 0 {
        Run::Done(c, None)
    } else {
        match items[0] {
            NodeView::List(_) => match comp_somes(c, items, 0, seq![]) {
                Many::All(c1, vs) => Run::Done(c1, Some(VarV::ListLiteral(vs))),
                _ => Run::Stuck,
            },
            NodeView::Value(s) => comp_form(c, items, s),
        }
    }
}

impl Compiler {
    /// Adds an instruction to the current scope.
    fn add_ins(&mut self, i: Instruction)
        requires
            old(self).wf(),
        ensures
            final(self).wf(),
            final(self)@ == push_ins(old(self)@, i@),
    {
        let ghost iv = i@;
        let ghost s0 = *self.current_scope;
        self.current_scope.instructions.push(i);
        assert(inss_view(self.current_scope.instructions@) =~= inss_view(s0.instructions@).push(iv));
        assert(self.current_scope.variables == s0.variables);
        assert(self.current_scope.next == s0.next);
        let ghost want = push_ins(old(self)@, iv).scope;
        assert(self@.scope.ins == want.ins);
        assert(self@.scope.vars == want.vars);
        assert(self@.scope.next == want.next);
    }

    /// Takes the current scope's instructions, leaving it none.
    fn take_ins(&mut self) -> (r: Vec<Instruction>)
        requires
            old(self).wf(),
        ensures
            final(self).wf(),
            inss_view(r@) == old(self)@.scope.ins,
            final(self)@ == set_ins(old(self)@, seq![]),
    {
        let ghost s0 = *self.current_scope;
        let mut v: Vec<Instruction> = Vec::new();
        std::mem::swap(&mut v, &mut self.current_scope.instructions);
        assert(self.current_scope.variables == s0.variables);
        assert(self.current_scope.next == s0.next);
        let ghost want = set_ins(old(self)@, seq![]).scope;
        assert(self@.scope.ins =~= want.ins);
        assert(self@.scope.vars == want.vars);
        assert(self@.scope.next == want.next);
        v
    }

    /// Declares `name` as the next local of the current scope.
    fn declare_local(&mut self, name: String, t: &Type) -> (r: Var)
        requires
            old(self).wf(),
            scope_nv(old(self)@.scope) <= usize::MAX,
        ensures
            final(self).wf(),
            final(self)@ == decl_v(old(self)@, name@, t@),
            r@ == next_local(old(self)@, t@),
    {
        self.current_scope.decl(name, t)
    }

    /// Declares the next temporary of the current scope.
    fn declare_tmp(&mut self, t: &Type) -> (r: Var)
        requires
            old(self).wf(),
            scope_nv(old(self)@.scope) <= usize::MAX,
        ensures
            final(self).wf(),
            final(self)@ == decl_v(old(self)@, tmp_name(scope_nv(old(self)@.scope)), t@),
            r@ == next_local(old(self)@, t@),
    {
        self.current_scope.decl_tmp(t)
    }

    /// Makes the current scope a function's outermost one.
    fn mark_function_base(&mut self)
        requires
            old(self).wf(),
        ensures
            final(self).wf(),
            final(self)@ == (CompV { scope: ScopeV { base: true, ..old(self)@.scope }, ..old(self)@ }),
    {
        let ghost s0 = *self.current_scope;
        self.current_scope.is_function_base = true;
        assert(self.current_scope.variables == s0.variables);
        assert(self.current_scope.next == s0.next);
        assert(self.current_scope.instructions == s0.instructions);
    }

    /// The return and argument types of the functions declared under `name`.
    fn signatures(&self, name: &str) -> (r: Vec<(Type, Vec<Type>)>)
        requires
            self.wf(),
        ensures
            r@.len() == sig_list(fns_of(self@.fns, name@)).len(),
            forall|i: int|
                0 <= i < r@.len() ==> (#[trigger] r@[i]).0@ == sig_list(fns_of(self@.fns, name@))[i].0
                    && tys_view(r@[i].1@) == sig_list(fns_of(self@.fns, name@))[i].1,
    {
        let ghost t = self.global_functions.seq();
        proof {
            lemma_key_index_view(t, name@, 0);
            crate::table::lemma_entries_map_dom(t, name@);
        }
        let mut out: Vec<(Type, Vec<Type>)> = Vec::new();
        match self.global_functions.position(name) {
            None => {
                proof {
                    assert forall|m: int| 0 <= m < t.len() implies #[trigger] t[m].0 != name@ by {}
                    crate::table::lemma_key_index_none(t, name@, 0);
                }
                out
            },
            Some(i) => {
                proof {
                    crate::table::lemma_key_index_distinct(t, name@, i as int);
                }
                let (_, fs) = self.global_functions.entry(i);
                let ghost sl = sig_list(fns_of(self@.fns, name@));
                assert(sl == sig_list(funcs_view(fs@)));
                let mut k: usize = 0;
                while k < fs.len()
                    invariant
                        k <= fs@.len(),
                        sl == sig_list(funcs_view(fs@)),
                        out@.len() == k,
                        forall|m: int|
                            0 <= m < k ==> (#[trigger] out@[m]).0@ == sl[m].0 && tys_view(out@[m].1@) == sl[m].1,
                    decreases fs@.len() - k,
                {
                    let rt = copy_type(&fs[k].return_type);
                    let mut args: Vec<Type> = Vec::new();
                    let mut a: usize = 0;
                    while a < fs[k].arguments.len()
                        invariant
                            k < fs@.len(),
                            a <= fs@[k as int].arguments@.len(),
                            args@.len() == a,
                            forall|m: int| 0 <= m < a ==> ty_view(#[trigger] args@[m]) == ty_view(fs@[k as int].arguments@[m]),
                        decreases fs@[k as int].arguments@.len() - a,
                    {
                        args.push(copy_type(&fs[k].arguments[a]));
                        a += 1;
                    }
                    assert(tys_view(args@) =~= sl[k as int].1);
                    out.push((rt, args));
                    k += 1;
                }
                out
            },
        }
    }
}

proof fn lemma_pick_range(sigs: Seq<(TyV, Seq<TyV>)>, args: Seq<VarV>, i: nat, acc: int)
    requires
        -1 <= acc < sigs.len(),
        pick_fn(sigs, args, i, acc) is Some,
    ensures
        -1 <= pick_fn(sigs, args, i, acc)->Some_0 < sigs.len(),
    decreases sigs.len() - i,
{
    if i < sigs.len() {
        if sigs[i as int].1.len() == args.len() && args.len() != 0 {
            match sig_check(sigs[i as int].1, args, 0) {
                Some(true) => lemma_pick_range(sigs, args, i + 1, acc),
                Some(false) => lemma_pick_range(sigs, args, i + 1, i as int),
                None => {},
            }
        } else if sigs[i as int].1.len() != args.len() {
            lemma_pick_range(sigs, args, i + 1, acc);
        }
    }
}

/// Checks the argument types of one signature against the variables (see `sig_check`).
fn check_signature(ts: &Vec<Type>, args: &Vec<Var>) -> (r: bool)
    requires
        sig_check(tys_view(ts@), vars_view(args@), 0) is Some,
    ensures
        r == sig_check(tys_view(ts@), vars_view(args@), 0)->Some_0,
{
    let ghost tv = tys_view(ts@);
    let ghost av = vars_view(args@);
    let mut j: usize = 0;
    while j < ts.len() && j < args.len()
        invariant
            j <= ts@.len(),
            tv == tys_view(ts@),
            av == vars_view(args@),
            sig_check(tv, av, 0) == sig_check(tv, av, j as nat),
            sig_check(tv, av, 0) is Some,
        decreases ts@.len() - j,
    {
        assert(av[j as int] == args@[j as int]@);
        match type_of(&args[j]) {
            Some(t) => {
                if !same_type(&ts[j], &t) {
                    return true;
                }
            },
            None => {
                return false;
            },
        }
        j += 1;
    }
    false
}

/// The position of the function a call picks (see `pick_fn`).
fn pick(sigs: &Vec<(Type, Vec<Type>)>, sl: Ghost<Seq<(TyV, Seq<TyV>)>>, args: &Vec<Var>) -> (r: Option<usize>)
    requires
        sl@.len() == sigs@.len(),
        forall|i: int| 0 <= i < sigs@.len() ==> tys_view((#[trigger] sigs@[i]).1@) == sl@[i].1,
        pick_fn(sl@, vars_view(args@), 0, -1) is Some,
    ensures
        match r {
            Some(j) => pick_fn(sl@, vars_view(args@), 0, -1) == Some(j as int) && j < sigs@.len(),
            None => pick_fn(sl@, vars_view(args@), 0, -1) == Some(-1int),
        },
{
    proof {
        lemma_pick_range(sl@, vars_view(args@), 0, -1);
    }
    let ghost av = vars_view(args@);
    let mut acc: Option<usize> = None;
    let mut i: usize = 0;
    while i < sigs.len()
        invariant
            i <= sigs@.len(),
            sl@.len() == sigs@.len(),
            forall|m: int| 0 <= m < sigs@.len() ==> tys_view((#[trigger] sigs@[m]).1@) == sl@[m].1,
            av == vars_view(args@),
            pick_fn(sl@, av, 0, -1) == pick_fn(sl@, av, i as nat, match acc { Some(a) => a as int, None => -1 }),
            pick_fn(sl@, av, 0, -1) is Some,
            match acc { Some(a) => a < sigs@.len(), None => true },
        decreases sigs@.len() - i,
    {
        let ts = &sigs[i].1;
        assert(tys_view(ts@) == sl@[i as int].1);
        if ts.len() == args.len() {
            if args.len() == 0 {
                return Some(i);
            }
            if !check_signature(ts, args) {
                acc = Some(i);
            }
        }
        i += 1;
    }
    acc
}

impl Compiler {
    /// Compiles a node (see `comp_node`).
    pub fn compile(&mut self, node: Node) -> (r: Option<Var>)
        requires
            old(self).wf(),
            !(comp_node(old(self)@, node@) is Stuck),
        ensures
            final(self).wf(),
            comp_node(old(self)@, node@) == Run::Done(final(self)@, opt_view(r)),
        decreases node@, 0nat,
    {
        match node {
            Node::List { s } => {
                proof {
                    crate::rust_lisp::lisp::lemma_list_view(s);
                }
                self.compile_list(s)
            },
            Node::Value { s } => {
                let v = crate::text::to_chars(s.as_str());
                if v.len() > 0 && v[0] == '"' {
                    return Some(Var::StringLiteral { v: s });
                }
                match crate::number::parse_i64(s.as_str()) {
                    Some(i) => {
                        return Some(Var::IntegerLiteral { v: i });
                    },
                    None => {},
                }
                if crate::number::is_float_text(s.as_str()) {
                    let shown = match self.doubles.get(s.as_str()) {
                        Some(d) => d.clone(),
                        None => s,
                    };
                    return Some(Var::DoubleLiteral { v: shown });
                }
                self.current_scope.get_var(s.as_str())
            },
        }
    }

    /// Compiles the nodes from `k0` on in turn, stopping at the first that gives no
    /// variable (see `comp_each`).
    fn compile_each(&mut self, ls: &Vec<Node>, k0: usize) -> (r: Option<Vec<Var>>)
        requires
            old(self).wf(),
            !(comp_each(old(self)@, nodes_view(ls@), k0 as nat, seq![]) is Stuck),
        ensures
            final(self).wf(),
            match comp_each(old(self)@, nodes_view(ls@), k0 as nat, seq![]) {
                Many::All(c, vs) => r matches Some(v) && final(self)@ == c && vars_view(v@) == vs,
                Many::Short(c) => r is None && final(self)@ == c,
                Many::Stuck => false,
            },
        decreases nodes_view(ls@), if k0 <= ls@.len() { ls@.len() - k0 } else { 0 },
    {
        let ghost items = nodes_view(ls@);
        let ghost c0 = self@;
        let mut acc: Vec<Var> = Vec::new();
        let mut k: usize = k0;
        assert(vars_view(acc@) =~= seq![]);
        if k0 > ls.len() {
            return Some(acc);
        }
        while k < ls.len()
            invariant
                k0 <= k <= ls@.len(),
                items == nodes_view(ls@),
                self.wf(),
                c0 == old(self)@,
                comp_each(c0, items, k0 as nat, seq![]) == comp_each(self@, items, k as nat, vars_view(acc@)),
                !(comp_each(c0, items, k0 as nat, seq![]) is Stuck),
            decreases ls@.len() - k,
        {
            let n = ls[k].clone();
            assert(n@ == items[k as int]);
            proof {
                assert(decreases_to!(items => items[k as int]));
            }
            match self.compile(n) {
                Some(v) => {
                    let ghost vv = v@;
                    let ghost a0 = acc@;
                    acc.push(v);
                    assert(vars_view(acc@) =~= vars_view(a0).push(vv));
                },
                None => {
                    return None;
                },
            }
            k += 1;
        }
        Some(acc)
    }

    /// Compiles every node in turn, keeping the variables they give (see `comp_somes`).
    fn compile_somes(&mut self, ls: &Vec<Node>) -> (r: Vec<Var>)
        requires
            old(self).wf(),
            !(comp_somes(old(self)@, nodes_view(ls@), 0, seq![]) is Stuck),
        ensures
            final(self).wf(),
            match comp_somes(old(self)@, nodes_view(ls@), 0, seq![]) {
                Many::All(c, vs) => final(self)@ == c && vars_view(r@) == vs,
                _ => false,
            },
        decreases nodes_view(ls@), ls@.len(),
    {
        let ghost items = nodes_view(ls@);
        let ghost c0 = self@;
        let mut acc: Vec<Var> = Vec::new();
        let mut k: usize = 0;
        assert(vars_view(acc@) =~= seq![]);
        while k < ls.len()
            invariant
                k <= ls@.len(),
                items == nodes_view(ls@),
                self.wf(),
                comp_somes(c0, items, 0, seq![]) == comp_somes(self@, items, k as nat, vars_view(acc@)),
                !(comp_somes(c0, items, 0, seq![]) is Stuck),
            decreases ls@.len() - k,
        {
            let n = ls[k].clone();
            assert(n@ == items[k as int]);
            proof {
                assert(decreases_to!(items => items[k as int]));
            }
            match self.compile(n) {
                Some(v) => {
                    let ghost vv = v@;
                    let ghost a0 = acc@;
                    acc.push(v);
                    assert(vars_view(acc@) =~= vars_view(a0).push(vv));
                },
                None => {},
            }
            k += 1;
        }
        acc
    }

    /// Compiles a list (see `comp_list`).
    pub fn compile_list(&mut self, ls: Vec<Node>) -> (r: Option<Var>)
        requires
            old(self).wf(),
            !(comp_list(old(self)@, nodes_view(ls@)) is Stuck),
        ensures
            final(self).wf(),
            comp_list(old(self)@, nodes_view(ls@)) == Run::Done(final(self)@, opt_view(r)),
        decreases nodes_view(ls@), ls@.len() + 3,
    {
        if ls.len() == 0 {
            return None;
        }
        let ghost items = nodes_view(ls@);
        assert(items[0] == ls@[0]@);
        match &ls[0] {
            Node::List { .. } => {
                let list = self.compile_somes(&ls);
                proof {
                    lemma_list_literal_view(list);
                }
                Some(Var::ListLiteral { list })
            },
            Node::Value { s } => {
                let head = s.clone();
                self.compile_form(&ls, head.as_str())
            },
        }
    }
}

/// Leaving a scope and dropping the instructions is the same whether the scope's own
/// instructions were dropped first or not.
proof fn lemma_pop_cleared(c: CompV)
    ensures
        set_ins(pop_scope_v(set_ins(c, seq![])), seq![]) == set_ins(pop_scope_v(c), seq![]),
{
    match c.scope.next {
        Some(p) => {
            assert(set_ins(pop_scope_v(set_ins(c, seq![])), seq![]).scope == set_ins(pop_scope_v(c), seq![]).scope);
        },
        None => {
            assert(set_ins(pop_scope_v(set_ins(c, seq![])), seq![]).scope == set_ins(pop_scope_v(c), seq![]).scope);
        },
    }
}

impl Compiler {
    /// Compiles a form headed by the atom `head` (see `comp_form`).
    fn compile_form(&mut self, ls: &Vec<Node>, head: &str) -> (r: Option<Var>)
        requires
            old(self).wf(),
            !(comp_form(old(self)@, nodes_view(ls@), head@) is Stuck),
        ensures
            final(self).wf(),
            comp_form(old(self)@, nodes_view(ls@), head@) == Run::Done(final(self)@, opt_view(r)),
        decreases nodes_view(ls@), ls@.len() + 2,
    {
        let mut u = String::from_str("_");
        crate::text::push_str(&mut u, head);
        proof {
            reveal_strlit("_");
        }
        assert(u@ == "_"@ + head@);
        if self.current_scope.is_defined(u.as_str()) {
            match self.compile_each(ls, 0) {
                Some(list) => {
                    proof {
                        lemma_list_literal_view(list);
                    }
                    return Some(Var::ListLiteral { list });
                },
                None => {
                    return None;
                },
            }
        }
        if crate::text::str_equal(head, "=") {
            return self.form_assign(ls);
        }
        if self.global_functions.contains_key(head) {
            proof {
                let t = self.global_functions.seq();
                lemma_key_index_view(t, head@, 0);
                crate::table::lemma_entries_map_dom(t, head@);
                let i = choose|i: int| 0 <= i < t.len() && #[trigger] t[i].0 == head@;
                crate::table::lemma_key_index_distinct(t, head@, i);
            }
            return self.form_call(ls, head);
        }
        proof {
            let t = self.global_functions.seq();
            lemma_key_index_view(t, head@, 0);
            crate::table::lemma_entries_map_dom(t, head@);
            assert forall|m: int| 0 <= m < t.len() implies #[trigger] t[m].0 != head@ by {}
            crate::table::lemma_key_index_none(t, head@, 0);
        }
        if crate::text::str_equal(head, "branch") {
            self.form_branch(ls)
        } else if crate::text::str_equal(head, "loop") {
            self.form_loop(ls)
        } else if crate::text::str_equal(head, "defun") {
            self.form_defun(ls)
        } else if crate::text::str_equal(head, "let") {
            self.form_let(ls)
        } else if crate::text::str_equal(head, "extern") {
            self.form_extern(ls)
        } else if crate::text::str_equal(head, "return") {
            self.form_return(ls)
        } else {
            None
        }
    }

    /// `(= l r)` (see `form_assign`).
    fn form_assign(&mut self, ls: &Vec<Node>) -> (r: Option<Var>)
        requires
            old(self).wf(),
            !(form_assign(old(self)@, nodes_view(ls@)) is Stuck),
        ensures
            final(self).wf(),
            form_assign(old(self)@, nodes_view(ls@)) == Run::Done(final(self)@, opt_view(r)),
        decreases nodes_view(ls@), ls@.len() + 1,
    {
        let ghost items = nodes_view(ls@);
        assert(items[1] == ls@[1]@);
        proof {
            assert(decreases_to!(items => items[1]));
        }
        let l = match self.compile(ls[1].clone()) {
            Some(l) => l,
            None => {
                return None;
            },
        };
        assert(items[2] == ls@[2]@);
        proof {
            assert(decreases_to!(items => items[2]));
        }
        let r = match self.compile(ls[2].clone()) {
            Some(r) => r,
            None => {
                return None;
            },
        };
        self.add_ins(Instruction::Assignment { left: copy_var(&l), right: r });
        Some(l)
    }

    /// `(f args...)` (see `form_call`).
    fn form_call(&mut self, ls: &Vec<Node>, head: &str) -> (r: Option<Var>)
        requires
            old(self).wf(),
            !(form_call(old(self)@, nodes_view(ls@), head@) is Stuck),
        ensures
            final(self).wf(),
            form_call(old(self)@, nodes_view(ls@), head@) == Run::Done(final(self)@, opt_view(r)),
        decreases nodes_view(ls@), ls@.len() + 1,
    {
        let ghost sl = sig_list(fns_of(self@.fns, head@));
        let sigs = self.signatures(head);
        let args = match self.compile_each(ls, 1) {
            Some(a) => a,
            None => {
                return None;
            },
        };
        let j = match pick(&sigs, Ghost(sl), &args) {
            Some(j) => j,
            None => {
                return None;
            },
        };
        let ghost c1 = self@;
        let ghost argsv = vars_view(args@);
        assert(comp_each(old(self)@, nodes_view(ls@), 1, seq![]) == Many::All(c1, argsv));
        let rt = copy_type(&sigs[j].0);
        assert(rt@ == sl[j as int].0);
        let outv = self.declare_tmp(&rt);
        self.add_ins(Instruction::Declare { to_declare: copy_var(&outv) });
        let callee = String::from_str(head);
        assert(callee@ == head@);
        let call = Instruction::FunctionCall {
            to_call: Callable::Function { v: callee },
            arguments: args,
            output: Some(copy_var(&outv)),
        };
        assert(call@ == (InsV::FunctionCall { to_call: CallV::Function(head@), arguments: argsv, output: Some(outv@) }));
        self.add_ins(call);
        Some(outv)
    }

    /// Compiles a node in a scope of its own and gives the instructions it compiled
    /// there, leaving the scope.
    fn compile_in_scope(&mut self, n: Node) -> (r: Vec<Instruction>)
        requires
            old(self).wf(),
            !(comp_node(push_scope_v(old(self)@), n@) is Stuck),
        ensures
            final(self).wf(),
            match comp_node(push_scope_v(old(self)@), n@) {
                Run::Done(c3, _) => inss_view(r@) == c3.scope.ins && final(self)@ == pop_scope_v(set_ins(c3, seq![])),
                Run::Stuck => false,
            },
        decreases n@, 1nat,
    {
        self.push_scope();
        let _ = self.compile(n);
        let ins = self.take_ins();
        self.pop_scope();
        ins
    }

    /// `(branch cond then else)` (see `form_branch`).
    fn form_branch(&mut self, ls: &Vec<Node>) -> (r: Option<Var>)
        requires
            old(self).wf(),
            !(form_branch(old(self)@, nodes_view(ls@)) is Stuck),
        ensures
            final(self).wf(),
            form_branch(old(self)@, nodes_view(ls@)) == Run::Done(final(self)@, opt_view(r)),
        decreases nodes_view(ls@), ls@.len() + 1,
    {
        let ghost items = nodes_view(ls@);
        assert(items[1] == ls@[1]@);
        proof {
            assert(decreases_to!(items => items[1]));
        }
        let cond = match self.compile(ls[1].clone()) {
            Some(c) => c,
            None => {
                return None;
            },
        };
        assert(items[2] == ls@[2]@);
        proof {
            assert(decreases_to!(items => items[2]));
        }
        let ins = self.compile_in_scope(ls[2].clone());
        assert(items[3] == ls@[3]@);
        proof {
            assert(decreases_to!(items => items[3]));
        }
        let else_ins = self.compile_in_scope(ls[3].clone());
        let p = Instruction::Branch { condition: cond, if_true: ins, if_false: else_ins };
        proof {
            lemma_body_views(p);
        }
        self.add_ins(p);
        None
    }

    /// `(loop cond body)` (see `form_loop`).
    fn form_loop(&mut self, ls: &Vec<Node>) -> (r: Option<Var>)
        requires
            old(self).wf(),
            !(form_loop(old(self)@, nodes_view(ls@)) is Stuck),
        ensures
            final(self).wf(),
            form_loop(old(self)@, nodes_view(ls@)) == Run::Done(final(self)@, opt_view(r)),
        decreases nodes_view(ls@), ls@.len() + 1,
    {
        let ghost items = nodes_view(ls@);
        assert(items[1] == ls@[1]@);
        proof {
            assert(decreases_to!(items => items[1]));
        }
        let cond = match self.compile(ls[1].clone()) {
            Some(c) => c,
            None => {
                return None;
            },
        };
        self.push_scope();
        assert(items[2] == ls@[2]@);
        proof {
            assert(decreases_to!(items => items[2]));
        }
        let _ = self.compile(ls[2].clone());
        proof {
            lemma_pop_cleared(self@);
        }
        let body = self.take_ins();
        self.pop_scope();
        let _ = self.take_ins();
        let p = Instruction::Loop { condition: cond, to_do: body };
        proof {
            lemma_body_views(p);
        }
        self.add_ins(p);
        None
    }
}

impl Compiler {
    /// `(defun name ret (params...) body)` (see `form_defun`).
    fn form_defun(&mut self, ls: &Vec<Node>) -> (r: Option<Var>)
        requires
            old(self).wf(),
            !(form_defun(old(self)@, nodes_view(ls@)) is Stuck),
        ensures
            final(self).wf(),
            form_defun(old(self)@, nodes_view(ls@)) == Run::Done(final(self)@, opt_view(r)),
        decreases nodes_view(ls@), ls@.len() + 1,
    {
        let ghost items = nodes_view(ls@);
        assert(items[1] == ls@[1]@);
        assert(items[2] == ls@[2]@);
        let name = match ls[1].assume_value() {
            Some(n) => n,
            None => {
                return None;
            },
        };
        let ret = match ls[2].assume_value() {
            Some(rn) => match self.parse_type(rn.as_str()) {
                Some(t) => t,
                None => {
                    return None;
                },
            },
            None => Type::Integer,
        };
        self.push_scope();
        self.mark_function_base();
        assert(self@ == push_fn_scope(old(self)@));
        assert(items[3] == ls@[3]@);
        let arg_list = match ls[3].assume_list() {
            Some(a) => a,
            None => {
                return None;
            },
        };
        let ghost al = nodes_view(arg_list@);
        let ghost c1 = self@;
        assert(defun_args(c1, al, 0, seq![]) is Short ==> form_defun(old(self)@, items) == Run::Done(
            defun_args(c1, al, 0, seq![])->Short_0,
            None,
        ));
        let mut args: Vec<Var> = Vec::new();
        assert(vars_view(args@) =~= seq![]);
        let mut i: usize = 0;
        while i < arg_list.len()
            invariant
                i <= arg_list@.len(),
                al == nodes_view(arg_list@),
                self.wf(),
                defun_args(c1, al, 0, seq![]) == defun_args(self@, al, i as nat, vars_view(args@)),
                !(defun_args(c1, al, 0, seq![]) is Stuck),
                defun_args(c1, al, 0, seq![]) is Short ==> form_defun(old(self)@, nodes_view(ls@)) == Run::Done(
                    defun_args(c1, al, 0, seq![])->Short_0,
                    None,
                ),
                forall|m: int| 0 <= m < args@.len() ==> var_type((#[trigger] args@[m])@) is Some,
            decreases arg_list@.len() - i,
        {
            assert(al[i as int] == arg_list@[i as int]@);
            let s = match arg_list[i].assume_value() {
                Some(s) => s,
                None => {
                    return None;
                },
            };
            if i + 1 >= arg_list.len() {
                return None;
            }
            assert(al[i + 1] == arg_list@[i + 1]@);
            let t = match arg_list[i + 1].assume_value() {
                Some(t) => t,
                None => {
                    return None;
                },
            };
            let typ = match self.parse_type(t.as_str()) {
                Some(t) => t,
                None => {
                    return None;
                },
            };
            let v = self.declare_local(s, &typ);
            let ghost a0 = args@;
            let ghost vv = v@;
            args.push(v);
            assert(vars_view(args@) =~= vars_view(a0).push(vv));
            i += 2;
        }
        assert(items[4] == ls@[4]@);
        proof {
            assert(decreases_to!(items => items[4]));
        }
        match self.compile(ls[4].clone()) {
            Some(_) => {},
            None => {
                return None;
            },
        }
        let ins = self.take_ins();
        let mut types: Vec<Type> = Vec::new();
        let mut k: usize = 0;
        while k < args.len()
            invariant
                k <= args@.len(),
                types@.len() == k,
                forall|m: int| 0 <= m < args@.len() ==> var_type((#[trigger] args@[m])@) is Some,
                forall|m: int| 0 <= m < k ==> ty_view(#[trigger] types@[m]) == var_type(args@[m]@)->Some_0,
            decreases args@.len() - k,
        {
            types.push(args[k].get_type());
            k += 1;
        }
        assert(tys_view(types@) =~= types_of_vars(vars_view(args@)));
        let func = Function { return_type: ret, arguments: types, ins, external: false };
        self.declare_function(name, func);
        self.pop_scope();
        None
    }

    /// `(let name type)` (see `form_let`).
    fn form_let(&mut self, ls: &Vec<Node>) -> (r: Option<Var>)
        requires
            old(self).wf(),
            !(form_let(old(self)@, nodes_view(ls@)) is Stuck),
        ensures
            final(self).wf(),
            form_let(old(self)@, nodes_view(ls@)) == Run::Done(final(self)@, opt_view(r)),
    {
        let ghost items = nodes_view(ls@);
        assert(items[1] == ls@[1]@);
        assert(items[2] == ls@[2]@);
        let name = match ls[1].assume_value() {
            Some(n) => n,
            None => {
                return None;
            },
        };
        let tname = match ls[2].assume_value() {
            Some(n) => n,
            None => {
                return None;
            },
        };
        let t = match self.parse_type(tname.as_str()) {
            Some(t) => t,
            None => {
                return None;
            },
        };
        let v = self.declare_local(name, &t);
        self.add_ins(Instruction::Declare { to_declare: copy_var(&v) });
        Some(v)
    }

    /// `(extern name ret (params...))` (see `form_extern`).
    fn form_extern(&mut self, ls: &Vec<Node>) -> (r: Option<Var>)
        requires
            old(self).wf(),
            !(form_extern(old(self)@, nodes_view(ls@)) is Stuck),
        ensures
            final(self).wf(),
            form_extern(old(self)@, nodes_view(ls@)) == Run::Done(final(self)@, opt_view(r)),
    {
        let ghost items = nodes_view(ls@);
        assert(items[1] == ls@[1]@);
        assert(items[2] == ls@[2]@);
        assert(items[3] == ls@[3]@);
        let name = match ls[1].assume_value() {
            Some(n) => n,
            None => {
                return None;
            },
        };
        let return_type_name = match ls[2].assume_value() {
            Some(n) => n,
            None => {
                return None;
            },
        };
        let return_type = match self.parse_type(return_type_name.as_str()) {
            Some(t) => t,
            None => {
                return None;
            },
        };
        let arg_list = match ls[3].assume_list() {
            Some(a) => a,
            None => {
                return None;
            },
        };
        let ghost al = nodes_view(arg_list@);
        let ghost tys = self@.types;
        let mut args: Vec<Type> = Vec::new();
        assert(tys_view(args@) =~= seq![]);
        let mut i: usize = 0;
        while i < arg_list.len()
            invariant
                i <= arg_list@.len(),
                al == nodes_view(arg_list@),
                self.wf(),
                tys == self@.types,
                extern_args(tys, al, 0, seq![]) == extern_args(tys, al, i as nat, tys_view(args@)),
                extern_args(tys, al, 0, seq![]) is Some,
            decreases arg_list@.len() - i,
        {
            assert(al[i as int] == arg_list@[i as int]@);
            match arg_list[i].assume_value() {
                Some(_) => {},
                None => {
                    return None;
                },
            }
            if i + 1 >= arg_list.len() {
                return None;
            }
            assert(al[i + 1] == arg_list@[i + 1]@);
            let t = match arg_list[i + 1].assume_value() {
                Some(t) => t,
                None => {
                    return None;
                },
            };
            let typ = match self.parse_type(t.as_str()) {
                Some(t) => t,
                None => {
                    return None;
                },
            };
            let ghost a0 = args@;
            let ghost tv = typ@;
            args.push(typ);
            assert(tys_view(args@) =~= tys_view(a0).push(tv));
            i += 2;
        }
        let func = Function { return_type, arguments: args, ins: Vec::new(), external: true };
        assert(func@.ins =~= seq![]);
        self.declare_function(name, func);
        None
    }

    /// `(return value)` (see `form_return`).
    fn form_return(&mut self, ls: &Vec<Node>) -> (r: Option<Var>)
        requires
            old(self).wf(),
            !(form_return(old(self)@, nodes_view(ls@)) is Stuck),
        ensures
            final(self).wf(),
            form_return(old(self)@, nodes_view(ls@)) == Run::Done(final(self)@, opt_view(r)),
        decreases nodes_view(ls@), ls@.len() + 1,
    {
        let ghost items = nodes_view(ls@);
        assert(items[1] == ls@[1]@);
        proof {
            assert(decreases_to!(items => items[1]));
        }
        let var = self.compile(ls[1].clone());
        self.add_ins(Instruction::Return { to_return: var });
        None
    }
}

/// Compiling the nodes from `k` on in turn, whatever each gives; `None` where the
/// compiler panics.
pub open spec fn comp_program(c: CompV, nodes: Seq<NodeView>, k: nat) -> Option<CompV>
    decreases nodes.len() - k,
{
    if k >= nodes.len() {
        Some(c)
    } else {
        match comp_node(c, nodes[k as int]) {
            Run::Stuck => None,
            Run::Done(c1, _) => comp_program(c1, nodes, k + 1),
        }
    }
}

/// Compiles a program: a new compiler (see `Compiler::new`) compiles each node in turn.
pub fn compile(nodes: Vec<Node>, doubles: Table<String>) -> (r: Option<Compiler>)
    requires
        doubles.wf(),
        comp_program(initial_state(doubles.map().map_values(|s: String| s@)), nodes_view(nodes@), 0) is Some,
    ensures
        r matches Some(c) && c.wf() && c@ == comp_program(
            initial_state(doubles.map().map_values(|s: String| s@)),
            nodes_view(nodes@),
            0,
        )->Some_0,
{
    let ghost items = nodes_view(nodes@);
    let ghost c0 = initial_state(doubles.map().map_values(|s: String| s@));
    let mut c = Compiler::new(doubles);
    let mut k: usize = 0;
    while k < nodes.len()
        invariant
            k <= nodes@.len(),
            items == nodes_view(nodes@),
            c.wf(),
            comp_program(c0, items, 0) == comp_program(c@, items, k as nat),
            comp_program(c0, items, 0) is Some,
        decreases nodes@.len() - k,
    {
        let n = nodes[k].clone();
        assert(n@ == items[k as int]);
        let _ = c.compile(n);
        k += 1;
    }
    Some(c)
}

/// The atoms of a node that are double literals, in order: not string literals, not
/// integers, and read by `f64::from_str`.
pub open spec fn node_doubles(n: NodeView) -> Seq<Seq<char>>
    decreases n,
{
    match n {
        NodeView::Value(s) => if !(s.len() > 0 && s[0] == '"') && crate::number::i64_text(s) is None
            && crate::number::float_text(s) {
            seq![s]
        } else {
            seq![]
        },
        NodeView::List(items) => items_doubles(items, items.len()),
    }
}

/// The double literals of the first `k` nodes, in order.
pub open spec fn items_doubles(items: Seq<NodeView>, k: nat) -> Seq<Seq<char>>
    decreases items, k,
{
    if k == 0 || k > items.len() {
        seq![]
    } else {
        items_doubles(items, (k - 1) as nat) + node_doubles(items[k - 1])
    }
}

/// Appends the double literals of a node (see `node_doubles`).
fn push_doubles(out: &mut Vec<String>, n: &Node)
    ensures
        final(out)@.map_values(|s: String| s@) == old(out)@.map_values(|s: String| s@) + node_doubles(n@),
    decreases n,
{
    match n {
        Node::Value { s } => {
            let v = crate::text::to_chars(s.as_str());
            let quoted = v.len() > 0 && v[0] == '"';
            if !quoted && crate::number::parse_i64(s.as_str()).is_none() && crate::number::is_float_text(
                s.as_str(),
            ) {
                let ghost before = out@;
                out.push(s.clone());
                assert(out@.map_values(|t: String| t@) =~= before.map_values(|t: String| t@) + seq![s@]);
            } else {
                assert(out@.map_values(|t: String| t@) =~= old(out)@.map_values(|t: String| t@) + node_doubles(n@));
            }
        },
        Node::List { s } => {
            proof {
                crate::rust_lisp::lisp::lemma_list_view(*s);
            }
            let ghost items = nodes_view(s@);
            let mut k: usize = 0;
            assert(old(out)@.map_values(|t: String| t@) + items_doubles(items, 0) =~= old(out)@.map_values(
                |t: String| t@,
            ));
            while k < s.len()
                invariant
                    k <= s@.len(),
                    items == nodes_view(s@),
                    n@ == NodeView::List(items),
                    *n == (Node::List { s: *s }),
                    out@.map_values(|t: String| t@) == old(out)@.map_values(|t: String| t@) + items_doubles(
                        items,
                        k as nat,
                    ),
                decreases s@.len() - k,
            {
                assert(items[k as int] == s@[k as int]@);
                proof {
                    assert(decreases_to!(n => s));
                    assert(decreases_to!(s => s@));
                    assert(decreases_to!(s@ => s@[k as int]));
                }
                push_doubles(out, &s[k]);
                k += 1;
                assert(out@.map_values(|t: String| t@) =~= old(out)@.map_values(|t: String| t@) + items_doubles(
                    items,
                    k as nat,
                ));
            }
        },
    }
}

/// The double literals of a program, in order (see `node_doubles`): the caller gives
/// the compiler the printed form of each.
pub fn double_texts(nodes: &Vec<Node>) -> (r: Vec<String>)
    ensures
        r@.map_values(|s: String| s@) == items_doubles(nodes_view(nodes@), nodes@.len() as nat),
{
    let ghost items = nodes_view(nodes@);
    let mut out: Vec<String> = Vec::new();
    let mut k: usize = 0;
    assert(out@.map_values(|t: String| t@) =~= items_doubles(items, 0));
    while k < nodes.len()
        invariant
            k <= nodes@.len(),
            items == nodes_view(nodes@),
            out@.map_values(|t: String| t@) == items_doubles(items, k as nat),
        decreases nodes@.len() - k,
    {
        assert(items[k as int] == nodes@[k as int]@);
        push_doubles(&mut out, &nodes[k]);
        k += 1;
        assert(out@.map_values(|t: String| t@) =~= items_doubles(items, k as nat));
    }
    out
}

/// The variables of the atoms `items[k..]`, in order.
pub open spec fn atom_vars(c: CompV, items: Seq<NodeView>, k: nat) -> Seq<VarV>
    decreases items.len() - k,
{
    if k >= items.len() {
        seq![]
    } else {
        seq![atom_var(c, items[k as int]->Value_0)->Some_0] + atom_vars(c, items, k + 1)
    }
}

/// Arguments that are all atoms standing for variables are compiled, without changing
/// the state, into their variables in the order they are written.
pub proof fn law_atom_args_in_order(c: CompV, items: Seq<NodeView>, k: nat, acc: Seq<VarV>)
    requires
        forall|j: int| k <= j < items.len() ==> (#[trigger] items[j]) is Value && atom_var(c, items[j]->Value_0) is Some,
    ensures
        comp_each(c, items, k, acc) == Many::All(c, acc + atom_vars(c, items, k)),
    decreases items.len() - k,
{
    if k < items.len() {
        let v = atom_var(c, items[k as int]->Value_0)->Some_0;
        assert(comp_node(c, items[k as int]) == Run::Done(c, Some(v)));
        assert(comp_each(c, items, k, acc) == comp_each(c, items, k + 1, acc.push(v)));
        law_atom_args_in_order(c, items, k + 1, acc.push(atom_var(c, items[k as int]->Value_0)->Some_0));
        assert(acc.push(atom_var(c, items[k as int]->Value_0)->Some_0) + atom_vars(c, items, k + 1) =~= acc
            + atom_vars(c, items, k));
    } else {
        assert(acc + atom_vars(c, items, k) =~= acc);
    }
}

/// A call of `s` whose arguments are all atoms standing for variables ends with the
/// call instruction, which passes those variables in the order they are written.
pub proof fn law_call_passes_args_in_order(c: CompV, items: Seq<NodeView>, s: Seq<char>)
    requires
        items.len() >= 1,
        forall|j: int| 1 <= j < items.len() ==> (#[trigger] items[j]) is Value && atom_var(c, items[j]->Value_0) is Some,
    ensures
        form_call(c, items, s) matches Run::Done(c3, _) ==> c3.scope.ins.last() matches InsV::FunctionCall {
            to_call,
            arguments,
            ..
        } && to_call == CallV::Function(s) && arguments == atom_vars(c, items, 1),
{
    law_atom_args_in_order(c, items, 1, seq![]);
    assert(seq![] + atom_vars(c, items, 1) =~= atom_vars(c, items, 1));
}

} // verus!
