//! The bug compiler: statements become a flat list of intermediate operations with
//! numbered labels, and each function's operations are type-checked on a stack of
//! operand types.
use crate::bug::bug::{
    copy_ty, fn_view, lemma_stmt_lists, stmt_view, stmts_view, ty_eq, ty_v, BTy, Context, FnV, Function,
    Statement, StmtV, Type,
};
use crate::bug::parser::{blank_opr, copy_token, opr_view, oprs_view, OpType, Opr, OprV};
use crate::text::{debug_pretty, push_str, str_equal};
use vstd::prelude::*;

verus! {

/// A typed name of the intermediate code.
#[derive(Debug)]
pub struct Var {
    pub name: String,
    pub vt: Type,
}

/// A function of the intermediate code: return type, parameters, operations, name.
#[derive(Debug)]
pub struct IrFunc {
    pub rv: Type,
    pub args: Vec<Var>,
    pub ins: Vec<Opr>,
    pub name: String,
}

/// A compiled program: the compiled functions, the functions that can be called
/// (external ones and the headers of the defined ones), and the declared types.
#[derive(Debug)]
pub struct Ir {
    pub functions: Vec<IrFunc>,
    pub externs: Vec<IrFunc>,
    pub types: Vec<Type>,
}

/// The compiler's state: the program so far, the next label number, and the scopes of
/// declared variables.
#[derive(Debug)]
pub struct Compiler {
    pub ir: Ir,
    pub label_count: usize,
    pub scopes: Vec<Vec<Var>>,
}

/// A named type's model.
pub open spec fn var_v(v: Var) -> (Seq<char>, BTy) {
    (v.name@, ty_v(v.vt))
}

pub open spec fn vars_v(s: Seq<Var>) -> Seq<(Seq<char>, BTy)> {
    Seq::new(s.len(), |i: int| var_v(s[i]))
}

/// The model of an intermediate function.
pub struct IrFuncV {
    pub rv: BTy,
    pub args: Seq<(Seq<char>, BTy)>,
    pub ins: Seq<OprV>,
    pub name: Seq<char>,
}

impl View for IrFunc {
    type V = IrFuncV;

    open spec fn view(&self) -> IrFuncV {
        IrFuncV { rv: ty_v(self.rv), args: vars_v(self.args@), ins: oprs_view(self.ins@), name: self.name@ }
    }
}

pub open spec fn funcs_v(s: Seq<IrFunc>) -> Seq<IrFuncV> {
    Seq::new(s.len(), |i: int| s[i]@)
}

pub open spec fn types_v(s: Seq<Type>) -> Seq<BTy> {
    Seq::new(s.len(), |i: int| ty_v(s[i]))
}

/// The model of a compiled program.
pub struct IrV {
    pub functions: Seq<IrFuncV>,
    pub externs: Seq<IrFuncV>,
    pub types: Seq<BTy>,
}

impl View for Ir {
    type V = IrV;

    open spec fn view(&self) -> IrV {
        IrV {
            functions: funcs_v(self.functions@),
            externs: funcs_v(self.externs@),
            types: types_v(self.types@),
        }
    }
}

/// The model of the compiler's state.
pub struct CompilerV {
    pub ir: IrV,
    pub label_count: usize,
    pub scopes: Seq<Seq<(Seq<char>, BTy)>>,
}

pub open spec fn scopes_v(s: Seq<Vec<Var>>) -> Seq<Seq<(Seq<char>, BTy)>> {
    Seq::new(s.len(), |i: int| vars_v(s[i]@))
}

impl View for Compiler {
    type V = CompilerV;

    open spec fn view(&self) -> CompilerV {
        CompilerV { ir: self.ir@, label_count: self.label_count, scopes: scopes_v(self.scopes@) }
    }
}

/// The type of a function: its return type and its parameters' types.
pub open spec fn fn_type(f: IrFuncV) -> BTy {
    BTy::Function(Box::new(f.rv), Seq::new(f.args.len(), |i: int| f.args[i].1))
}

/// The first entry named `name`.
pub open spec fn first_named(s: Seq<(Seq<char>, BTy)>, name: Seq<char>) -> Option<(Seq<char>, BTy)>
    decreases s.len(),
{
    if s.len() == 0 {
        None
    } else if s[0].0 == name {
        Some(s[0])
    } else {
        first_named(s.drop_first(), name)
    }
}

/// The first variable named `name`, looking through the scopes from the outermost.
pub open spec fn find_in_scopes(scopes: Seq<Seq<(Seq<char>, BTy)>>, name: Seq<char>) -> Option<
    (Seq<char>, BTy),
>
    decreases scopes.len(),
{
    if scopes.len() == 0 {
        None
    } else {
        match first_named(scopes[0], name) {
            Some(x) => Some(x),
            None => find_in_scopes(scopes.drop_first(), name),
        }
    }
}

/// A copy of a typed name.
pub fn copy_var(v: &Var) -> (r: Var)
    ensures
        var_v(r) == var_v(*v),
{
    Var { name: v.name.clone(), vt: copy_ty(&v.vt) }
}

/// A copy of an operation with the same model.
pub fn copy_opr(o: &Opr) -> (r: Opr)
    ensures
        opr_view(r) == opr_view(*o),
{
    Opr {
        t: o.t,
        s: o.s.clone(),
        v: o.v,
        f: o.f.clone(),
        token: copy_token(&o.token),
        vt: copy_ty(&o.vt),
    }
}

/// The first entry of `s` named `name`, as `first_named` says.
fn find_named(s: &Vec<Var>, name: &str) -> (r: Option<Var>)
    ensures
        match r {
            Some(v) => first_named(vars_v(s@), name@) == Some(var_v(v)),
            None => first_named(vars_v(s@), name@) is None,
        },
{
    let ghost all = vars_v(s@);
    assert(all.skip(0) =~= all);
    let mut j: usize = 0;
    while j < s.len()
        invariant
            j <= s@.len(),
            all == vars_v(s@),
            first_named(all, name@) == first_named(all.skip(j as int), name@),
        decreases s@.len() - j,
    {
        assert(all.skip(j as int).drop_first() =~= all.skip(j + 1));
        if str_equal(s[j].name.as_str(), name) {
            return Some(copy_var(&s[j]));
        }
        j += 1;
    }
    None
}

impl IrFunc {
    /// The function's type (see `fn_type`).
    pub fn type_of(&self) -> (r: Type)
        ensures
            ty_v(r) == fn_type(self@),
    {
        let mut args: Vec<Type> = Vec::new();
        let mut i: usize = 0;
        while i < self.args.len()
            invariant
                i <= self.args@.len(),
                args@.len() == i,
                forall|j: int| 0 <= j < i ==> ty_v(#[trigger] args@[j]) == ty_v(self.args@[j].vt),
            decreases self.args@.len() - i,
        {
            args.push(copy_ty(&self.args[i].vt));
            i += 1;
        }
        let b = Box::new(copy_ty(&self.rv));
        proof {
            crate::bug::bug::lemma_function_v(b, args);
            assert(crate::bug::bug::tys_v(args@) =~= Seq::new(
                self@.args.len(),
                |i: int| self@.args[i].1,
            ));
        }
        Type::TFunction { return_type: b, args }
    }
}

impl Compiler {
    /// Declares a variable in the innermost scope.
    pub fn dec_var(&mut self, v: Var)
        requires
            old(self).scopes@.len() > 0,
        ensures
            final(self)@ == (CompilerV {
                scopes: old(self)@.scopes.update(
                    old(self)@.scopes.len() - 1,
                    old(self)@.scopes.last().push(var_v(v)),
                ),
                ..old(self)@
            }),
    {
        let l = self.scopes.len();
        let ghost v_model = var_v(v);
        let mut last: Vec<Var> = Vec::new();
        std::mem::swap(&mut last, &mut self.scopes[l - 1]);
        last.push(v);
        let ghost before = self.scopes@;
        self.scopes.set(l - 1, last);
        assert(vars_v(last@) =~= old(self)@.scopes.last().push(v_model));
        assert(scopes_v(self.scopes@) =~= old(self)@.scopes.update(
            l - 1,
            old(self)@.scopes.last().push(v_model),
        ));
    }

    /// The first variable with this name, from the outermost scope in.
    pub fn check_var(&self, name: &str) -> (r: Option<Var>)
        ensures
            match r {
                Some(v) => find_in_scopes(self@.scopes, name@) == Some(var_v(v)),
                None => find_in_scopes(self@.scopes, name@) is None,
            },
    {
        let ghost all = self@.scopes;
        assert(all.skip(0) =~= all);
        let mut i: usize = 0;
        while i < self.scopes.len()
            invariant
                i <= self.scopes@.len(),
                all == self@.scopes,
                find_in_scopes(all, name@) == find_in_scopes(all.skip(i as int), name@),
            decreases self.scopes@.len() - i,
        {
            assert(all.skip(i as int).drop_first() =~= all.skip(i + 1));
            assert(all.skip(i as int)[0] == vars_v(self.scopes@[i as int]@));
            match find_named(&self.scopes[i], name) {
                Some(v) => {
                    return Some(v);
                },
                None => {},
            }
            i += 1;
        }
        None
    }

    /// Opens a new innermost scope.
    pub fn push_scope(&mut self)
        ensures
            final(self)@ == (CompilerV { scopes: old(self)@.scopes.push(seq![]), ..old(self)@ }),
    {
        self.scopes.push(Vec::new());
        assert(vars_v(self.scopes@.last()@) =~= seq![]);
        assert(scopes_v(self.scopes@) =~= old(self)@.scopes.push(seq![]));
    }

    /// Closes the innermost scope, if there is one.
    pub fn pop_scope(&mut self)
        ensures
            final(self)@ == (CompilerV {
                scopes: if old(self)@.scopes.len() > 0 {
                    old(self)@.scopes.drop_last()
                } else {
                    old(self)@.scopes
                },
                ..old(self)@
            }),
    {
        let _ = self.scopes.pop();
        assert(scopes_v(self.scopes@) =~= if old(self)@.scopes.len() > 0 {
            old(self)@.scopes.drop_last()
        } else {
            old(self)@.scopes
        });
    }
}

/// The part of the compiler's and the function's state that compiling statements
/// changes: the function's operations, the next label, the scopes.
pub struct CSt {
    pub ins: Seq<OprV>,
    pub labels: usize,
    pub scopes: Seq<Seq<(Seq<char>, BTy)>>,
}

/// How compiling ends: with a state, with an error (and the state where it stopped), or
/// in a panic of the compiler (a variable declared twice, a declaration outside any
/// scope, label numbers past the machine word).
pub enum COut {
    Done(CSt),
    Failed(CSt),
    Panics,
}

pub open spec fn cst(comp: Compiler, func: IrFunc) -> CSt {
    CSt { ins: oprs_view(func.ins@), labels: comp.label_count, scopes: comp@.scopes }
}

/// A fresh operation of kind `t` with integer operand `v`.
pub open spec fn op_with(t: OpType, v: int) -> OprV {
    OprV { t, v: v as i64, ..blank_opr() }
}

/// Compiling a statement (in a function returning `rv`):
/// - a loop takes labels `l`, `l + 1`, `l + 2`: label `l`, the condition, a conditional
///   jump to `l + 1`, a jump to `l + 2`, label `l + 1`, the body, a jump to `l`, label
///   `l + 2`;
/// - a branch: the condition, then labels `l`, `l + 1`, `l + 2`: two conditional jumps
///   to `l`, a jump to `l + 1`, the body, a jump to `l + 2`, label `l + 1`, the else
///   body, label `l + 2`;
/// - a declaration adds the variable to the innermost scope and emits a declaration
///   operation and the initialiser;
/// - an expression emits its operations;
/// - a return emits its operations and a return operation; a value returned from a
///   void function is an error.
pub open spec fn comp_stmt(c: CSt, st: StmtV, rv: BTy) -> COut
    decreases st,
{
    match st {
        StmtV::While { cond, list } => {
            if c.labels + 3 > usize::MAX {
                COut::Panics
            } else {
                let l = c.labels as int;
                let c1 = CSt {
                    ins: c.ins.push(op_with(OpType::o_lable, l)) + cond + seq![
                        op_with(OpType::o_cgt, l + 1),
                        op_with(OpType::o_gt, l + 2),
                        op_with(OpType::o_lable, l + 1),
                    ],
                    labels: (l + 3) as usize,
                    ..c
                };
                match comp_list(c1, list, rv) {
                    COut::Done(c2) => COut::Done(
                        CSt {
                            ins: c2.ins + seq![op_with(OpType::o_gt, l), op_with(OpType::o_lable, l + 2)],
                            ..c2
                        },
                    ),
                    o => o,
                }
            }
        },
        StmtV::If { cond, list, else_list } => {
            if c.labels + 3 > usize::MAX {
                COut::Panics
            } else {
                let l = c.labels as int;
                let c1 = CSt {
                    ins: c.ins + cond + seq![
                        op_with(OpType::o_cgt, l),
                        op_with(OpType::o_cgt, l),
                        op_with(OpType::o_gt, l + 1),
                    ],
                    labels: (l + 3) as usize,
                    ..c
                };
                match comp_list(c1, list, rv) {
                    COut::Done(c2) => {
                        let c3 = CSt {
                            ins: c2.ins + seq![op_with(OpType::o_gt, l + 2), op_with(OpType::o_lable, l + 1)],
                            ..c2
                        };
                        match comp_list(c3, else_list, rv) {
                            COut::Done(c4) => COut::Done(
                                CSt { ins: c4.ins.push(op_with(OpType::o_lable, l + 2)), ..c4 },
                            ),
                            o => o,
                        }
                    },
                    o => o,
                }
            }
        },
        StmtV::Declare { vtype, name, list } => {
            if find_in_scopes(c.scopes, name) is Some || c.scopes.len() == 0 {
                COut::Panics
            } else {
                COut::Done(
                    CSt {
                        ins: c.ins.push(
                            OprV { t: OpType::o_dec, s: name, vt: ty_v(vtype), ..blank_opr() },
                        ) + list,
                        scopes: c.scopes.update(
                            c.scopes.len() - 1,
                            c.scopes.last().push((name, ty_v(vtype))),
                        ),
                        ..c
                    },
                )
            }
        },
        StmtV::Basic { list } => COut::Done(CSt { ins: c.ins + list, ..c }),
        StmtV::Return { list } => {
            if list.len() > 0 && rv == BTy::Void {
                COut::Failed(c)
            } else {
                COut::Done(
                    CSt { ins: (c.ins + list).push(OprV { t: OpType::o_return, ..blank_opr() }), ..c },
                )
            }
        },
    }
}

/// Compiling statements in order, stopping at the first that does not finish.
pub open spec fn comp_list(c: CSt, list: Seq<StmtV>, rv: BTy) -> COut
    decreases list,
{
    if list.len() == 0 {
        COut::Done(c)
    } else {
        proof {
            assert(decreases_to!(list => list[0]));
            assert(decreases_to!(list => list.subrange(1, list.len() as int)));
        }
        match comp_stmt(c, list[0], rv) {
            COut::Done(c2) => comp_list(c2, list.subrange(1, list.len() as int), rv),
            o => o,
        }
    }
}

/// A fresh operation of kind `t` with integer operand `v`.
fn mk_op(t: OpType, v: i64) -> (r: Opr)
    ensures
        opr_view(r) == op_with(t, v as int),
{
    let mut op = Opr::new();
    op.t = t;
    op.v = v;
    op
}

/// Appends copies of the operations `ops`.
fn push_all(ins: &mut Vec<Opr>, ops: &Vec<Opr>)
    ensures
        oprs_view(final(ins)@) == oprs_view(old(ins)@) + oprs_view(ops@),
{
    let ghost start = oprs_view(ins@);
    let mut i: usize = 0;
    while i < ops.len()
        invariant
            i <= ops@.len(),
            oprs_view(ins@) == start + oprs_view(ops@).take(i as int),
        decreases ops@.len() - i,
    {
        let o = copy_opr(&ops[i]);
        let ghost prev = ins@;
        ins.push(o);
        assert(ins@ =~= prev.push(o));
        assert(oprs_view(ins@) =~= oprs_view(prev).push(opr_view(o)));
        assert(oprs_view(ops@).take(i + 1) =~= oprs_view(ops@).take(i as int).push(
            oprs_view(ops@)[i as int],
        ));
        assert(oprs_view(ins@) =~= start + oprs_view(ops@).take(i + 1));
        i += 1;
    }
    assert(oprs_view(ops@).take(i as int) =~= oprs_view(ops@));
}

/// Appends one operation.
fn push_op(ins: &mut Vec<Opr>, o: Opr)
    ensures
        oprs_view(final(ins)@) == oprs_view(old(ins)@).push(opr_view(o)),
{
    ins.push(o);
    assert(oprs_view(ins@) =~= oprs_view(old(ins)@).push(opr_view(o)));
}

/// Compiles one statement into `func` (see `comp_stmt`).
pub fn compile_statement(comp: &mut Compiler, func: &mut IrFunc, st: &Statement) -> (r: Result<(), String>)
    requires
        !(comp_stmt(cst(*old(comp), *old(func)), stmt_view(*st), ty_v(old(func).rv)) is Panics),
    ensures
        final(comp)@.ir == old(comp)@.ir,
        final(func).rv == old(func).rv,
        final(func).args == old(func).args,
        final(func).name == old(func).name,
        match comp_stmt(cst(*old(comp), *old(func)), stmt_view(*st), ty_v(old(func).rv)) {
            COut::Done(c) => r is Ok && cst(*final(comp), *final(func)) == c,
            COut::Failed(c) => r is Err && r->Err_0@ == "attempted to return from a void function"@
                && cst(*final(comp), *final(func)) == c,
            COut::Panics => false,
        },
{
    match try_compile_statement(comp, func, st) {
        Some(r) => r,
        None => Ok(()),
    }
}

/// Compiles statements in order into `func` (see `comp_list`).
pub fn compile_list(comp: &mut Compiler, func: &mut IrFunc, list: &Vec<Statement>) -> (r: Result<(), String>)
    requires
        !(comp_list(cst(*old(comp), *old(func)), stmts_view(list@), ty_v(old(func).rv)) is Panics),
    ensures
        final(comp)@.ir == old(comp)@.ir,
        final(func).rv == old(func).rv,
        final(func).args == old(func).args,
        final(func).name == old(func).name,
        match comp_list(cst(*old(comp), *old(func)), stmts_view(list@), ty_v(old(func).rv)) {
            COut::Done(c) => r is Ok && cst(*final(comp), *final(func)) == c,
            COut::Failed(c) => r is Err && r->Err_0@ == "attempted to return from a void function"@
                && cst(*final(comp), *final(func)) == c,
            COut::Panics => false,
        },
{
    match try_compile_list(comp, func, list) {
        Some(r) => r,
        None => Ok(()),
    }
}

/// Compiles one statement into `func` as `compile_statement` does, but answers `None`
/// where that would panic (see `comp_stmt`).
pub fn try_compile_statement(comp: &mut Compiler, func: &mut IrFunc, st: &Statement) -> (r: Option<Result<(), String>>)
    ensures
        final(comp)@.ir == old(comp)@.ir,
        final(func).rv == old(func).rv,
        final(func).args == old(func).args,
        final(func).name == old(func).name,
        match comp_stmt(cst(*old(comp), *old(func)), stmt_view(*st), ty_v(old(func).rv)) {
            COut::Done(c) => r == Some(Ok::<(), String>(())) && cst(*final(comp), *final(func)) == c,
            COut::Failed(c) => (r matches Some(Err(e)) && e@ == "attempted to return from a void function"@)
                && cst(*final(comp), *final(func)) == c,
            COut::Panics => r is None,
        },
    decreases st, 1int,
{
    proof {
        lemma_stmt_lists(*st);
    }
    let ghost c0 = cst(*comp, *func);
    let ghost rv = ty_v(func.rv);
    match st {
        Statement::While { cond, list } => {
            if comp.label_count > usize::MAX - 3 {
                return None;
            }
            let start = comp.label_count;
            comp.label_count += 1;
            let blck = comp.label_count;
            comp.label_count += 1;
            let done = comp.label_count;
            comp.label_count += 1;
            push_op(&mut func.ins, mk_op(OpType::o_lable, start as i64));
            push_all(&mut func.ins, &cond.ops);
            push_op(&mut func.ins, mk_op(OpType::o_cgt, blck as i64));
            push_op(&mut func.ins, mk_op(OpType::o_gt, done as i64));
            push_op(&mut func.ins, mk_op(OpType::o_lable, blck as i64));
            proof {
                assert(decreases_to!(st => list));
                let l = c0.labels as int;
                assert(oprs_view(func.ins@) =~= c0.ins.push(op_with(OpType::o_lable, l))
                    + oprs_view(cond.ops@) + seq![
                    op_with(OpType::o_cgt, l + 1),
                    op_with(OpType::o_gt, l + 2),
                    op_with(OpType::o_lable, l + 1),
                ]);
            }
            let r = try_compile_list(comp, func, list);
            match r {
                Some(Ok(())) => {},
                _ => {
                    return r;
                },
            }
            let ghost c2 = cst(*comp, *func);
            push_op(&mut func.ins, mk_op(OpType::o_gt, start as i64));
            push_op(&mut func.ins, mk_op(OpType::o_lable, done as i64));
            proof {
                let l = c0.labels as int;
                assert(oprs_view(func.ins@) =~= c2.ins + seq![
                    op_with(OpType::o_gt, l),
                    op_with(OpType::o_lable, l + 2),
                ]);
            }
            Some(Ok(()))
        },
        Statement::If { cond, list, else_list } => {
            if comp.label_count > usize::MAX - 3 {
                return None;
            }
            push_all(&mut func.ins, &cond.ops);
            let ifb = comp.label_count;
            comp.label_count += 1;
            let elfb = comp.label_count;
            comp.label_count += 1;
            let donb = comp.label_count;
            comp.label_count += 1;
            push_op(&mut func.ins, mk_op(OpType::o_cgt, ifb as i64));
            push_op(&mut func.ins, mk_op(OpType::o_cgt, ifb as i64));
            push_op(&mut func.ins, mk_op(OpType::o_gt, elfb as i64));
            proof {
                assert(decreases_to!(st => list));
                assert(decreases_to!(st => else_list));
                let l = c0.labels as int;
                assert(oprs_view(func.ins@) =~= c0.ins + oprs_view(cond.ops@) + seq![
                    op_with(OpType::o_cgt, l),
                    op_with(OpType::o_cgt, l),
                    op_with(OpType::o_gt, l + 1),
                ]);
            }
            let r = try_compile_list(comp, func, list);
            match r {
                Some(Ok(())) => {},
                _ => {
                    return r;
                },
            }
            let ghost c2 = cst(*comp, *func);
            push_op(&mut func.ins, mk_op(OpType::o_gt, donb as i64));
            push_op(&mut func.ins, mk_op(OpType::o_lable, elfb as i64));
            proof {
                let l = c0.labels as int;
                assert(oprs_view(func.ins@) =~= c2.ins + seq![
                    op_with(OpType::o_gt, l + 2),
                    op_with(OpType::o_lable, l + 1),
                ]);
            }
            let r = try_compile_list(comp, func, else_list);
            match r {
                Some(Ok(())) => {},
                _ => {
                    return r;
                },
            }
            push_op(&mut func.ins, mk_op(OpType::o_lable, donb as i64));
            Some(Ok(()))
        },
        Statement::Declare { v, list } => {
            let found = comp.check_var(v.name.as_str());
            if found.is_some() || comp.scopes.len() == 0 {
                return None;
            }
            comp.dec_var(Var { name: v.name.clone(), vt: copy_ty(&v.vtype) });
            let mut op = Opr::new();
            op.t = OpType::o_dec;
            op.s = v.name.clone();
            op.vt = copy_ty(&v.vtype);
            push_op(&mut func.ins, op);
            push_all(&mut func.ins, &list.ops);
            Some(Ok(()))
        },
        Statement::Basic { list } => {
            push_all(&mut func.ins, &list.ops);
            Some(Ok(()))
        },
        Statement::Return { list } => {
            let void = Type::TVoid;
            if list.ops.len() > 0 && ty_eq(&func.rv, &void) {
                return Some(Err(String::from_str("attempted to return from a void function")));
            }
            push_all(&mut func.ins, &list.ops);
            let mut op = Opr::new();
            op.t = OpType::o_return;
            push_op(&mut func.ins, op);
            Some(Ok(()))
        },
    }
}

/// Compiles statements in order into `func` as `compile_list` does, but answers `None`
/// where that would panic (see `comp_list`).
pub fn try_compile_list(comp: &mut Compiler, func: &mut IrFunc, list: &Vec<Statement>) -> (r: Option<Result<(), String>>)
    ensures
        final(comp)@.ir == old(comp)@.ir,
        final(func).rv == old(func).rv,
        final(func).args == old(func).args,
        final(func).name == old(func).name,
        match comp_list(cst(*old(comp), *old(func)), stmts_view(list@), ty_v(old(func).rv)) {
            COut::Done(c) => r == Some(Ok::<(), String>(())) && cst(*final(comp), *final(func)) == c,
            COut::Failed(c) => (r matches Some(Err(e)) && e@ == "attempted to return from a void function"@)
                && cst(*final(comp), *final(func)) == c,
            COut::Panics => r is None,
        },
    decreases list, 0int,
{
    let ghost all = stmts_view(list@);
    let ghost rv = ty_v(func.rv);
    let ghost goal = comp_list(cst(*comp, *func), all, rv);
    let mut i: usize = 0;
    assert(all.subrange(0, all.len() as int) =~= all);
    while i < list.len()
        invariant
            i <= list@.len(),
            all == stmts_view(list@),
            rv == ty_v(func.rv),
            func.rv == old(func).rv,
            func.args == old(func).args,
            func.name == old(func).name,
            comp@.ir == old(comp)@.ir,
            goal == comp_list(cst(*old(comp), *old(func)), all, rv),
            goal == comp_list(cst(*comp, *func), all.subrange(i as int, all.len() as int), rv),
        decreases list@.len() - i,
    {
        proof {
            assert(decreases_to!(list => list@));
            assert(decreases_to!(list@ => list@[i as int]));
            let rest = all.subrange(i as int, all.len() as int);
            assert(rest[0] == stmt_view(list@[i as int]));
            assert(rest.subrange(1, rest.len() as int) =~= all.subrange(i + 1, all.len() as int));
        }
        let r = try_compile_statement(comp, func, &list[i]);
        match r {
            Some(Ok(())) => {},
            _ => {
                return r;
            },
        }
        i += 1;
    }
    Some(Ok(()))
}

/// The type checker's state: the stack of operand types, the declared variables, and
/// the text of the last operand token (an identifier or a literal) when the operation
/// before was one.
pub struct VSt {
    pub stack: Seq<BTy>,
    pub vars: Seq<(Seq<char>, BTy)>,
    pub last: Option<Seq<char>>,
}

/// An error message: exactly this text, or this text before and this text after a
/// value shown as `{:#?}` shows it (a type, whose shown form is not stated).
pub enum VMsg {
    Exact(Seq<char>),
    Around(Seq<char>, Seq<char>),
}

/// Message `e` is the one `m` describes.
pub open spec fn msg_ok(e: Seq<char>, m: VMsg) -> bool {
    match m {
        VMsg::Exact(t) => e == t,
        VMsg::Around(a, b) => e.len() >= a.len() + b.len() && e.take(a.len() as int) == a && e.skip(
            e.len() - b.len(),
        ) == b,
    }
}

/// `t` followed by the decimal form of `line`.
pub open spec fn at_line(t: Seq<char>, line: usize) -> Seq<char> {
    t + crate::text::decimal(line as nat)
}

/// The error for too few operands.
pub open spec fn few_operands(line: usize) -> VMsg {
    VMsg::Exact(at_line("not enough stack operands:line"@, line))
}

/// One operation checked: the next state and the operation as rewritten, a type error
/// (with the operation as rewritten, and its message), or a panic of the checker.
pub enum VStep {
    Go(VSt, OprV),
    Fail(OprV, VMsg),
    Panics,
}

/// How checking a function ends: its operations as rewritten, with or without a type
/// error, or a panic.
pub enum VRes {
    Checked(Seq<OprV>),
    Rejected(Seq<OprV>, VMsg),
    Panics,
}

/// The first function of `fs` named `name`.
pub open spec fn first_fn(fs: Seq<IrFuncV>, name: Seq<char>) -> Option<IrFuncV>
    decreases fs.len(),
{
    if fs.len() == 0 {
        None
    } else if fs[0].name == name {
        Some(fs[0])
    } else {
        first_fn(fs.drop_first(), name)
    }
}

/// The types of the fields named `name`, in order.
pub open spec fn fields_named(fields: Seq<(Seq<char>, BTy)>, name: Seq<char>) -> Seq<BTy>
    decreases fields.len(),
{
    if fields.len() == 0 {
        seq![]
    } else {
        let rest = fields_named(fields.drop_first(), name);
        if fields[0].0 == name {
            seq![fields[0].1].add(rest)
        } else {
            rest
        }
    }
}

/// The state with the last operand forgotten.
pub open spec fn no_last(st: VSt) -> VSt {
    VSt { last: None, ..st }
}

/// Checking one operation of a function returning `rv`, where `externs` are the
/// functions that can be called:
/// - arithmetic and assignment need two operands of one type and leave one of it;
/// - a conditional jump needs an integer;
/// - a declaration adds a variable; literals push their type;
/// - an identifier pushes the type of the first variable of that name, else of the
///   first callable function of that name (and then, when any function can be called,
///   it becomes a function operation);
/// - a field access needs a struct under the field operand and pushes the types of its
///   fields named as the last operand token;
/// - a call of `v` arguments needs a function type above them whose first `v`
///   parameter types are theirs, and pushes its return type unless void;
/// - a return needs the function's return type (nothing for a void function);
/// - a function operation pushes the type of the first callable function if the name
///   is its own;
/// - clearing empties the stack; jumps, labels and markers change nothing.
/// A type declaration, a field access with no operand token before it, a call with
/// `v` of -1 or with more arguments than parameters panic.
pub open spec fn vstep(st: VSt, op: OprV, rv: BTy, externs: Seq<IrFuncV>, line: usize) -> VStep {
    let n = st.stack.len();
    match op.t {
        OpType::o_ad | OpType::o_sb | OpType::o_ml | OpType::o_dv | OpType::o_as => {
            if n < 2 {
                VStep::Fail(op, few_operands(line))
            } else if st.stack[n - 1] != st.stack[n - 2] {
                VStep::Fail(op, VMsg::Around("mismatched types:"@, at_line(", line:"@, line)))
            } else {
                VStep::Go(
                    VSt { stack: st.stack.take(n - 2).push(st.stack[n - 1]), ..no_last(st) },
                    op,
                )
            }
        },
        OpType::o_gt | OpType::o_lable | OpType::o_func_begin | OpType::o_auto_dec => VStep::Go(
            no_last(st),
            op,
        ),
        OpType::o_cgt => {
            if n < 1 {
                VStep::Fail(op, few_operands(line))
            } else if st.stack[n - 1] != BTy::Int {
                VStep::Fail(op, VMsg::Exact(at_line("jump on non integral type,"@, line)))
            } else {
                VStep::Go(VSt { stack: st.stack.take(n - 1), ..no_last(st) }, op)
            }
        },
        OpType::o_dec => VStep::Go(VSt { vars: st.vars.push((op.s, op.vt)), ..no_last(st) }, op),
        OpType::o_type => VStep::Panics,
        OpType::o_num => VStep::Go(
            VSt { stack: st.stack.push(BTy::Int), last: Some(op.token.st), ..st },
            op,
        ),
        OpType::o_flt => VStep::Go(
            VSt { stack: st.stack.push(BTy::Float), last: Some(op.token.st), ..st },
            op,
        ),
        OpType::o_str => VStep::Go(
            VSt { stack: st.stack.push(BTy::Str), last: Some(op.token.st), ..st },
            op,
        ),
        OpType::o_idnt => {
            let st1 = VSt { last: Some(op.token.st), ..st };
            match first_named(st.vars, op.s) {
                Some(v) => VStep::Go(VSt { stack: st.stack.push(v.1), ..st1 }, op),
                None => {
                    let op2 = if externs.len() > 0 {
                        OprV { t: OpType::o_function, ..op }
                    } else {
                        op
                    };
                    match first_fn(externs, op.s) {
                        Some(f) => VStep::Go(VSt { stack: st.stack.push(fn_type(f)), ..st1 }, op2),
                        None => VStep::Fail(
                            op2,
                            VMsg::Exact(at_line("undeclared indentifier:"@ + op.s + ", line:"@, line)),
                        ),
                    }
                },
            }
        },
        OpType::o_fld => {
            if n < 2 {
                VStep::Fail(op, few_operands(line))
            } else {
                match st.last {
                    None => VStep::Panics,
                    Some(name) => match st.stack[n - 2] {
                        BTy::Struct(_, fields) => {
                            let ts = fields_named(fields, name);
                            if ts.len() == 0 {
                                VStep::Fail(
                                    op,
                                    VMsg::Around("type :"@, at_line(" has no field"@ + name + " line:"@, line)),
                                )
                            } else {
                                VStep::Go(VSt { stack: st.stack.take(n - 2) + ts, ..no_last(st) }, op)
                            }
                        },
                        _ => VStep::Fail(
                            op,
                            VMsg::Around("type :"@, at_line(" has no field:"@ + name + " line:"@, line)),
                        ),
                    },
                }
            }
        },
        OpType::o_call => {
            let count = (op.v as usize) as int;
            if count + 1 > usize::MAX {
                VStep::Panics
            } else if n < count + 1 {
                VStep::Fail(op, few_operands(line))
            } else {
                let below = st.stack.take(n - 1);
                match st.stack[n - 1] {
                    BTy::Function(ret, ag) => {
                        if count > ag.len() {
                            VStep::Panics
                        } else if below.subrange(n - 1 - count, n - 1) != ag.take(count) {
                            VStep::Fail(op, VMsg::Around("expected type:"@, at_line(", line:"@, line)))
                        } else {
                            let kept = below.take(n - 1 - count);
                            VStep::Go(
                                VSt {
                                    stack: if *ret != BTy::Void {
                                        kept.push(*ret)
                                    } else {
                                        kept
                                    },
                                    ..no_last(st)
                                },
                                op,
                            )
                        }
                    },
                    _ => VStep::Fail(op, VMsg::Around(""@, at_line(" is not a function, line:"@, line))),
                }
            }
        },
        OpType::o_return => {
            if rv == BTy::Void {
                VStep::Go(no_last(st), op)
            } else if n < 1 {
                VStep::Fail(op, few_operands(line))
            } else if st.stack[n - 1] != rv {
                VStep::Fail(op, VMsg::Around("returned type:"@, at_line(", line:"@, line)))
            } else {
                VStep::Go(VSt { stack: st.stack.take(n - 1), ..no_last(st) }, op)
            }
        },
        OpType::o_clear => VStep::Go(VSt { stack: seq![], ..no_last(st) }, op),
        OpType::o_function => {
            if externs.len() == 0 {
                VStep::Fail(op, VMsg::Exact(at_line("undeclared function"@ + op.s + ", line:"@, line)))
            } else if externs[0].name == op.s {
                VStep::Go(VSt { stack: st.stack.push(fn_type(externs[0])), ..no_last(st) }, op)
            } else {
                VStep::Go(no_last(st), op)
            }
        },
    }
}

/// Checking the operations from the `k`-th on; `line` is the highest source line of
/// the operations before, which the messages give.
pub open spec fn vrun(st: VSt, ins: Seq<OprV>, k: int, rv: BTy, externs: Seq<IrFuncV>, line: usize) -> VRes
    decreases ins.len() - k,
{
    if k < 0 || k >= ins.len() {
        VRes::Checked(ins)
    } else {
        let line2 = if ins[k].token.line > line {
            ins[k].token.line
        } else {
            line
        };
        match vstep(st, ins[k], rv, externs, line2) {
            VStep::Go(st2, op2) => vrun(st2, ins.update(k, op2), k + 1, rv, externs, line2),
            VStep::Fail(op2, m) => VRes::Rejected(ins.update(k, op2), m),
            VStep::Panics => VRes::Panics,
        }
    }
}

/// Type-checking a function: an empty stack, the parameters as the variables, and the
/// compiler's callable functions.
pub open spec fn spec_validate(c: CompilerV, f: IrFuncV) -> VRes {
    vrun(VSt { stack: seq![], vars: f.args, last: None }, f.ins, 0, f.rv, c.ir.externs, 0)
}

fn pop_ty(stack: &mut Vec<Type>) -> (t: Type)
    requires
        old(stack)@.len() > 0,
    ensures
        final(stack)@.len() == old(stack)@.len() - 1,
        types_v(final(stack)@) == types_v(old(stack)@).drop_last(),
        ty_v(t) == types_v(old(stack)@).last(),
{
    let t = stack.pop().unwrap();
    assert(types_v(stack@) =~= types_v(old(stack)@).drop_last());
    t
}

fn push_ty(stack: &mut Vec<Type>, t: Type)
    ensures
        types_v(final(stack)@) == types_v(old(stack)@).push(ty_v(t)),
{
    stack.push(t);
    assert(types_v(stack@) =~= types_v(old(stack)@).push(ty_v(t)));
}

/// `prefix` followed by the line number.
fn line_msg(prefix: &str, line: usize) -> (r: String)
    ensures
        r@ == at_line(prefix@, line),
{
    let mut m = String::new();
    push_str(&mut m, prefix);
    crate::text::push_decimal(&mut m, line as u64);
    assert(m@ =~= at_line(prefix@, line));
    m
}

/// `pre`, then `mid`, then `post`.
fn around(pre: &str, mid: &str, post: &str) -> (r: String)
    ensures
        r@ == pre@ + mid@ + post@,
        msg_ok(r@, VMsg::Around(pre@, post@)),
{
    let mut m = String::new();
    push_str(&mut m, pre);
    push_str(&mut m, mid);
    push_str(&mut m, post);
    assert(m@ =~= pre@ + mid@ + post@);
    assert(m@.take(pre@.len() as int) =~= pre@);
    assert(m@.skip(m@.len() - post@.len()) =~= post@);
    m
}

/// The first function of `fs` named `name` (see `first_fn`), by position.
fn find_fn(fs: &Vec<IrFunc>, name: &str) -> (r: Option<usize>)
    ensures
        match r {
            Some(i) => i < fs@.len() && first_fn(funcs_v(fs@), name@) == Some(fs@[i as int]@),
            None => first_fn(funcs_v(fs@), name@) is None,
        },
{
    let ghost all = funcs_v(fs@);
    assert(all.skip(0) =~= all);
    let mut j: usize = 0;
    while j < fs.len()
        invariant
            j <= fs@.len(),
            all == funcs_v(fs@),
            first_fn(all, name@) == first_fn(all.skip(j as int), name@),
        decreases fs@.len() - j,
    {
        assert(all.skip(j as int).drop_first() =~= all.skip(j + 1));
        if str_equal(fs[j].name.as_str(), name) {
            return Some(j);
        }
        j += 1;
    }
    None
}

/// The types of the fields named `name`, in order (see `fields_named`).
fn named_field_types(fields: &Vec<crate::bug::bug::Var>, name: &str) -> (r: Vec<Type>)
    ensures
        types_v(r@) == fields_named(crate::bug::bug::fields_v(fields@), name@),
{
    let ghost all = crate::bug::bug::fields_v(fields@);
    let mut out: Vec<Type> = Vec::new();
    let mut j: usize = 0;
    assert(all.skip(0) =~= all);
    while j < fields.len()
        invariant
            j <= fields@.len(),
            all == crate::bug::bug::fields_v(fields@),
            fields_named(all, name@) == types_v(out@) + fields_named(all.skip(j as int), name@),
        decreases fields@.len() - j,
    {
        assert(all.skip(j as int).drop_first() =~= all.skip(j + 1));
        assert(all.skip(j as int)[0] == all[j as int]);
        if str_equal(fields[j].name.as_str(), name) {
            let ghost before = types_v(out@);
            push_ty(&mut out, copy_ty(&fields[j].vtype));
            assert(types_v(out@) + fields_named(all.skip(j + 1), name@) =~= before + (seq![
                all[j as int].1,
            ].add(fields_named(all.skip(j + 1), name@))));
        }
        j += 1;
    }
    assert(fields_named(all.skip(j as int), name@) =~= seq![]);
    assert(types_v(out@) + seq![] =~= types_v(out@));
    out
}

/// The checker's state as held by `validate_function`.
pub open spec fn vstate(stack: Seq<Type>, vars: Seq<Var>, last: Option<String>) -> VSt {
    VSt {
        stack: types_v(stack),
        vars: vars_v(vars),
        last: match last {
            Some(x) => Some(x@),
            None => None,
        },
    }
}

/// The operation as `check_op` leaves it: turned into a function operation or not.
pub open spec fn rewritten(op: OprV, to_function: bool) -> OprV {
    if to_function {
        OprV { t: OpType::o_function, ..op }
    } else {
        op
    }
}

/// Checks one operation (see `vstep`); says whether the operation is to become a
/// function operation.
fn check_op(
    stack: &mut Vec<Type>,
    vars: &mut Vec<Var>,
    last: &mut Option<String>,
    op: &Opr,
    rv: &Type,
    externs: &Vec<IrFunc>,
    line: usize,
    panicked: &mut bool,
) -> (r: (bool, Result<(), String>))
    ensures
        match vstep(vstate(old(stack)@, old(vars)@, *old(last)), opr_view(*op), ty_v(*rv), funcs_v(externs@), line) {
            VStep::Go(st2, op2) => !*final(panicked) && r.1 is Ok && vstate(final(stack)@, final(vars)@, *final(last)) == st2
                && op2 == rewritten(opr_view(*op), r.0),
            VStep::Fail(op2, m) => !*final(panicked) && (r.1 matches Err(e) && msg_ok(e@, m)) && op2 == rewritten(opr_view(*op), r.0),
            VStep::Panics => *final(panicked),
        },
{
    *panicked = false;
    let ghost st = vstate(stack@, vars@, *last);
    let ghost ext = funcs_v(externs@);
    let n = stack.len();
    match op.t {
        OpType::o_ad | OpType::o_sb | OpType::o_ml | OpType::o_dv | OpType::o_as => {
            *last = None;
            if n < 2 {
                return (false, Err(line_msg("not enough stack operands:line", line)));
            }
            let p = pop_ty(stack);
            let p2 = pop_ty(stack);
            if !ty_eq(&p, &p2) {
                let mut mid = debug_pretty(&p);
                push_str(&mut mid, ",");
                push_str(&mut mid, debug_pretty(&p2).as_str());
                let post = line_msg(", line:", line);
                return (false, Err(around("mismatched types:", mid.as_str(), post.as_str())));
            }
            push_ty(stack, p);
            assert(types_v(stack@) =~= st.stack.take(n - 2).push(st.stack[n - 1]));
            (false, Ok(()))
        },
        OpType::o_gt | OpType::o_lable | OpType::o_func_begin | OpType::o_auto_dec => {
            *last = None;
            (false, Ok(()))
        },
        OpType::o_cgt => {
            *last = None;
            if n < 1 {
                return (false, Err(line_msg("not enough stack operands:line", line)));
            }
            let t = pop_ty(stack);
            let int_type = Type::TInt;
            if !ty_eq(&t, &int_type) {
                return (false, Err(line_msg("jump on non integral type,", line)));
            }
            assert(types_v(stack@) =~= st.stack.take(n - 1));
            (false, Ok(()))
        },
        OpType::o_dec => {
            *last = None;
            vars.push(Var { name: op.s.clone(), vt: copy_ty(&op.vt) });
            assert(vars_v(vars@) =~= st.vars.push((op.s@, ty_v(op.vt))));
            (false, Ok(()))
        },
        OpType::o_type => {
            *panicked = true;
            (false, Ok(()))
        },
        OpType::o_num => {
            *last = Some(op.token.st.clone());
            push_ty(stack, Type::TInt);
            (false, Ok(()))
        },
        OpType::o_flt => {
            *last = Some(op.token.st.clone());
            push_ty(stack, Type::TFloat);
            (false, Ok(()))
        },
        OpType::o_str => {
            *last = Some(op.token.st.clone());
            push_ty(stack, Type::TStr);
            (false, Ok(()))
        },
        OpType::o_idnt => {
            *last = Some(op.token.st.clone());
            match find_named(vars, op.s.as_str()) {
                Some(v) => {
                    push_ty(stack, v.vt);
                    (false, Ok(()))
                },
                None => {
                    let to_function = externs.len() > 0;
                    match find_fn(externs, op.s.as_str()) {
                        Some(i) => {
                            push_ty(stack, externs[i].type_of());
                            (to_function, Ok(()))
                        },
                        None => {
                            let mut m = String::from_str("undeclared indentifier:");
                            push_str(&mut m, op.s.as_str());
                            push_str(&mut m, ", line:");
                            let e = line_msg(m.as_str(), line);
                            (to_function, Err(e))
                        },
                    }
                },
            }
        },
        OpType::o_fld => {
            if n < 2 {
                return (false, Err(line_msg("not enough stack operands:line", line)));
            }
            let name = match last {
                Some(x) => x.clone(),
                None => {
                    *panicked = true;
                    return (false, Ok(()));
                },
            };
            let _fld = pop_ty(stack);
            let v = pop_ty(stack);
            *last = None;
            let vd = debug_pretty(&v);
            match v {
                Type::TStruct { name: sname, fields } => {
                    proof {
                        crate::bug::bug::lemma_struct_v(sname, fields);
                    }
                    let ts = named_field_types(&fields, name.as_str());
                    if ts.len() == 0 {
                        let mut t = String::from_str(" has no field");
                        push_str(&mut t, name.as_str());
                        push_str(&mut t, " line:");
                        let post = line_msg(t.as_str(), line);
                        return (false, Err(around("type :", vd.as_str(), post.as_str())));
                    }
                    let ghost base = types_v(stack@);
                    let mut j: usize = 0;
                    while j < ts.len()
                        invariant
                            j <= ts@.len(),
                            types_v(stack@) == base + types_v(ts@).take(j as int),
                        decreases ts@.len() - j,
                    {
                        push_ty(stack, copy_ty(&ts[j]));
                        assert(types_v(ts@).take(j + 1) =~= types_v(ts@).take(j as int).push(
                            types_v(ts@)[j as int],
                        ));
                        assert(types_v(stack@) =~= base + types_v(ts@).take(j + 1));
                        j += 1;
                    }
                    assert(types_v(ts@).take(j as int) =~= types_v(ts@));
                    assert(base =~= st.stack.take(n - 2));
                    (false, Ok(()))
                },
                _ => {
                    let mut t = String::from_str(" has no field:");
                    push_str(&mut t, name.as_str());
                    push_str(&mut t, " line:");
                    let post = line_msg(t.as_str(), line);
                    (false, Err(around("type :", vd.as_str(), post.as_str())))
                },
            }
        },
        OpType::o_call => {
            *last = None;
            let count = op.v as usize;
            if count == usize::MAX {
                *panicked = true;
                return (false, Ok(()));
            }
            if n < count + 1 {
                return (false, Err(line_msg("not enough stack operands:line", line)));
            }
            let to_call = pop_ty(stack);
            let ghost below = types_v(stack@);
            assert(below =~= st.stack.take(n - 1));
            match to_call {
                Type::TFunction { return_type, args } => {
                    proof {
                        crate::bug::bug::lemma_function_v(return_type, args);
                    }
                    let ghost ag = crate::bug::bug::tys_v(args@);
                    if count > args.len() {
                        *panicked = true;
                        return (false, Ok(()));
                    }
                    let ghost sub = below.subrange(n - 1 - count, n - 1);
                    let mut i: usize = 0;
                    while i < count
                        invariant
                            i <= count,
                            count <= args@.len(),
                            count + 1 <= n,
                            below.len() == n - 1,
                            ag == crate::bug::bug::tys_v(args@),
                            types_v(stack@) == below.take(n - 1 - i),
                            sub == below.subrange(n - 1 - count, n - 1),
                            st == vstate(old(stack)@, old(vars)@, *old(last)),
                            st.stack.len() == n,
                            below == st.stack.take(n - 1),
                            st.stack[n - 1] == BTy::Function(Box::new(ty_v(*return_type)), ag),
                            count == (op.v as usize) as int,
                            opr_view(*op).t == OpType::o_call,
                            !*panicked,
                            forall|j: int| count - i <= j < count ==> #[trigger] sub[j] == ag[j],
                        decreases count - i,
                    {
                        let tmp = pop_ty(stack);
                        if !ty_eq(&tmp, &args[count - i - 1]) {
                            let mut mid = debug_pretty(&tmp);
                            push_str(&mut mid, ", found type:");
                            push_str(&mut mid, debug_pretty(&args[count - i - 1]).as_str());
                            let post = line_msg(", line:", line);
                            let m = around("expected type:", mid.as_str(), post.as_str());
                            proof {
                                assert(sub[count - 1 - i] == below[n - 2 - i]);
                                assert(sub[count - 1 - i] != ag.take(count as int)[count - 1 - i]);
                                assert(sub != ag.take(count as int));
                            }
                            return (false, Err(m));
                        }
                        assert(below.take(n - 1 - i).drop_last() =~= below.take(n - 1 - (i + 1)));
                        assert(sub[count - 1 - i] == below[n - 2 - i]);
                        i += 1;
                    }
                    assert(sub =~= ag.take(count as int));
                    let void = Type::TVoid;
                    if !ty_eq(&return_type, &void) {
                        push_ty(stack, *return_type);
                    }
                    (false, Ok(()))
                },
                _ => {
                    let mid = debug_pretty(&to_call);
                    let post = line_msg(" is not a function, line:", line);
                    (false, Err(around("", mid.as_str(), post.as_str())))
                },
            }
        },
        OpType::o_return => {
            *last = None;
            let void = Type::TVoid;
            if ty_eq(rv, &void) {
                return (false, Ok(()));
            }
            if n < 1 {
                return (false, Err(line_msg("not enough stack operands:line", line)));
            }
            let t = pop_ty(stack);
            if !ty_eq(&t, rv) {
                let mut mid = debug_pretty(&t);
                push_str(&mut mid, ", expected:");
                push_str(&mut mid, debug_pretty(rv).as_str());
                let post = line_msg(", line:", line);
                return (false, Err(around("returned type:", mid.as_str(), post.as_str())));
            }
            assert(types_v(stack@) =~= st.stack.take(n - 1));
            (false, Ok(()))
        },
        OpType::o_clear => {
            *last = None;
            *stack = Vec::new();
            assert(types_v(stack@) =~= seq![]);
            (false, Ok(()))
        },
        OpType::o_function => {
            *last = None;
            if externs.len() == 0 {
                let mut m = String::from_str("undeclared function");
                push_str(&mut m, op.s.as_str());
                push_str(&mut m, ", line:");
                return (false, Err(line_msg(m.as_str(), line)));
            }
            if str_equal(externs[0].name.as_str(), op.s.as_str()) {
                push_ty(stack, externs[0].type_of());
            }
            (false, Ok(()))
        },
    }
}

/// Type-checks a function's operations (see `spec_validate`), turning identifiers
/// that name callable functions into function operations.
pub fn validate_function(comp: &mut Compiler, func: &mut IrFunc) -> (r: Result<(), String>)
    requires
        !(spec_validate(old(comp)@, old(func)@) is Panics),
    ensures
        final(comp)@ == old(comp)@,
        final(func).rv == old(func).rv,
        final(func).args == old(func).args,
        final(func).name == old(func).name,
        match spec_validate(old(comp)@, old(func)@) {
            VRes::Checked(ins) => r is Ok && oprs_view(final(func).ins@) == ins,
            VRes::Rejected(ins, m) => r matches Err(e) && msg_ok(e@, m) && oprs_view(final(func).ins@) == ins,
            VRes::Panics => false,
        },
{
    match try_validate_function(comp, func) {
        Some(r) => r,
        None => Ok(()),
    }
}

/// Type-checks a function as `validate_function` does, but answers `None` where that
/// would panic (see `spec_validate`).
pub fn try_validate_function(comp: &mut Compiler, func: &mut IrFunc) -> (r: Option<Result<(), String>>)
    ensures
        final(comp)@ == old(comp)@,
        final(func).rv == old(func).rv,
        final(func).args == old(func).args,
        final(func).name == old(func).name,
        match spec_validate(old(comp)@, old(func)@) {
            VRes::Checked(ins) => r == Some(Ok::<(), String>(())) && oprs_view(final(func).ins@) == ins,
            VRes::Rejected(ins, m) => r matches Some(Err(e)) && msg_ok(e@, m) && oprs_view(final(func).ins@) == ins,
            VRes::Panics => r is None,
        },
{
    let ghost goal = spec_validate(comp@, func@);
    let ghost rv = ty_v(func.rv);
    let ghost ext = comp@.ir.externs;
    let mut vars: Vec<Var> = Vec::new();
    let mut a: usize = 0;
    while a < func.args.len()
        invariant
            a <= func.args@.len(),
            vars_v(vars@) == vars_v(func.args@).take(a as int),
        decreases func.args@.len() - a,
    {
        let c = copy_var(&func.args[a]);
        let ghost prev = vars@;
        vars.push(c);
        assert(vars@ =~= prev.push(c));
        assert(vars_v(vars@) =~= vars_v(prev).push(var_v(c)));
        assert(vars_v(vars@) =~= vars_v(func.args@).take(a + 1));
        a += 1;
    }
    assert(vars_v(func.args@).take(a as int) =~= vars_v(func.args@));
    let mut stack: Vec<Type> = Vec::new();
    assert(types_v(stack@) =~= seq![]);
    let mut line: usize = 0;
    let mut last_ident: Option<String> = None;
    let mut k: usize = 0;
    while k < func.ins.len()
        invariant
            k <= func.ins@.len(),
            func.rv == old(func).rv,
            func.args == old(func).args,
            func.name == old(func).name,
            rv == ty_v(func.rv),
            ext == funcs_v(comp.ir.externs@),
            comp == old(comp),
            goal == spec_validate(old(comp)@, old(func)@),
            goal == vrun(vstate(stack@, vars@, last_ident), oprs_view(func.ins@), k as int, rv, ext, line),
        decreases func.ins@.len() - k,
    {
        if func.ins[k].token.line > line {
            line = func.ins[k].token.line;
        }
        let ghost ins0 = oprs_view(func.ins@);
        let mut panicked = false;
        let (to_function, res) = check_op(
            &mut stack,
            &mut vars,
            &mut last_ident,
            &func.ins[k],
            &func.rv,
            &comp.ir.externs,
            line,
            &mut panicked,
        );
        if panicked {
            return None;
        }
        if to_function {
            let mut op = copy_opr(&func.ins[k]);
            op.t = OpType::o_function;
            func.ins.set(k, op);
        }
        assert(oprs_view(func.ins@) =~= ins0.update(k as int, rewritten(ins0[k as int], to_function)));
        if res.is_err() {
            return Some(Err(res.unwrap_err()));
        }
        k += 1;
    }
    Some(Ok(()))
}

/// How compiling a function or a program ends.
pub enum FRes {
    Done(CompilerV),
    Failed(CompilerV, VMsg),
    Panics,
}

/// A function's header as an intermediate function with no operations.
pub open spec fn header_v(f: FnV) -> IrFuncV {
    IrFuncV {
        rv: ty_v(f.rv),
        args: Seq::new(f.args.len(), |i: int| (f.args[i].0, ty_v(f.args[i].1))),
        ins: seq![],
        name: f.name,
    }
}

/// Compiling a function: in a new scope its statements are compiled, then checked
/// (see `spec_validate`); a function that passes is added to the program and the
/// scope closed. On an error the compiler keeps the state it had reached.
pub open spec fn comp_fn(c: CompilerV, f: FnV) -> FRes {
    let c1 = CompilerV { scopes: c.scopes.push(seq![]), ..c };
    let fv = header_v(f);
    match comp_list(CSt { ins: seq![], labels: c1.label_count, scopes: c1.scopes }, f.list, fv.rv) {
        COut::Done(cs) => {
            let c2 = CompilerV { label_count: cs.labels, scopes: cs.scopes, ..c1 };
            let fv2 = IrFuncV { ins: cs.ins, ..fv };
            match spec_validate(c2, fv2) {
                VRes::Checked(ins) => FRes::Done(
                    CompilerV {
                        ir: IrV { functions: c2.ir.functions.push(IrFuncV { ins, ..fv2 }), ..c2.ir },
                        scopes: if c2.scopes.len() > 0 {
                            c2.scopes.drop_last()
                        } else {
                            c2.scopes
                        },
                        ..c2
                    },
                ),
                VRes::Rejected(_, m) => FRes::Failed(c2, m),
                VRes::Panics => FRes::Panics,
            }
        },
        COut::Failed(cs) => FRes::Failed(
            CompilerV { label_count: cs.labels, scopes: cs.scopes, ..c1 },
            VMsg::Exact("attempted to return from a void function"@),
        ),
        COut::Panics => FRes::Panics,
    }
}

/// Compiling functions in order, stopping at the first that does not finish.
pub open spec fn comp_fns(c: CompilerV, fs: Seq<FnV>) -> FRes
    decreases fs.len(),
{
    if fs.len() == 0 {
        FRes::Done(c)
    } else {
        match comp_fn(c, fs[0]) {
            FRes::Done(c2) => comp_fns(c2, fs.drop_first()),
            o => o,
        }
    }
}

/// The compiler before any function is compiled: the callable functions are the
/// external ones and then the headers of the defined ones; no label used, no scope.
pub open spec fn ir_start(ctx: Context) -> CompilerV {
    let ext = Seq::new(ctx.externs@.len(), |i: int| header_v(fn_view(ctx.externs@[i])));
    let defs = Seq::new(ctx.functions@.len(), |i: int| header_v(fn_view(ctx.functions@[i])));
    CompilerV {
        ir: IrV { functions: seq![], externs: ext + defs, types: types_v(ctx.types@) },
        label_count: 0,
        scopes: seq![],
    }
}

/// A function's header as an intermediate function with no operations.
fn header_of(f: &Function) -> (r: IrFunc)
    ensures
        r@ == header_v(fn_view(*f)),
{
    let mut args: Vec<Var> = Vec::new();
    let mut i: usize = 0;
    while i < f.args.len()
        invariant
            i <= f.args@.len(),
            vars_v(args@) == header_v(fn_view(*f)).args.take(i as int),
        decreases f.args@.len() - i,
    {
        let v = Var { name: f.args[i].name.clone(), vt: copy_ty(&f.args[i].vtype) };
        let ghost prev = args@;
        args.push(v);
        assert(args@ =~= prev.push(v));
        assert(vars_v(args@) =~= vars_v(prev).push(var_v(v)));
        assert(vars_v(args@) =~= header_v(fn_view(*f)).args.take(i + 1));
        i += 1;
    }
    assert(header_v(fn_view(*f)).args.take(i as int) =~= header_v(fn_view(*f)).args);
    let r = IrFunc { rv: copy_ty(&f.return_type), args, ins: Vec::new(), name: f.name.clone() };
    assert(oprs_view(r.ins@) =~= seq![]);
    r
}

/// Compiles a function into the program (see `comp_fn`).
pub fn compile_function(comp: &mut Compiler, func: &Function) -> (r: Result<(), String>)
    requires
        !(comp_fn(old(comp)@, fn_view(*func)) is Panics),
    ensures
        match comp_fn(old(comp)@, fn_view(*func)) {
            FRes::Done(c) => r is Ok && final(comp)@ == c,
            FRes::Failed(c, m) => r matches Err(e) && msg_ok(e@, m) && final(comp)@ == c,
            FRes::Panics => false,
        },
{
    match try_compile_function(comp, func) {
        Some(r) => r,
        None => Ok(()),
    }
}

/// Compiles a program (see `ir_start` and `comp_fns`).
pub fn compile_to_ir(context: &Context) -> (r: Result<Ir, String>)
    requires
        !(comp_fns(ir_start(*context), fns_view_of(context.functions@)) is Panics),
    ensures
        match comp_fns(ir_start(*context), fns_view_of(context.functions@)) {
            FRes::Done(c) => r is Ok && r->Ok_0@ == c.ir,
            FRes::Failed(_, m) => r matches Err(e) && msg_ok(e@, m),
            FRes::Panics => false,
        },
{
    match try_compile_to_ir(context) {
        Some(r) => r,
        None => Err(String::new()),
    }
}

/// Compiles a function as `compile_function` does, but answers `None` where that
/// would panic (see `comp_fn`).
pub fn try_compile_function(comp: &mut Compiler, func: &Function) -> (r: Option<Result<(), String>>)
    ensures
        match comp_fn(old(comp)@, fn_view(*func)) {
            FRes::Done(c) => r == Some(Ok::<(), String>(())) && final(comp)@ == c,
            FRes::Failed(c, m) => (r matches Some(Err(e)) && msg_ok(e@, m)) && final(comp)@ == c,
            FRes::Panics => r is None,
        },
{
    comp.push_scope();
    let mut funct = header_of(func);
    let ghost fv = header_v(fn_view(*func));
    assert(stmts_view(func.list@) == fn_view(*func).list);
    let r = try_compile_list(comp, &mut funct, &func.list);
    match r {
        Some(Ok(())) => {},
        _ => {
            return r;
        },
    }
    let r = try_validate_function(comp, &mut funct);
    match r {
        Some(Ok(())) => {},
        _ => {
            return r;
        },
    }
    let ghost before = comp@;
    comp.ir.functions.push(funct);
    assert(funcs_v(comp.ir.functions@) =~= before.ir.functions.push(funct@));
    comp.pop_scope();
    Some(Ok(()))
}

/// Compiles a program as `compile_to_ir` does, but answers `None` where that would
/// panic: the check to make before calling it.
pub fn try_compile_to_ir(context: &Context) -> (r: Option<Result<Ir, String>>)
    ensures
        match comp_fns(ir_start(*context), fns_view_of(context.functions@)) {
            FRes::Done(c) => r matches Some(Ok(ir)) && ir@ == c.ir,
            FRes::Failed(_, m) => r matches Some(Err(e)) && msg_ok(e@, m),
            FRes::Panics => r is None,
        },
{
    let ghost start = ir_start(*context);
    let mut externs: Vec<IrFunc> = Vec::new();
    let mut i: usize = 0;
    while i < context.externs.len()
        invariant
            i <= context.externs@.len(),
            funcs_v(externs@) == start.ir.externs.take(i as int),
            start == ir_start(*context),
        decreases context.externs@.len() - i,
    {
        let h = header_of(&context.externs[i]);
        let ghost prev = externs@;
        externs.push(h);
        assert(externs@ =~= prev.push(h));
        assert(funcs_v(externs@) =~= funcs_v(prev).push(h@));
        assert(funcs_v(externs@) =~= start.ir.externs.take(i + 1));
        i += 1;
    }
    let mut j: usize = 0;
    while j < context.functions.len()
        invariant
            j <= context.functions@.len(),
            i == context.externs@.len(),
            funcs_v(externs@) == start.ir.externs.take(i + j),
            start == ir_start(*context),
        decreases context.functions@.len() - j,
    {
        let h = header_of(&context.functions[j]);
        let ghost prev = externs@;
        externs.push(h);
        assert(externs@ =~= prev.push(h));
        assert(funcs_v(externs@) =~= funcs_v(prev).push(h@));
        assert(funcs_v(externs@) =~= start.ir.externs.take(i + j + 1));
        j += 1;
    }
    assert(start.ir.externs.take(i + j) =~= start.ir.externs);
    let mut types: Vec<Type> = Vec::new();
    let mut t: usize = 0;
    while t < context.types.len()
        invariant
            t <= context.types@.len(),
            types_v(types@) == types_v(context.types@).take(t as int),
        decreases context.types@.len() - t,
    {
        let c = copy_ty(&context.types[t]);
        let ghost prev = types@;
        types.push(c);
        assert(types@ =~= prev.push(c));
        assert(types_v(types@) =~= types_v(prev).push(ty_v(c)));
        assert(types_v(types@) =~= types_v(context.types@).take(t + 1));
        t += 1;
    }
    assert(types_v(context.types@).take(t as int) =~= types_v(context.types@));
    let mut comp = Compiler {
        ir: Ir { functions: Vec::new(), externs, types },
        label_count: 0,
        scopes: Vec::new(),
    };
    assert(comp@.ir.functions =~= seq![]);
    assert(comp@.scopes =~= seq![]);
    assert(comp@ == start);
    let ghost fs = fns_view_of(context.functions@);
    let ghost goal = comp_fns(start, fs);
    let mut k: usize = 0;
    assert(fs.skip(0) =~= fs);
    while k < context.functions.len()
        invariant
            k <= context.functions@.len(),
            fs == fns_view_of(context.functions@),
            fs.len() == context.functions@.len(),
            goal == comp_fns(comp@, fs.skip(k as int)),
            goal == comp_fns(ir_start(*context), fns_view_of(context.functions@)),
        decreases context.functions@.len() - k,
    {
        assert(fs.skip(k as int).drop_first() =~= fs.skip(k + 1));
        assert(fs.skip(k as int)[0] == fn_view(context.functions@[k as int]));
        let ghost cb = comp@;
        let ghost rest = fs.skip(k as int);
        assert(comp_fns(cb, rest) == match comp_fn(cb, rest[0]) {
            FRes::Done(c2) => comp_fns(c2, rest.drop_first()),
            o => o,
        });
        let r = try_compile_function(&mut comp, &context.functions[k]);
        match r {
            Some(Ok(())) => {},
            Some(Err(e)) => {
                return Some(Err(e));
            },
            None => {
                return None;
            },
        }
        k += 1;
    }
    Some(Ok(comp.ir))
}

/// The models of a list of functions.
pub open spec fn fns_view_of(s: Seq<Function>) -> Seq<FnV> {
    Seq::new(s.len(), |i: int| fn_view(s[i]))
}

} // verus!
