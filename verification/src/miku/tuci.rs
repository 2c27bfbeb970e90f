//! Translation of a linked miku program into C source.
use crate::miku::miku::{
    find_func, funcs_view, has_c_dec, has_c_form, has_c_type, spec_c_dec,
    spec_c_type, use_c, uses_view, FuncDec, FuncDecV, InstrV, MikuInstr, MikuObject, OpType,
    TypeV, UseV, VarDec, VarDecV, VarUse,
};
use crate::text::push_str;
use vstd::prelude::*;

verus! {

/// The C operator of a binary operation.
pub open spec fn op_c(op: OpType) -> Seq<char> {
    match op {
        OpType::Add => "+"@,
        OpType::Sub => "-"@,
        OpType::Div => "/"@,
        OpType::Mul => "*"@,
        OpType::Or => "||"@,
        OpType::And => "&&"@,
        OpType::CmpG => ">"@,
        OpType::CmpE => "=="@,
        OpType::CmpL => "<"@,
    }
}

/// The operands' C spellings separated by commas.
pub open spec fn args_c(args: Seq<UseV>) -> Seq<char>
    decreases args.len(),
{
    if args.len() == 0 {
        seq![]
    } else if args.len() == 1 {
        use_c(args[0])
    } else {
        args_c(args.drop_last()) + ","@ + use_c(args.last())
    }
}

/// The C text of one instruction; a function's start is the declaration of the first
/// function of its name followed by `{`.
pub open spec fn instr_c(i: InstrV, funcs: Seq<FuncDecV>) -> Seq<char> {
    match i {
        InstrV::BeginFunction { name, .. } => match find_func(funcs, name) {
            Some(k) => spec_c_dec(funcs[k]) + "{\n"@,
            None => seq![],
        },
        InstrV::EndFunction { .. } => "}\n"@,
        InstrV::Label { name, .. } => name + ":\n"@,
        InstrV::Jmp { to, .. } => "    goto "@ + to + ";\n"@,
        InstrV::Branch { to_true, to_false, var, .. } => "    if ("@ + use_c(var) + "){goto "@
            + to_true + ";} else{ goto "@ + to_false + ";};\n"@,
        InstrV::Call { to, return_var, args, .. } => {
            let call = "miku_"@ + to + "("@ + args_c(args) + ");\n"@;
            match return_var {
                Some(r) => "    "@ + use_c(r) + " = "@ + call,
                None => "    "@ + call,
            }
        },
        InstrV::DeclVar { vtype, var_name, .. } => "    "@ + spec_c_type(vtype) + " "@ + var_name
            + ";\n"@,
        InstrV::Assign { left, right } => "    "@ + use_c(left) + " = "@ + use_c(right) + ";\n"@,
        InstrV::DerefAssign { left, right } => "    *"@ + use_c(left) + " = "@ + use_c(right)
            + ";\n"@,
        InstrV::GetRef { assigned_to, of } => "    "@ + use_c(assigned_to) + " = &"@ + use_c(of)
            + ";\n"@,
        InstrV::BinOp { left, right, output, operation } => "    "@ + use_c(output) + " = "@
            + use_c(left) + " "@ + op_c(operation) + " "@ + use_c(right) + ";\n"@,
        InstrV::Return { value } => match value {
            Some(v) => "    return "@ + use_c(v) + ";\n"@,
            None => "    return;\n"@,
        },
        _ => seq![],
    }
}

/// Whether every operand and type of an instruction has a C spelling.
pub open spec fn instr_has_c(i: InstrV) -> bool {
    match i {
        InstrV::Branch { var, .. } => has_c_form(var),
        InstrV::Call { return_var, args, .. } => {
            &&& (return_var matches Some(r) ==> has_c_form(r))
            &&& forall|k: int| 0 <= k < args.len() ==> has_c_form(#[trigger] args[k])
        },
        InstrV::DeclVar { vtype, .. } => has_c_type(vtype),
        InstrV::Assign { left, right } => has_c_form(left) && has_c_form(right),
        InstrV::DerefAssign { left, right } => has_c_form(left) && has_c_form(right),
        InstrV::GetRef { assigned_to, of } => has_c_form(assigned_to) && has_c_form(of),
        InstrV::BinOp { left, right, output, .. } => has_c_form(left) && has_c_form(right)
            && has_c_form(output),
        InstrV::Return { value } => value matches Some(v) ==> has_c_form(v),
        _ => true,
    }
}

/// The C text of a list of instructions.
pub open spec fn body_c(s: Seq<InstrV>, funcs: Seq<FuncDecV>) -> Seq<char>
    decreases s.len(),
{
    if s.len() == 0 {
        seq![]
    } else {
        body_c(s.drop_last(), funcs) + instr_c(s.last(), funcs)
    }
}

/// `extern name type;` for each extern variable.
pub open spec fn extern_vars_c(s: Seq<(Seq<char>, TypeV)>) -> Seq<char>
    decreases s.len(),
{
    if s.len() == 0 {
        seq![]
    } else {
        extern_vars_c(s.drop_last()) + "extern "@ + s.last().0 + " "@ + spec_c_type(s.last().1)
            + ";\n"@
    }
}

/// `name type;` for each global variable.
pub open spec fn globals_c(s: Seq<(Seq<char>, VarDecV)>) -> Seq<char>
    decreases s.len(),
{
    if s.len() == 0 {
        seq![]
    } else {
        globals_c(s.drop_last()) + s.last().0 + " "@ + spec_c_type(s.last().1.var_type) + ";\n"@
    }
}

/// The declaration of each function, each followed by `;`.
pub open spec fn decls_c(fs: Seq<FuncDecV>) -> Seq<char>
    decreases fs.len(),
{
    if fs.len() == 0 {
        seq![]
    } else {
        decls_c(fs.drop_last()) + spec_c_dec(fs.last()) + ";\n"@
    }
}

/// The extern variables of an object, in the order of its table, taken by their views.
pub open spec fn extern_var_entries(o: MikuObject) -> Seq<(Seq<char>, TypeV)> {
    o.extern_vars.seq().map_values(|e: (Seq<char>, crate::miku::miku::MikuType)| (e.0, e.1@))
}

/// The global variables of an object, in the order of its table, taken by their views.
pub open spec fn global_entries(o: MikuObject) -> Seq<(Seq<char>, VarDecV)> {
    o.global_vars.seq().map_values(|e: (Seq<char>, VarDec)| (e.0, e.1@))
}

/// The C source of a program: the prelude include, the extern variables, the globals, the
/// declarations of the extern and of the defined functions, then the instructions.
pub open spec fn tuci_text(o: MikuObject) -> Seq<char> {
    "#include \"miku_prelude.h\"\n"@ + extern_vars_c(extern_var_entries(o)) + "\n"@ + globals_c(
        global_entries(o),
    ) + "\n"@ + decls_c(o@.extern_functions) + "\n"@ + decls_c(o@.functions) + "\n"@ + body_c(
        o@.instructions,
        o@.functions,
    )
}

/// Everything that the translation prints has a C spelling.  (Floating-point and string
/// literals have none here.)
pub open spec fn tuci_ok(o: MikuObject) -> bool {
    &&& forall|k: int| 0 <= k < extern_var_entries(o).len() ==> has_c_type(#[trigger] extern_var_entries(o)[k].1)
    &&& forall|k: int| 0 <= k < global_entries(o).len() ==> has_c_type(#[trigger] global_entries(o)[k].1.var_type)
    &&& forall|k: int| 0 <= k < o@.extern_functions.len() ==> has_c_dec(#[trigger] o@.extern_functions[k])
    &&& forall|k: int| 0 <= k < o@.functions.len() ==> has_c_dec(#[trigger] o@.functions[k])
    &&& forall|k: int| 0 <= k < o@.instructions.len() ==> instr_has_c(#[trigger] o@.instructions[k])
}

fn op_text(op: OpType) -> (r: &'static str)
    ensures
        r@ == op_c(op),
{
    match op {
        OpType::Add => "+",
        OpType::Sub => "-",
        OpType::Div => "/",
        OpType::Mul => "*",
        OpType::Or => "||",
        OpType::And => "&&",
        OpType::CmpG => ">",
        OpType::CmpE => "==",
        OpType::CmpL => "<",
    }
}

fn push_use(out: &mut String, u: &VarUse)
    requires
        has_c_form(u@),
    ensures
        final(out)@ == old(out)@ + use_c(u@),
{
    push_str(out, u.as_c().as_str());
}

fn push_args(out: &mut String, args: &Vec<VarUse>)
    requires
        forall|k: int| 0 <= k < args@.len() ==> has_c_form(#[trigger] args@[k]@),
    ensures
        final(out)@ == old(out)@ + args_c(uses_view(args@)),
{
    let ghost start = out@;
    let mut i: usize = 0;
    while i < args.len()
        invariant
            i <= args@.len(),
            forall|k: int| 0 <= k < args@.len() ==> has_c_form(#[trigger] args@[k]@),
            out@ == start + args_c(uses_view(args@).take(i as int)),
        decreases args@.len() - i,
    {
        let ghost t = uses_view(args@).take(i + 1);
        assert(t.drop_last() =~= uses_view(args@).take(i as int));
        assert(t.last() == args@[i as int]@);
        if i > 0 {
            push_str(out, ",");
        }
        push_use(out, &args[i]);
        proof {
            if i == 0 {
                assert(t.len() == 1);
                assert(out@ =~= start + args_c(t));
            } else {
                assert(out@ =~= start + args_c(t));
            }
        }
        i += 1;
    }
    assert(uses_view(args@).take(i as int) =~= uses_view(args@));
}

fn find_named(fs: &Vec<FuncDec>, name: &str) -> (r: Option<usize>)
    ensures
        match r {
            Some(i) => i < fs@.len() && find_func(funcs_view(fs@), name@) == Some(i as int),
            None => find_func(funcs_view(fs@), name@) is None,
        },
{
    crate::miku::miku::find_decl(fs, name)
}

fn call_text(out: &mut String, to: &String, return_var: &Option<VarUse>, args: &Vec<VarUse>)
    requires
        return_var matches Some(r) ==> has_c_form(r@),
        forall|k: int| 0 <= k < uses_view(args@).len() ==> has_c_form(#[trigger] uses_view(args@)[k]),
    ensures
        final(out)@ == old(out)@ + instr_c(
            InstrV::Call {
                to: to@,
                to_index: None,
                return_var: crate::miku::miku::opt_use(*return_var),
                args: uses_view(args@),
            },
            seq![],
        ),
{
    push_str(out, "    ");
    match return_var {
        Some(r) => {
            push_use(out, r);
            push_str(out, " = ");
        },
        None => {},
    }
    push_str(out, "miku_");
    push_str(out, to.as_str());
    push_str(out, "(");
    assert forall|k: int| 0 <= k < args@.len() implies has_c_form(#[trigger] args@[k]@) by {
        assert(uses_view(args@)[k] == args@[k]@);
    }
    push_args(out, args);
    push_str(out, ");\n");
    let ghost call = "miku_"@ + to@ + "("@ + args_c(uses_view(args@)) + ");\n"@;
    match return_var {
        Some(r) => {
            assert(out@ =~= old(out)@ + ("    "@ + use_c(r@) + " = "@ + call));
        },
        None => {
            assert(out@ =~= old(out)@ + ("    "@ + call));
        },
    }
}

fn pair_text(out: &mut String, pre: &str, a: &VarUse, mid: &str, b: &VarUse)
    requires
        has_c_form(a@),
        has_c_form(b@),
    ensures
        final(out)@ == old(out)@ + (pre@ + use_c(a@) + mid@ + use_c(b@) + ";\n"@),
{
    push_str(out, pre);
    push_use(out, a);
    push_str(out, mid);
    push_use(out, b);
    push_str(out, ";\n");
    assert(out@ =~= old(out)@ + (pre@ + use_c(a@) + mid@ + use_c(b@) + ";\n"@));
}

fn binop_text(out: &mut String, output: &VarUse, left: &VarUse, op: OpType, right: &VarUse)
    requires
        has_c_form(output@),
        has_c_form(left@),
        has_c_form(right@),
    ensures
        final(out)@ == old(out)@ + ("    "@ + use_c(output@) + " = "@ + use_c(left@) + " "@ + op_c(
            op,
        ) + " "@ + use_c(right@) + ";\n"@),
{
    push_str(out, "    ");
    push_use(out, output);
    push_str(out, " = ");
    push_use(out, left);
    push_str(out, " ");
    push_str(out, op_text(op));
    push_str(out, " ");
    push_use(out, right);
    push_str(out, ";\n");
    assert(out@ =~= old(out)@ + ("    "@ + use_c(output@) + " = "@ + use_c(left@) + " "@ + op_c(op)
        + " "@ + use_c(right@) + ";\n"@));
}

fn three_text(out: &mut String, a: &str, b: &str, c: &str)
    ensures
        final(out)@ == old(out)@ + (a@ + b@ + c@),
{
    push_str(out, a);
    push_str(out, b);
    push_str(out, c);
    assert(out@ =~= old(out)@ + (a@ + b@ + c@));
}

/// The C text of one instruction (see `instr_c`).
#[verifier::rlimit(40)]
fn instr_text(out: &mut String, i: &MikuInstr, funcs: &Vec<FuncDec>)
    requires
        instr_has_c(i@),
        forall|k: int| 0 <= k < funcs@.len() ==> has_c_dec(#[trigger] funcs_view(funcs@)[k]),
    ensures
        final(out)@ == old(out)@ + instr_c(i@, funcs_view(funcs@)),
{
    match i {
        MikuInstr::BeginFunction { name, label_index: _ } => {
            match find_named(funcs, name.as_str()) {
                Some(k) => {
                    assert(funcs_view(funcs@)[k as int] == funcs@[k as int]@);
                    let d = funcs[k].as_c_dec();
                    push_str(out, d.as_str());
                    push_str(out, "{\n");
                    assert(out@ =~= old(out)@ + (d@ + "{\n"@));
                },
                None => {
                    assert(old(out)@ + seq![] =~= old(out)@);
                },
            }
        },
        MikuInstr::EndFunction { name: _ } => {
            push_str(out, "}\n");
        },
        MikuInstr::Label { name, label_index: _ } => {
            push_str(out, name.as_str());
            push_str(out, ":\n");
            assert(out@ =~= old(out)@ + (name@ + ":\n"@));
        },
        MikuInstr::Jmp { to, to_index: _ } => {
            three_text(out, "    goto ", to.as_str(), ";\n");
        },
        MikuInstr::Branch { to_true, to_true_index: _, to_false, to_false_index: _, var } => {
            push_str(out, "    if (");
            push_use(out, var);
            push_str(out, "){goto ");
            push_str(out, to_true.as_str());
            push_str(out, ";} else{ goto ");
            push_str(out, to_false.as_str());
            push_str(out, ";};\n");
            assert(out@ =~= old(out)@ + ("    if ("@ + use_c(var@) + "){goto "@ + to_true@
                + ";} else{ goto "@ + to_false@ + ";};\n"@));
        },
        MikuInstr::Call { to, to_index: _, return_var, args } => {
            assert(i@->Call_args == uses_view(args@));
            assert(forall|k: int| 0 <= k < i@->Call_args.len() ==> has_c_form(#[trigger] i@->Call_args[k]));
            call_text(out, to, return_var, args);
        },
        MikuInstr::DeclVar { vtype, var_name, count: _ } => {
            push_str(out, "    ");
            let t = vtype.as_c_type();
            push_str(out, t.as_str());
            three_text(out, " ", var_name.as_str(), ";\n");
            assert(out@ =~= old(out)@ + ("    "@ + t@ + " "@ + var_name@ + ";\n"@));
        },
        MikuInstr::Assign { left, right } => {
            pair_text(out, "    ", left, " = ", right);
        },
        MikuInstr::DerefAssign { left, right } => {
            pair_text(out, "    *", left, " = ", right);
        },
        MikuInstr::GetRef { assigned_to, of } => {
            pair_text(out, "    ", assigned_to, " = &", of);
        },
        MikuInstr::BinOp { left, right, output, operation } => {
            binop_text(out, output, left, *operation, right);
        },
        MikuInstr::Return { value } => {
            match value {
                Some(v) => {
                    push_str(out, "    return ");
                    push_use(out, v);
                    push_str(out, ";\n");
                    assert(out@ =~= old(out)@ + ("    return "@ + use_c(v@) + ";\n"@));
                },
                None => {
                    push_str(out, "    return;\n");
                },
            }
        },
        _ => {
            assert(old(out)@ + seq![] =~= old(out)@);
        },
    }
}


/// Whether a type has a C spelling (see `has_c_type`).
fn c_type_ok(t: &crate::miku::miku::MikuType) -> (r: bool)
    ensures
        r == has_c_type(t@),
{
    match t {
        crate::miku::miku::MikuType::Integer | crate::miku::miku::MikuType::Double
        | crate::miku::miku::MikuType::Char | crate::miku::miku::MikuType::Bool
        | crate::miku::miku::MikuType::Undefined { .. } => true,
        _ => false,
    }
}

/// Whether an operand has a C spelling (see `has_c_form`).
fn use_ok(u: &VarUse) -> (r: bool)
    ensures
        r == has_c_form(u@),
{
    match u {
        VarUse::Declared { .. } => true,
        VarUse::Literal { v } => match v {
            crate::miku::miku::MikuLiteral::String { .. } | crate::miku::miku::MikuLiteral::Double { .. } => false,
            _ => true,
        },
    }
}

/// Whether a function's declaration has a C spelling (see `has_c_dec`).
fn dec_ok(f: &FuncDec) -> (r: bool)
    ensures
        r == has_c_dec(f@),
{
    if !c_type_ok(&f.return_type) {
        return false;
    }
    let mut i: usize = 0;
    while i < f.args.len()
        invariant
            i <= f.args@.len(),
            forall|k: int| 0 <= k < i ==> has_c_type(#[trigger] f@.args[k].var_type),
        decreases f.args@.len() - i,
    {
        assert(f@.args[i as int] == f.args@[i as int]@);
        if !c_type_ok(&f.args[i].var_type) {
            assert(!has_c_type(f@.args[i as int].var_type));
            return false;
        }
        i += 1;
    }
    true
}

/// Whether an instruction has a C spelling (see `instr_has_c`).
fn instr_ok(i: &MikuInstr) -> (r: bool)
    ensures
        r == instr_has_c(i@),
{
    match i {
        MikuInstr::Branch { var, .. } => use_ok(var),
        MikuInstr::Call { return_var, args, .. } => {
            match return_var {
                Some(r) => {
                    if !use_ok(r) {
                        return false;
                    }
                },
                None => {},
            }
            let mut k: usize = 0;
            while k < args.len()
                invariant
                    k <= args@.len(),
                    i@ is Call,
                    i@->Call_args == uses_view(args@),
                    i@->Call_return_var matches Some(r) ==> has_c_form(r),
                    forall|j: int| 0 <= j < k ==> has_c_form(#[trigger] uses_view(args@)[j]),
                decreases args@.len() - k,
            {
                assert(uses_view(args@)[k as int] == args@[k as int]@);
                if !use_ok(&args[k]) {
                    assert(!has_c_form(uses_view(args@)[k as int]));
                    return false;
                }
                k += 1;
            }
            true
        },
        MikuInstr::DeclVar { vtype, .. } => c_type_ok(vtype),
        MikuInstr::Assign { left, right } => use_ok(left) && use_ok(right),
        MikuInstr::DerefAssign { left, right } => use_ok(left) && use_ok(right),
        MikuInstr::GetRef { assigned_to, of } => use_ok(assigned_to) && use_ok(of),
        MikuInstr::BinOp { left, right, output, .. } => use_ok(left) && use_ok(right) && use_ok(output),
        MikuInstr::Return { value } => match value {
            Some(v) => use_ok(v),
            None => true,
        },
        _ => true,
    }
}

/// Whether `tuci` can translate the program (see `tuci_ok`): the check to make before
/// calling it.
pub fn can_translate(prog: &MikuObject) -> (r: bool)
    ensures
        r == tuci_ok(*prog),
{
    let n = prog.extern_vars.count();
    let mut k: usize = 0;
    while k < n
        invariant
            n == extern_var_entries(*prog).len(),
            k <= n,
            forall|j: int| 0 <= j < k ==> has_c_type(#[trigger] extern_var_entries(*prog)[j].1),
        decreases n - k,
    {
        let (_, t) = prog.extern_vars.entry(k);
        if !c_type_ok(t) {
            assert(!has_c_type(extern_var_entries(*prog)[k as int].1));
            return false;
        }
        k += 1;
    }
    let n = prog.global_vars.count();
    let mut k: usize = 0;
    while k < n
        invariant
            n == global_entries(*prog).len(),
            k <= n,
            forall|j: int| 0 <= j < k ==> has_c_type(#[trigger] global_entries(*prog)[j].1.var_type),
        decreases n - k,
    {
        let (_, d) = prog.global_vars.entry(k);
        if !c_type_ok(&d.var_type) {
            assert(!has_c_type(global_entries(*prog)[k as int].1.var_type));
            return false;
        }
        k += 1;
    }
    let mut k: usize = 0;
    while k < prog.extern_functions.len()
        invariant
            k <= prog.extern_functions@.len(),
            forall|j: int| 0 <= j < k ==> has_c_dec(#[trigger] prog@.extern_functions[j]),
        decreases prog.extern_functions@.len() - k,
    {
        assert(prog@.extern_functions[k as int] == prog.extern_functions@[k as int]@);
        if !dec_ok(&prog.extern_functions[k]) {
            return false;
        }
        k += 1;
    }
    let mut k: usize = 0;
    while k < prog.functions.len()
        invariant
            k <= prog.functions@.len(),
            forall|j: int| 0 <= j < k ==> has_c_dec(#[trigger] prog@.functions[j]),
        decreases prog.functions@.len() - k,
    {
        assert(prog@.functions[k as int] == prog.functions@[k as int]@);
        if !dec_ok(&prog.functions[k]) {
            return false;
        }
        k += 1;
    }
    let mut k: usize = 0;
    while k < prog.instructions.len()
        invariant
            k <= prog.instructions@.len(),
            forall|j: int| 0 <= j < k ==> instr_has_c(#[trigger] prog@.instructions[j]),
        decreases prog.instructions@.len() - k,
    {
        assert(prog@.instructions[k as int] == prog.instructions@[k as int]@);
        if !instr_ok(&prog.instructions[k]) {
            return false;
        }
        k += 1;
    }
    true
}

/// Translates a linked program into C source (see `tuci_text`).
pub fn tuci(prog: MikuObject) -> (r: String)
    requires
        prog.wf(),
        tuci_ok(prog),
    ensures
        r@ == tuci_text(prog),
{
    let mut out = String::from_str("#include \"miku_prelude.h\"\n");
    let ghost head = out@;
    let n = prog.extern_vars.len();
    let mut i: usize = 0;
    while i < n
        invariant
            tuci_ok(prog),
            prog.wf(),
            i <= n,
            n == extern_var_entries(prog).len(),
            out@ == head + extern_vars_c(extern_var_entries(prog).take(i as int)),
        decreases n - i,
    {
        let (name, t) = prog.extern_vars.entry(i);
        let ghost e = extern_var_entries(prog);
        assert(e[i as int] == (name@, t@));
        assert(has_c_type(extern_var_entries(prog)[i as int].1));
        assert(e.take(i + 1).drop_last() =~= e.take(i as int));
        push_str(&mut out, "extern ");
        push_str(&mut out, name.as_str());
        push_str(&mut out, " ");
        push_str(&mut out, t.as_c_type().as_str());
        push_str(&mut out, ";\n");
        assert(out@ =~= head + extern_vars_c(e.take(i + 1)));
        i += 1;
    }
    assert(extern_var_entries(prog).take(i as int) =~= extern_var_entries(prog));
    push_str(&mut out, "\n");
    let ghost head2 = out@;
    let n = prog.global_vars.len();
    let mut i: usize = 0;
    while i < n
        invariant
            tuci_ok(prog),
            prog.wf(),
            i <= n,
            n == global_entries(prog).len(),
            out@ == head2 + globals_c(global_entries(prog).take(i as int)),
        decreases n - i,
    {
        let (name, d) = prog.global_vars.entry(i);
        let ghost e = global_entries(prog);
        assert(e[i as int] == (name@, d@));
        assert(has_c_type(global_entries(prog)[i as int].1.var_type));
        assert(e.take(i + 1).drop_last() =~= e.take(i as int));
        push_str(&mut out, name.as_str());
        push_str(&mut out, " ");
        push_str(&mut out, d.var_type.as_c_type().as_str());
        push_str(&mut out, ";\n");
        assert(out@ =~= head2 + globals_c(e.take(i + 1)));
        i += 1;
    }
    assert(global_entries(prog).take(i as int) =~= global_entries(prog));
    push_str(&mut out, "\n");
    let ghost head3 = out@;
    let mut i: usize = 0;
    while i < prog.extern_functions.len()
        invariant
            tuci_ok(prog),
            i <= prog@.extern_functions.len(),
            out@ == head3 + decls_c(prog@.extern_functions.take(i as int)),
        decreases prog@.extern_functions.len() - i,
    {
        let ghost e = prog@.extern_functions;
        assert(e[i as int] == prog.extern_functions@[i as int]@);
        assert(e.take(i + 1).drop_last() =~= e.take(i as int));
        push_str(&mut out, prog.extern_functions[i].as_c_dec().as_str());
        push_str(&mut out, ";\n");
        assert(out@ =~= head3 + decls_c(e.take(i + 1)));
        i += 1;
    }
    assert(prog@.extern_functions.take(i as int) =~= prog@.extern_functions);
    push_str(&mut out, "\n");
    let ghost head4 = out@;
    let mut i: usize = 0;
    while i < prog.functions.len()
        invariant
            tuci_ok(prog),
            i <= prog@.functions.len(),
            out@ == head4 + decls_c(prog@.functions.take(i as int)),
        decreases prog@.functions.len() - i,
    {
        let ghost e = prog@.functions;
        assert(e[i as int] == prog.functions@[i as int]@);
        assert(e.take(i + 1).drop_last() =~= e.take(i as int));
        push_str(&mut out, prog.functions[i].as_c_dec().as_str());
        push_str(&mut out, ";\n");
        assert(out@ =~= head4 + decls_c(e.take(i + 1)));
        i += 1;
    }
    assert(prog@.functions.take(i as int) =~= prog@.functions);
    push_str(&mut out, "\n");
    let ghost head5 = out@;
    let mut i: usize = 0;
    while i < prog.instructions.len()
        invariant
            tuci_ok(prog),
            i <= prog@.instructions.len(),
            out@ == head5 + body_c(prog@.instructions.take(i as int), prog@.functions),
        decreases prog@.instructions.len() - i,
    {
        let ghost e = prog@.instructions;
        assert(e[i as int] == prog.instructions@[i as int]@);
        assert(e.take(i + 1).drop_last() =~= e.take(i as int));
        instr_text(&mut out, &prog.instructions[i], &prog.functions);
        assert(out@ =~= head5 + body_c(e.take(i + 1), prog@.functions));
        i += 1;
    }
    assert(prog@.instructions.take(i as int) =~= prog@.instructions);
    assert(out@ =~= tuci_text(prog));
    out
}

} // verus!
