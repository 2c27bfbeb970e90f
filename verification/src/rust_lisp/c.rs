//! The C code generator: names of types, functions and variables, and the text of
//! instructions, functions and whole programs.
use crate::rust_lisp::compiler::{
    fn_table_view, funcs_view, inss_view, lemma_body_views, opt_view, tys_view, var_type, vars_view,
    CallV, Callable, Compiler, Function, FunctionV, InsV, Instruction, TyV, Type, Var, VarV,
};
use crate::text::{decimal, i64_to_string, push_char, push_decimal, push_str, signed_decimal, str_equal};
use vstd::prelude::*;

verus! {

/// The C name of local variable number `idx`: `x` followed by the number.
pub fn mangle_var(idx: usize) -> (r: String)
    ensures
        r@ == seq!['x'] + decimal(idx as nat),
{
    let mut out = String::new();
    push_char(&mut out, 'x');
    push_decimal(&mut out, idx as u64);
    out
}

/// `depth` spaces.
pub open spec fn spaces(depth: nat) -> Seq<char> {
    Seq::new(depth, |i: int| ' ')
}

/// `depth` spaces.
pub fn indent(depth: usize) -> (r: String)
    ensures
        r@ == spaces(depth as nat),
{
    let mut out = String::new();
    let mut i: usize = 0;
    while i < depth
        invariant
            i <= depth,
            out@ == spaces(i as nat),
        decreases depth - i,
    {
        push_char(&mut out, ' ');
        i += 1;
        assert(out@ =~= spaces(i as nat));
    }
    out
}

/// The C type of a type: strings, integers, characters, doubles and void have one.
pub open spec fn c_type(t: TyV) -> Option<Seq<char>> {
    match t {
        TyV::String => Some("bug_string"@),
        TyV::Integer => Some("long"@),
        TyV::Char => Some("char"@),
        TyV::Double => Some("double"@),
        TyV::Void => Some("void"@),
        _ => None,
    }
}

/// The C type of `vtype` (see `c_type`).
pub fn mangle_type(vtype: &Type) -> (r: String)
    requires
        c_type(vtype@) is Some,
    ensures
        r@ == c_type(vtype@)->Some_0,
{
    match vtype {
        Type::String => String::from_str("bug_string"),
        Type::Integer => String::from_str("long"),
        Type::Char => String::from_str("char"),
        Type::Double => String::from_str("double"),
        _ => String::from_str("void"),
    }
}

/// The C types of the first `n` types, one after the other.
pub open spec fn c_types(ts: Seq<TyV>, n: nat) -> Option<Seq<char>>
    decreases n,
{
    if n == 0 {
        Some(seq![])
    } else {
        match (c_types(ts, (n - 1) as nat), c_type(ts[n - 1])) {
            (Some(a), Some(b)) => Some(a + b),
            _ => None,
        }
    }
}

/// The C name of the function `name` with these argument types: `bug_`, the name,
/// then the C types of the arguments.
pub open spec fn c_function_name(name: Seq<char>, args: Seq<TyV>) -> Option<Seq<char>> {
    match c_types(args, args.len()) {
        Some(t) => Some("bug_"@ + name + t),
        None => None,
    }
}

/// The C name of `func` under `name` (see `c_function_name`).
pub fn mangle_function(name: &str, func: &Function) -> (r: String)
    requires
        c_function_name(name@, func@.arguments) is Some,
    ensures
        r@ == c_function_name(name@, func@.arguments)->Some_0,
{
    let ghost ts = func@.arguments;
    let mut base = String::from_str("bug_");
    push_str(&mut base, name);
    let mut i: usize = 0;
    while i < func.arguments.len()
        invariant
            i <= func.arguments@.len(),
            ts == tys_view(func.arguments@),
            c_function_name(name@, ts) is Some,
            c_types(ts, i as nat) is Some,
            base@ == "bug_"@ + name@ + c_types(ts, i as nat)->Some_0,
        decreases func.arguments@.len() - i,
    {
        proof {
            lemma_c_types_prefix(ts, (i + 1) as nat, ts.len());
        }
        let t = mangle_type(&func.arguments[i]);
        push_str(&mut base, t.as_str());
        i += 1;
        assert(base@ =~= "bug_"@ + name@ + c_types(ts, i as nat)->Some_0);
    }
    base
}

proof fn lemma_c_types_prefix(ts: Seq<TyV>, k: nat, n: nat)
    requires
        k <= n,
        c_types(ts, n) is Some,
    ensures
        c_types(ts, k) is Some,
    decreases n,
{
    if k < n {
        lemma_c_types_prefix(ts, k, (n - 1) as nat);
    }
}

/// The C text of a variable: `x` and the number of a local, a string literal handed to
/// `to_bug_string`, an integer in decimal, a double's printed form, `true` or
/// `false`; other variables have none.
pub open spec fn c_var(v: VarV) -> Option<Seq<char>> {
    match v {
        VarV::Basic { idx, .. } => Some(seq!['x'] + decimal(idx as nat)),
        VarV::StringLiteral(s) => Some("to_bug_string("@ + s + ")"@),
        VarV::IntegerLiteral(n) => Some(signed_decimal(n as int)),
        VarV::DoubleLiteral(s) => Some(s),
        VarV::BoolLiteral(b) => Some(
            if b {
                "true"@
            } else {
                "false"@
            },
        ),
        _ => None,
    }
}

/// The C text of `var` (see `c_var`).
pub fn write_var(var: &Var) -> (r: String)
    requires
        c_var(var@) is Some,
    ensures
        r@ == c_var(var@)->Some_0,
{
    match var {
        Var::Basic { idx, .. } => mangle_var(*idx),
        Var::StringLiteral { v } => {
            let mut out = String::from_str("to_bug_string(");
            push_str(&mut out, v.as_str());
            push_str(&mut out, ")");
            out
        },
        Var::IntegerLiteral { v } => i64_to_string(*v),
        Var::DoubleLiteral { v } => v.clone(),
        Var::BoolLiteral { v } => {
            if *v {
                String::from_str("true")
            } else {
                String::from_str("false")
            }
        },
        _ => String::new(),
    }
}

/// The C texts of the first `n` arguments, each but the last followed by a comma.
pub open spec fn c_args(args: Seq<VarV>, n: nat) -> Option<Seq<char>>
    decreases n,
{
    if n == 0 {
        Some(seq![])
    } else {
        match (c_args(args, (n - 1) as nat), c_var(args[n - 1])) {
            (Some(a), Some(b)) => Some(
                a + b + if n < args.len() {
                    ","@
                } else {
                    seq![]
                },
            ),
            _ => None,
        }
    }
}

/// The types of the variables, where each has one.
pub open spec fn arg_types(args: Seq<VarV>, n: nat) -> Option<Seq<TyV>>
    decreases n,
{
    if n == 0 {
        Some(seq![])
    } else {
        match (arg_types(args, (n - 1) as nat), var_type(args[n - 1])) {
            (Some(a), Some(b)) => Some(a.push(b)),
            _ => None,
        }
    }
}

/// The functions whose calls are written as C operators.
pub open spec fn is_c_operator(name: Seq<char>) -> bool {
    name == "+"@ || name == "-"@ || name == "/"@ || name == "*"@ || name == "=="@ || name == "<="@ || name
        == ">="@
}

/// What goes before a call: the output and ` = `, unless the output's type is void or
/// there is no output.
pub open spec fn c_call_target(output: Option<VarV>) -> Option<Seq<char>> {
    match output {
        None => Some(seq![]),
        Some(p) => match var_type(p) {
            None => None,
            Some(t) => if t == TyV::Void {
                Some(seq![])
            } else {
                match c_var(p) {
                    Some(w) => Some(w + " = "@),
                    None => None,
                }
            },
        },
    }
}

/// The call itself: an operator between the first two arguments, or the callee's C
/// name (a function's name follows its arguments' types, and the call needs an output
/// with a type) and the arguments in parentheses.
pub open spec fn c_call(to_call: CallV, args: Seq<VarV>, output: Option<VarV>) -> Option<Seq<char>> {
    let list = c_args(args, args.len());
    match to_call {
        CallV::Variable(v) => match (c_var(v), list) {
            (Some(w), Some(a)) => Some(w + "("@ + a + ");\n"@),
            _ => None,
        },
        CallV::Function(name) => if is_c_operator(name) {
            if args.len() >= 2 {
                match (c_var(args[0]), c_var(args[1])) {
                    (Some(a), Some(b)) => Some(a + name + b + ";\n"@),
                    _ => None,
                }
            } else {
                None
            }
        } else {
            match output {
                None => None,
                Some(p) => match (var_type(p), arg_types(args, args.len())) {
                    (Some(_), Some(ts)) => match (c_function_name(name, ts), list) {
                        (Some(f), Some(a)) => Some(f + "("@ + a + ");\n"@),
                        _ => None,
                    },
                    _ => None,
                },
            }
        },
    }
}

/// The C text of an instruction indented by `depth`: the bodies of loops and
/// branches are indented four more (the depth must stay within `usize`).
pub open spec fn c_ins(depth: nat, i: InsV) -> Option<Seq<char>>
    decreases i, 0nat,
{
    let pad = spaces(depth);
    match i {
        InsV::FunctionCall { to_call, arguments, output } => match (
            c_call_target(output),
            c_call(to_call, arguments, output),
        ) {
            (Some(l), Some(c)) => Some(pad + l + c),
            _ => None,
        },
        InsV::Loop { condition, to_do } => if depth + 4 > usize::MAX {
            None
        } else {
            match (c_var(condition), c_inss(depth + 4, to_do)) {
                (Some(c), Some(b)) => Some(pad + "while("@ + c + "){"@ + b + pad + "}\n"@),
                _ => None,
            }
        },
        InsV::Branch { condition, if_true, if_false } => if depth + 4 > usize::MAX {
            None
        } else {
            match (c_var(condition), c_inss(depth + 4, if_true), c_inss(depth + 4, if_false)) {
                (Some(c), Some(t), Some(f)) => Some(
                    pad + "if("@ + c + "){"@ + t + pad + "} else {\n"@ + f + pad + "}\n"@,
                ),
                _ => None,
            }
        },
        InsV::Declare(v) => match v {
            VarV::Basic { idx, vtype, .. } => if vtype == TyV::Void {
                Some(seq![])
            } else {
                match c_type(vtype) {
                    Some(t) => Some(pad + t + " "@ + seq!['x'] + decimal(idx as nat) + ";\n"@),
                    None => None,
                }
            },
            _ => None,
        },
        InsV::Assignment { left, right } => match (c_var(left), c_var(right)) {
            (Some(l), Some(r)) => Some(pad + l + " = "@ + r + ";\n"@),
            _ => None,
        },
        InsV::Return(to_return) => match to_return {
            Some(v) => match c_var(v) {
                Some(w) => Some(pad + "return "@ + w + ";\n"@),
                None => None,
            },
            None => Some(pad + "return;\n"@),
        },
    }
}

/// The C texts of a list of instructions, one after the other.
pub open spec fn c_inss(depth: nat, s: Seq<InsV>) -> Option<Seq<char>>
    decreases s, 1nat,
{
    if s.len() == 0 {
        Some(seq![])
    } else {
        proof {
            assert(decreases_to!(s => s.subrange(0, s.len() - 1)));
        }
        match (c_inss(depth, s.subrange(0, s.len() - 1)), c_ins(depth, s[s.len() - 1])) {
            (Some(a), Some(b)) => Some(a + b),
            _ => None,
        }
    }
}

proof fn lemma_c_args_prefix(args: Seq<VarV>, k: nat, n: nat)
    requires
        k <= n,
        c_args(args, n) is Some,
    ensures
        c_args(args, k) is Some,
    decreases n,
{
    if k < n {
        lemma_c_args_prefix(args, k, (n - 1) as nat);
    }
}

proof fn lemma_arg_types_len(args: Seq<VarV>, n: nat)
    requires
        arg_types(args, n) is Some,
    ensures
        arg_types(args, n)->Some_0.len() == n,
    decreases n,
{
    if n > 0 {
        lemma_arg_types_len(args, (n - 1) as nat);
    }
}

proof fn lemma_arg_types_prefix(args: Seq<VarV>, k: nat, n: nat)
    requires
        k <= n <= args.len(),
        arg_types(args, n) is Some,
    ensures
        arg_types(args, k) is Some,
        arg_types(args, k)->Some_0.len() == k,
        arg_types(args, n)->Some_0.take(k as int) == arg_types(args, k)->Some_0,
    decreases n,
{
    lemma_arg_types_len(args, n);
    if k < n {
        lemma_arg_types_prefix(args, k, (n - 1) as nat);
        lemma_arg_types_len(args, (n - 1) as nat);
        let p = arg_types(args, (n - 1) as nat)->Some_0;
        assert(arg_types(args, n)->Some_0 == p.push(var_type(args[n - 1])->Some_0));
        assert(arg_types(args, n)->Some_0.take(k as int) =~= p.take(k as int));
    } else {
        assert(arg_types(args, n)->Some_0.take(k as int) =~= arg_types(args, n)->Some_0);
    }
}

/// Appends the arguments' C texts, separated by commas.
fn write_args(out: &mut String, args: &Vec<Var>)
    requires
        c_args(vars_view(args@), args@.len() as nat) is Some,
    ensures
        final(out)@ == old(out)@ + c_args(vars_view(args@), args@.len() as nat)->Some_0,
{
    let ghost vs = vars_view(args@);
    let mut i: usize = 0;
    while i < args.len()
        invariant
            i <= args@.len(),
            vs == vars_view(args@),
            c_args(vs, vs.len()) is Some,
            c_args(vs, i as nat) is Some,
            out@ == old(out)@ + c_args(vs, i as nat)->Some_0,
        decreases args@.len() - i,
    {
        proof {
            lemma_c_args_prefix(vs, (i + 1) as nat, vs.len());
        }
        let w = write_var(&args[i]);
        push_str(out, w.as_str());
        if i < args.len() - 1 {
            push_str(out, ",");
        }
        i += 1;
        assert(out@ =~= old(out)@ + c_args(vs, i as nat)->Some_0);
    }
}

/// The types of the arguments (see `arg_types`).
fn types_of(args: &Vec<Var>) -> (r: Vec<Type>)
    requires
        arg_types(vars_view(args@), args@.len() as nat) is Some,
    ensures
        tys_view(r@) == arg_types(vars_view(args@), args@.len() as nat)->Some_0,
{
    let ghost vs = vars_view(args@);
    let mut r: Vec<Type> = Vec::new();
    let mut i: usize = 0;
    while i < args.len()
        invariant
            i <= args@.len(),
            vs == vars_view(args@),
            arg_types(vs, vs.len()) is Some,
            arg_types(vs, i as nat) is Some,
            tys_view(r@) == arg_types(vs, i as nat)->Some_0,
        decreases args@.len() - i,
    {
        proof {
            lemma_arg_types_prefix(vs, (i + 1) as nat, vs.len());
        }
        let t = args[i].get_type();
        r.push(t);
        i += 1;
        assert(tys_view(r@) =~= arg_types(vs, i as nat)->Some_0);
    }
    r
}

/// Whether calls of `name` are written as C operators.
fn is_operator(name: &str) -> (r: bool)
    ensures
        r == is_c_operator(name@),
{
    str_equal(name, "+") || str_equal(name, "-") || str_equal(name, "/") || str_equal(name, "*")
        || str_equal(name, "==") || str_equal(name, "<=") || str_equal(name, ">=")
}

proof fn lemma_c_inss_take(depth: nat, s: Seq<InsV>, i: int)
    requires
        0 <= i < s.len(),
        c_inss(depth, s) is Some,
    ensures
        c_inss(depth, s.take(i)) is Some,
        c_ins(depth, s[i]) is Some,
        c_inss(depth, s.take(i + 1)) == Some(c_inss(depth, s.take(i))->Some_0 + c_ins(depth, s[i])->Some_0),
    decreases s.len(),
{
    assert(s.take(i + 1).subrange(0, i) =~= s.take(i));
    if i == s.len() - 1 {
        assert(s.take(i + 1) =~= s);
        assert(s.subrange(0, s.len() - 1) =~= s.take(i));
    } else {
        let t = s.subrange(0, s.len() - 1);
        lemma_c_inss_take(depth, t, i);
        assert(t.take(i) =~= s.take(i));
        assert(t.take(i + 1) =~= s.take(i + 1));
    }
}

/// The C text of a list of instructions (see `c_inss`).
fn compile_instructions(depth: usize, v: &Vec<Instruction>) -> (r: String)
    requires
        c_inss(depth as nat, inss_view(v@)) is Some,
    ensures
        r@ == c_inss(depth as nat, inss_view(v@))->Some_0,
    decreases v, 1nat,
{
    let ghost s = inss_view(v@);
    let mut out = String::new();
    let mut i: usize = 0;
    assert(s.take(0) =~= seq![]);
    while i < v.len()
        invariant
            i <= v@.len(),
            s == inss_view(v@),
            c_inss(depth as nat, s) is Some,
            c_inss(depth as nat, s.take(i as int)) is Some,
            out@ == c_inss(depth as nat, s.take(i as int))->Some_0,
        decreases v@.len() - i,
    {
        proof {
            lemma_c_inss_take(depth as nat, s, i as int);
            assert(decreases_to!(v => v@));
            assert(decreases_to!(v@ => v@[i as int]));
        }
        let t = compile_instruction(depth, &v[i]);
        push_str(&mut out, t.as_str());
        i += 1;
    }
    assert(s.take(i as int) =~= s);
    out
}

/// The C text of an instruction indented by `depth` (see `c_ins`).
pub fn compile_instruction(depth: usize, instruction: &Instruction) -> (r: String)
    requires
        c_ins(depth as nat, instruction@) is Some,
    ensures
        r@ == c_ins(depth as nat, instruction@)->Some_0,
    decreases instruction, 0nat,
{
    proof {
        lemma_body_views(*instruction);
    }
    let mut out = indent(depth);
    match instruction {
        Instruction::FunctionCall { to_call, arguments, output } => {
            let ghost args = vars_view(arguments@);
            match output {
                Some(p) => {
                    let t = p.get_type();
                    match t {
                        Type::Void => {},
                        _ => {
                            let w = write_var(p);
                            push_str(&mut out, w.as_str());
                            push_str(&mut out, " = ");
                        },
                    }
                },
                None => {},
            }
            let ghost before = out@;
            match to_call {
                Callable::Variable { v } => {
                    let w = write_var(v);
                    push_str(&mut out, w.as_str());
                    push_str(&mut out, "(");
                    write_args(&mut out, arguments);
                    push_str(&mut out, ");\n");
                },
                Callable::Function { v } => {
                    if is_operator(v.as_str()) {
                        let a = write_var(&arguments[0]);
                        let b = write_var(&arguments[1]);
                        push_str(&mut out, a.as_str());
                        push_str(&mut out, v.as_str());
                        push_str(&mut out, b.as_str());
                        push_str(&mut out, ";\n");
                    } else {
                        let ret = match output {
                            Some(p) => p.get_type(),
                            None => Type::Void,
                        };
                        let f = Function { return_type: ret, arguments: types_of(arguments), ins: Vec::new(), external: true };
                        let m = mangle_function(v.as_str(), &f);
                        push_str(&mut out, m.as_str());
                        push_str(&mut out, "(");
                        write_args(&mut out, arguments);
                        push_str(&mut out, ");\n");
                    }
                },
            }
            assert(out@ =~= c_ins(depth as nat, instruction@)->Some_0);
        },
        Instruction::Loop { condition, to_do } => {
            let c = write_var(condition);
            push_str(&mut out, "while(");
            push_str(&mut out, c.as_str());
            push_str(&mut out, "){");
            proof {
                assert(decreases_to!(instruction => to_do));
            }
            let b = compile_instructions(depth + 4, to_do);
            push_str(&mut out, b.as_str());
            let pad = indent(depth);
            push_str(&mut out, pad.as_str());
            push_str(&mut out, "}\n");
            assert(out@ =~= c_ins(depth as nat, instruction@)->Some_0);
        },
        Instruction::Branch { condition, if_true, if_false } => {
            let c = write_var(condition);
            push_str(&mut out, "if(");
            push_str(&mut out, c.as_str());
            push_str(&mut out, "){");
            proof {
                assert(decreases_to!(instruction => if_true));
                assert(decreases_to!(instruction => if_false));
            }
            let t = compile_instructions(depth + 4, if_true);
            push_str(&mut out, t.as_str());
            let pad = indent(depth);
            push_str(&mut out, pad.as_str());
            push_str(&mut out, "} else {\n");
            let f = compile_instructions(depth + 4, if_false);
            push_str(&mut out, f.as_str());
            push_str(&mut out, pad.as_str());
            push_str(&mut out, "}\n");
            assert(out@ =~= c_ins(depth as nat, instruction@)->Some_0);
        },
        Instruction::Declare { to_declare } => {
            match to_declare {
                Var::Basic { idx, vtype, .. } => {
                    match vtype {
                        Type::Void => {
                            assert(vtype@ == TyV::Void);
                            assert(to_declare@ matches VarV::Basic { vtype: TyV::Void, .. });
                            assert(instruction@ == InsV::Declare(to_declare@));
                            assert(c_ins(depth as nat, instruction@) == Some(Seq::<char>::empty()));
                            return String::new();
                        },
                        _ => {},
                    }
                    let t = mangle_type(vtype);
                    push_str(&mut out, t.as_str());
                    push_str(&mut out, " ");
                    let x = mangle_var(*idx);
                    push_str(&mut out, x.as_str());
                    push_str(&mut out, ";\n");
                    assert(out@ =~= c_ins(depth as nat, instruction@)->Some_0);
                },
                _ => {},
            }
        },
        Instruction::Assignment { left, right } => {
            let l = write_var(left);
            let r = write_var(right);
            push_str(&mut out, l.as_str());
            push_str(&mut out, " = ");
            push_str(&mut out, r.as_str());
            push_str(&mut out, ";\n");
            assert(out@ =~= c_ins(depth as nat, instruction@)->Some_0);
        },
        Instruction::Return { to_return } => {
            match to_return {
                Some(v) => {
                    let w = write_var(v);
                    push_str(&mut out, "return ");
                    push_str(&mut out, w.as_str());
                    push_str(&mut out, ";\n");
                },
                None => {
                    push_str(&mut out, "return;\n");
                },
            }
            assert(out@ =~= c_ins(depth as nat, instruction@)->Some_0);
        },
    }
    out
}

/// The first `n` parameters of a C function: each type's C type, a space and `x` with
/// the parameter's number, each but the last followed by a comma.
pub open spec fn c_params(args: Seq<TyV>, n: nat) -> Option<Seq<char>>
    decreases n,
{
    if n == 0 {
        Some(seq![])
    } else {
        match (c_params(args, (n - 1) as nat), c_type(args[n - 1])) {
            (Some(a), Some(t)) => Some(
                a + t + " "@ + seq!['x'] + decimal((n - 1) as nat) + if n < args.len() {
                    ","@
                } else {
                    seq![]
                },
            ),
            _ => None,
        }
    }
}

/// The C text of a function under `name`, as a declaration when `external` holds
/// (`extern`, the header and a semicolon) and else as a definition whose body holds
/// its instructions indented by four.
pub open spec fn c_function(name: Seq<char>, f: FunctionV, external: bool) -> Option<Seq<char>> {
    match (c_type(f.return_type), c_function_name(name, f.arguments), c_params(f.arguments, f.arguments.len())) {
        (Some(t), Some(m), Some(p)) => {
            let header = t + " "@ + m + "("@ + p + ")"@;
            if external {
                Some("extern "@ + header + ";"@)
            } else {
                match c_inss(4, f.ins) {
                    Some(b) => Some(header + "{\n"@ + b + "}\n"@),
                    None => None,
                }
            }
        },
        _ => None,
    }
}

proof fn lemma_c_params_prefix(args: Seq<TyV>, k: nat, n: nat)
    requires
        k <= n,
        c_params(args, n) is Some,
    ensures
        c_params(args, k) is Some,
    decreases n,
{
    if k < n {
        lemma_c_params_prefix(args, k, (n - 1) as nat);
    }
}

fn compile_function_as(name: &str, func: &Function, external: bool) -> (r: String)
    requires
        c_function(name@, func@, external) is Some,
    ensures
        r@ == c_function(name@, func@, external)->Some_0,
{
    let ghost ts = func@.arguments;
    let mut out = mangle_type(&func.return_type);
    push_str(&mut out, " ");
    let m = mangle_function(name, func);
    push_str(&mut out, m.as_str());
    push_str(&mut out, "(");
    let ghost start = out@;
    let mut i: usize = 0;
    while i < func.arguments.len()
        invariant
            i <= func.arguments@.len(),
            ts == tys_view(func.arguments@),
            c_params(ts, ts.len()) is Some,
            c_params(ts, i as nat) is Some,
            out@ == start + c_params(ts, i as nat)->Some_0,
        decreases func.arguments@.len() - i,
    {
        proof {
            lemma_c_params_prefix(ts, (i + 1) as nat, ts.len());
        }
        let t = mangle_type(&func.arguments[i]);
        push_str(&mut out, t.as_str());
        push_str(&mut out, " ");
        let x = mangle_var(i);
        push_str(&mut out, x.as_str());
        if i < func.arguments.len() - 1 {
            push_str(&mut out, ",");
        }
        i += 1;
        assert(out@ =~= start + c_params(ts, i as nat)->Some_0);
    }
    push_str(&mut out, ")");
    if external {
        let mut r = String::from_str("extern ");
        push_str(&mut r, out.as_str());
        push_str(&mut r, ";");
        assert(r@ =~= c_function(name@, func@, external)->Some_0);
        r
    } else {
        push_str(&mut out, "{\n");
        let b = compile_instructions(4, &func.ins);
        push_str(&mut out, b.as_str());
        push_str(&mut out, "}\n");
        assert(out@ =~= c_function(name@, func@, external)->Some_0);
        out
    }
}

/// The C text of `func` under `name` (see `c_function`).
pub fn compile_function(name: &str, func: &Function) -> (r: String)
    requires
        c_function(name@, func@, func.external) is Some,
    ensures
        r@ == c_function(name@, func@, func.external)->Some_0,
{
    compile_function_as(name, func, func.external)
}

/// The declarations of the first `m` functions under `name`, each followed by a
/// newline.
pub open spec fn c_decls(name: Seq<char>, fs: Seq<FunctionV>, m: nat) -> Option<Seq<char>>
    decreases m,
{
    if m == 0 {
        Some(seq![])
    } else {
        match (c_decls(name, fs, (m - 1) as nat), c_function(name, fs[m - 1], true)) {
            (Some(a), Some(b)) => Some(a + b + "\n"@),
            _ => None,
        }
    }
}

/// The definitions of those of the first `m` functions under `name` that are not
/// external, each followed by a newline.
pub open spec fn c_defs(name: Seq<char>, fs: Seq<FunctionV>, m: nat) -> Option<Seq<char>>
    decreases m,
{
    if m == 0 {
        Some(seq![])
    } else {
        match c_defs(name, fs, (m - 1) as nat) {
            None => None,
            Some(a) => if fs[m - 1].external {
                Some(a)
            } else {
                match c_function(name, fs[m - 1], false) {
                    Some(b) => Some(a + b + "\n"@),
                    None => None,
                }
            },
        }
    }
}

/// Over the first `n` names of the table: the declarations (`defs` false) or the
/// definitions (`defs` true) of their functions; the operators' functions are left out.
pub open spec fn c_section(t: Seq<(Seq<char>, Seq<FunctionV>)>, n: nat, defs: bool) -> Option<Seq<char>>
    decreases n,
{
    if n == 0 {
        Some(seq![])
    } else {
        let (name, fs) = t[n - 1];
        match c_section(t, (n - 1) as nat, defs) {
            None => None,
            Some(a) => if is_c_operator(name) {
                Some(a)
            } else {
                match (if defs {
                    c_defs(name, fs, fs.len())
                } else {
                    c_decls(name, fs, fs.len())
                }) {
                    Some(b) => Some(a + b),
                    None => None,
                }
            },
        }
    }
}

/// The C program for a function table: the prelude's include, every function
/// declared, the defined functions, and a C `main` calling `bug_main` when a function
/// is named `main`.
pub open spec fn c_program(t: Seq<(Seq<char>, Seq<FunctionV>)>) -> Option<Seq<char>> {
    match (c_section(t, t.len(), false), c_section(t, t.len(), true)) {
        (Some(a), Some(b)) => Some(
            "#include \"prelude.h\"\n"@ + a + b + if exists|k: int| 0 <= k < t.len() && #[trigger] t[k].0 == "main"@ {
                "int main(int argc ,const char ** argv){ return (int)(bug_main());}"@
            } else {
                seq![]
            },
        ),
        _ => None,
    }
}

/// A C program starts with the prelude's include and, when a function is named
/// `main`, ends with the C `main` that calls it.
pub proof fn law_c_program_shape(t: Seq<(Seq<char>, Seq<FunctionV>)>)
    requires
        c_program(t) is Some,
    ensures
        ({
            let out = c_program(t)->Some_0;
            let pre = "#include \"prelude.h\"\n"@;
            let w = "int main(int argc ,const char ** argv){ return (int)(bug_main());}"@;
            &&& out.len() >= pre.len()
            &&& out.take(pre.len() as int) == pre
            &&& ((exists|k: int| 0 <= k < t.len() && #[trigger] t[k].0 == "main"@) ==> out.len() >= w.len()
                && out.skip(out.len() - w.len()) == w)
        }),
{
    let a = c_section(t, t.len(), false)->Some_0;
    let b = c_section(t, t.len(), true)->Some_0;
    let pre = "#include \"prelude.h\"\n"@;
    let w = "int main(int argc ,const char ** argv){ return (int)(bug_main());}"@;
    let out = c_program(t)->Some_0;
    let tail = if exists|k: int| 0 <= k < t.len() && #[trigger] t[k].0 == "main"@ {
        w
    } else {
        seq![]
    };
    assert(out == pre + a + b + tail);
    assert(out.take(pre.len() as int) =~= pre);
    if exists|k: int| 0 <= k < t.len() && #[trigger] t[k].0 == "main"@ {
        assert(out.skip(out.len() - w.len()) =~= w);
    }
}

proof fn lemma_c_decls_newline(name: Seq<char>, fs: Seq<FunctionV>, m: nat)
    ensures
        c_decls(name, fs, m) matches Some(x) ==> x.len() == 0 || x.last() == '\n',
    decreases m,
{
    reveal_strlit("\n");
    if m > 0 {
        lemma_c_decls_newline(name, fs, (m - 1) as nat);
    }
}

proof fn lemma_c_defs_newline(name: Seq<char>, fs: Seq<FunctionV>, m: nat)
    ensures
        c_defs(name, fs, m) matches Some(x) ==> x.len() == 0 || x.last() == '\n',
    decreases m,
{
    reveal_strlit("\n");
    if m > 0 {
        lemma_c_defs_newline(name, fs, (m - 1) as nat);
    }
}

proof fn lemma_c_section_newline(t: Seq<(Seq<char>, Seq<FunctionV>)>, n: nat, defs: bool)
    requires
        n <= t.len(),
    ensures
        c_section(t, n, defs) matches Some(x) ==> x.len() == 0 || x.last() == '\n',
    decreases n,
{
    if n > 0 {
        lemma_c_section_newline(t, (n - 1) as nat, defs);
        let (name, fs) = t[n - 1];
        lemma_c_decls_newline(name, fs, fs.len());
        lemma_c_defs_newline(name, fs, fs.len());
    }
}

/// A C program ends with the C `main` that calls `bug_main` exactly when a function is
/// named `main`.
pub proof fn law_c_main_iff(t: Seq<(Seq<char>, Seq<FunctionV>)>)
    requires
        c_program(t) is Some,
    ensures
        ({
            let out = c_program(t)->Some_0;
            let w = "int main(int argc ,const char ** argv){ return (int)(bug_main());}"@;
            (out.len() >= w.len() && out.skip(out.len() - w.len()) == w) <==> (exists|k: int|
                0 <= k < t.len() && #[trigger] t[k].0 == "main"@)
        }),
{
    law_c_program_shape(t);
    let out = c_program(t)->Some_0;
    let w = "int main(int argc ,const char ** argv){ return (int)(bug_main());}"@;
    if !(exists|k: int| 0 <= k < t.len() && #[trigger] t[k].0 == "main"@) {
        let a = c_section(t, t.len(), false)->Some_0;
        let b = c_section(t, t.len(), true)->Some_0;
        let pre = "#include \"prelude.h\"\n"@;
        lemma_c_section_newline(t, t.len(), false);
        lemma_c_section_newline(t, t.len(), true);
        reveal_strlit("#include \"prelude.h\"\n");
        reveal_strlit("int main(int argc ,const char ** argv){ return (int)(bug_main());}");
        assert(out == pre + a + b + seq![]);
        assert(out.last() == '\n');
        if out.len() >= w.len() && out.skip(out.len() - w.len()) == w {
            assert(out.skip(out.len() - w.len())[w.len() - 1] == out.last());
            assert(w.last() == '}');
        }
    }
}

/// The declaration lines of the first `m` functions under `name`, newline included.
pub open spec fn decl_lines(name: Seq<char>, fs: Seq<FunctionV>, m: nat) -> Seq<Seq<char>>
    decreases m,
{
    if m == 0 {
        seq![]
    } else {
        decl_lines(name, fs, (m - 1) as nat).push(c_function(name, fs[m - 1], true)->Some_0 + "\n"@)
    }
}

/// The declaration lines of the functions under the first `n` names of the table, the
/// operators' left out.
pub open spec fn section_decl_lines(t: Seq<(Seq<char>, Seq<FunctionV>)>, n: nat) -> Seq<Seq<char>>
    decreases n,
{
    if n == 0 {
        seq![]
    } else {
        let (name, fs) = t[n - 1];
        if is_c_operator(name) {
            section_decl_lines(t, (n - 1) as nat)
        } else {
            section_decl_lines(t, (n - 1) as nat) + decl_lines(name, fs, fs.len())
        }
    }
}

/// How many functions the first `n` names of the table hold, the operators' left out.
pub open spec fn declared_count(t: Seq<(Seq<char>, Seq<FunctionV>)>, n: nat) -> nat
    decreases n,
{
    if n == 0 {
        0
    } else {
        let (name, fs) = t[n - 1];
        declared_count(t, (n - 1) as nat) + if is_c_operator(name) {
            0
        } else {
            fs.len()
        }
    }
}

/// A declaration line: `extern` first, a semicolon and a newline last.
pub open spec fn decl_line_ok(l: Seq<char>) -> bool {
    "extern "@.is_prefix_of(l) && ";\n"@.is_suffix_of(l)
}

proof fn lemma_decl_lines(name: Seq<char>, fs: Seq<FunctionV>, m: nat)
    requires
        c_decls(name, fs, m) is Some,
    ensures
        c_decls(name, fs, m)->Some_0 == decl_lines(name, fs, m).flatten(),
        decl_lines(name, fs, m).len() == m,
        forall|k: int| 0 <= k < m ==> decl_line_ok(#[trigger] decl_lines(name, fs, m)[k]),
    decreases m,
{
    if m > 0 {
        let m1 = (m - 1) as nat;
        lemma_decl_lines(name, fs, m1);
        let d = decl_lines(name, fs, m1);
        let b = c_function(name, fs[m - 1], true)->Some_0;
        let x = b + "\n"@;
        d.lemma_flatten_push(x);
        let a = c_decls(name, fs, m1)->Some_0;
        assert(c_decls(name, fs, m)->Some_0 == a + b + "\n"@);
        assert(a + b + "\n"@ =~= a + x);
        let f = fs[m - 1];
        let header = c_type(f.return_type)->Some_0 + " "@ + c_function_name(name, f.arguments)->Some_0 + "("@
            + c_params(f.arguments, f.arguments.len())->Some_0 + ")"@;
        assert(b == "extern "@ + header + ";"@);
        reveal_strlit(";");
        reveal_strlit("\n");
        reveal_strlit(";\n");
        assert("extern "@ =~= x.subrange(0, "extern "@.len() as int));
        assert(";\n"@ =~= x.subrange(x.len() - 2, x.len() as int));
        let dd = decl_lines(name, fs, m);
        assert forall|k: int| 0 <= k < m implies decl_line_ok(#[trigger] dd[k]) by {
            if k < m1 {
                assert(dd[k] == d[k]);
            } else {
                assert(dd[k] == x);
            }
        }
    }
}

proof fn lemma_section_decl_lines(t: Seq<(Seq<char>, Seq<FunctionV>)>, n: nat)
    requires
        n <= t.len(),
        c_section(t, n, false) is Some,
    ensures
        c_section(t, n, false)->Some_0 == section_decl_lines(t, n).flatten(),
        section_decl_lines(t, n).len() == declared_count(t, n),
        forall|k: int| 0 <= k < section_decl_lines(t, n).len() ==> decl_line_ok(#[trigger] section_decl_lines(t, n)[k]),
    decreases n,
{
    if n > 0 {
        let n1 = (n - 1) as nat;
        lemma_section_decl_lines(t, n1);
        let (name, fs) = t[n - 1];
        if !is_c_operator(name) {
            lemma_decl_lines(name, fs, fs.len());
            let a = section_decl_lines(t, n1);
            let b = decl_lines(name, fs, fs.len());
            vstd::seq_lib::lemma_flatten_concat(a, b);
            let ab = section_decl_lines(t, n);
            assert(ab == a + b);
            assert forall|k: int| 0 <= k < ab.len() implies decl_line_ok(#[trigger] ab[k]) by {
                if k < a.len() {
                    assert(ab[k] == a[k]);
                } else {
                    assert(ab[k] == b[k - a.len()]);
                }
            }
        }
    }
}

/// The declarations of a C program are one line per function stored under a name that
/// is not an operator, each starting with `extern` and ending with a semicolon and a
/// newline: the program is the prelude's include, these lines, the definitions, and
/// the C `main` when there is one.
pub proof fn law_c_declarations(t: Seq<(Seq<char>, Seq<FunctionV>)>)
    requires
        c_program(t) is Some,
    ensures
        c_section(t, t.len(), false) == Some(section_decl_lines(t, t.len()).flatten()),
        section_decl_lines(t, t.len()).len() == declared_count(t, t.len()),
        forall|k: int| 0 <= k < section_decl_lines(t, t.len()).len() ==> decl_line_ok(
            #[trigger] section_decl_lines(t, t.len())[k],
        ),
{
    lemma_section_decl_lines(t, t.len());
}

proof fn lemma_c_decls_prefix(name: Seq<char>, fs: Seq<FunctionV>, k: nat, m: nat)
    requires
        k <= m,
        c_decls(name, fs, m) is Some,
    ensures
        c_decls(name, fs, k) is Some,
    decreases m,
{
    if k < m {
        lemma_c_decls_prefix(name, fs, k, (m - 1) as nat);
    }
}

proof fn lemma_c_defs_prefix(name: Seq<char>, fs: Seq<FunctionV>, k: nat, m: nat)
    requires
        k <= m,
        c_defs(name, fs, m) is Some,
    ensures
        c_defs(name, fs, k) is Some,
    decreases m,
{
    if k < m {
        lemma_c_defs_prefix(name, fs, k, (m - 1) as nat);
    }
}

proof fn lemma_c_section_prefix(t: Seq<(Seq<char>, Seq<FunctionV>)>, k: nat, n: nat, defs: bool)
    requires
        k <= n,
        c_section(t, n, defs) is Some,
    ensures
        c_section(t, k, defs) is Some,
    decreases n,
{
    if k < n {
        lemma_c_section_prefix(t, k, (n - 1) as nat, defs);
    }
}

/// Appends the declarations of the functions under one name.
fn write_decls(out: &mut String, name: &String, fs: &Vec<Function>)
    requires
        c_decls(name@, funcs_view(fs@), fs@.len() as nat) is Some,
    ensures
        final(out)@ == old(out)@ + c_decls(name@, funcs_view(fs@), fs@.len() as nat)->Some_0,
{
    let ghost v = funcs_view(fs@);
    let mut j: usize = 0;
    while j < fs.len()
        invariant
            j <= fs@.len(),
            v == funcs_view(fs@),
            c_decls(name@, v, v.len()) is Some,
            c_decls(name@, v, j as nat) is Some,
            out@ == old(out)@ + c_decls(name@, v, j as nat)->Some_0,
        decreases fs@.len() - j,
    {
        proof {
            lemma_c_decls_prefix(name@, v, (j + 1) as nat, v.len());
        }
        assert(v[j as int] == fs@[j as int]@);
        let t = compile_function_as(name.as_str(), &fs[j], true);
        push_str(out, t.as_str());
        push_str(out, "\n");
        j += 1;
        assert(out@ =~= old(out)@ + c_decls(name@, v, j as nat)->Some_0);
    }
}

/// Appends the definitions of the functions under one name that are not external.
fn write_defs(out: &mut String, name: &String, fs: &Vec<Function>)
    requires
        c_defs(name@, funcs_view(fs@), fs@.len() as nat) is Some,
    ensures
        final(out)@ == old(out)@ + c_defs(name@, funcs_view(fs@), fs@.len() as nat)->Some_0,
{
    let ghost v = funcs_view(fs@);
    let mut j: usize = 0;
    while j < fs.len()
        invariant
            j <= fs@.len(),
            v == funcs_view(fs@),
            c_defs(name@, v, v.len()) is Some,
            c_defs(name@, v, j as nat) is Some,
            out@ == old(out)@ + c_defs(name@, v, j as nat)->Some_0,
        decreases fs@.len() - j,
    {
        proof {
            lemma_c_defs_prefix(name@, v, (j + 1) as nat, v.len());
        }
        assert(v[j as int] == fs@[j as int]@);
        if !fs[j].external {
            let t = compile_function_as(name.as_str(), &fs[j], false);
            push_str(out, t.as_str());
            push_str(out, "\n");
        }
        j += 1;
        assert(out@ =~= old(out)@ + c_defs(name@, v, j as nat)->Some_0);
    }
}

/// The C program for the compiler's functions (see `c_program`).
pub fn compile_to_c(comp: &Compiler) -> (r: String)
    requires
        c_program(fn_table_view(comp.global_functions.seq())) is Some,
    ensures
        r@ == c_program(fn_table_view(comp.global_functions.seq()))->Some_0,
{
    let ghost t = fn_table_view(comp.global_functions.seq());
    let mut out = String::from_str("#include \"prelude.h\"\n");
    let ghost start = out@;
    let n = comp.global_functions.count();
    let mut i: usize = 0;
    while i < n
        invariant
            i <= n,
            n == t.len(),
            t == fn_table_view(comp.global_functions.seq()),
            c_section(t, n as nat, false) is Some,
            c_section(t, i as nat, false) is Some,
            out@ == start + c_section(t, i as nat, false)->Some_0,
        decreases n - i,
    {
        proof {
            lemma_c_section_prefix(t, (i + 1) as nat, n as nat, false);
        }
        let (name, fs) = comp.global_functions.entry(i);
        if !is_operator(name.as_str()) {
            write_decls(&mut out, name, fs);
        }
        i += 1;
        assert(out@ =~= start + c_section(t, i as nat, false)->Some_0);
    }
    let ghost mid = out@;
    let mut has_main = false;
    let mut i: usize = 0;
    while i < n
        invariant
            i <= n,
            n == t.len(),
            t == fn_table_view(comp.global_functions.seq()),
            c_section(t, n as nat, true) is Some,
            c_section(t, i as nat, true) is Some,
            out@ == mid + c_section(t, i as nat, true)->Some_0,
            has_main == exists|k: int| 0 <= k < i && #[trigger] t[k].0 == "main"@,
        decreases n - i,
    {
        proof {
            lemma_c_section_prefix(t, (i + 1) as nat, n as nat, true);
        }
        let (name, fs) = comp.global_functions.entry(i);
        if str_equal(name.as_str(), "main") {
            has_main = true;
        }
        if !is_operator(name.as_str()) {
            write_defs(&mut out, name, fs);
        }
        i += 1;
        assert(out@ =~= mid + c_section(t, i as nat, true)->Some_0);
    }
    if has_main {
        push_str(&mut out, "int main(int argc ,const char ** argv){ return (int)(bug_main());}");
    }
    assert(out@ =~= c_program(t)->Some_0);
    out
}

/// A call of one of the operators `+`, `-`, `/`, `*`, `==`, `<=`, `>=` is written, after
/// the indentation and the output's assignment, as its first argument, the operator and
/// its second argument, in that order, and a semicolon.
pub proof fn law_c_operator_call(depth: nat, name: Seq<char>, args: Seq<VarV>, output: Option<VarV>)
    requires
        name == "+"@ || name == "-"@ || name == "/"@ || name == "*"@ || name == "=="@ || name == "<="@ || name
            == ">="@,
        args.len() >= 2,
        c_var(args[0]) is Some,
        c_var(args[1]) is Some,
        c_call_target(output) is Some,
    ensures
        c_ins(depth, InsV::FunctionCall { to_call: CallV::Function(name), arguments: args, output })
            == Some(spaces(depth) + c_call_target(output)->Some_0 + c_var(args[0])->Some_0 + name + c_var(args[1])->Some_0
            + ";\n"@),
{
}

/// An assignment is written as its left side, ` = `, its right side and a semicolon;
/// a return of a value as `return`, the value and a semicolon.
pub proof fn law_c_assignment_and_return(depth: nat, left: VarV, right: VarV)
    requires
        c_var(left) is Some,
        c_var(right) is Some,
    ensures
        c_ins(depth, InsV::Assignment { left, right }) == Some(spaces(depth) + c_var(left)->Some_0 + " = "@ + c_var(
            right,
        )->Some_0 + ";\n"@),
        c_ins(depth, InsV::Return(Some(right))) == Some(spaces(depth) + "return "@ + c_var(right)->Some_0 + ";\n"@),
{
}

/// The arguments of a call are written in their order, separated by commas: those
/// of the first `n + 1` are those of the first `n`, a comma, and the next one.
pub proof fn law_c_args_in_order(args: Seq<VarV>, n: nat)
    requires
        0 < n < args.len(),
        c_args(args, n + 1) is Some,
    ensures
        c_args(args, n) is Some,
        c_var(args[n as int]) is Some,
        c_args(args, n + 1)->Some_0 == c_args(args, n)->Some_0 + (if n + 1 < args.len() {
            c_var(args[n as int])->Some_0 + ","@
        } else {
            c_var(args[n as int])->Some_0
        }),
        c_args(args, 1) == Some(c_var(args[0])->Some_0 + ","@) || args.len() == 1,
{
    assert(c_args(args, (n + 1) as nat) == match (c_args(args, n), c_var(args[n as int])) {
        (Some(a), Some(b)) => Some(a + b + if n + 1 < args.len() { ","@ } else { seq![] }),
        _ => None,
    });
    if n + 1 < args.len() {
        assert(c_args(args, n)->Some_0 + c_var(args[n as int])->Some_0 + ","@ =~= c_args(args, n)->Some_0 + (
        c_var(args[n as int])->Some_0 + ","@));
    } else {
        assert(c_args(args, n)->Some_0 + c_var(args[n as int])->Some_0 + seq![] =~= c_args(args, n)->Some_0 + c_var(
            args[n as int],
        )->Some_0);
    }
    lemma_c_args_first(args, n);
}

proof fn lemma_c_args_first(args: Seq<VarV>, n: nat)
    requires
        0 < n < args.len(),
        c_args(args, n) is Some,
    ensures
        c_args(args, 1) == Some(c_var(args[0])->Some_0 + ","@),
    decreases n,
{
    if n > 1 {
        lemma_c_args_first(args, (n - 1) as nat);
    } else {
        assert(c_args(args, 0) == Some(Seq::<char>::empty()));
        assert(seq![] + c_var(args[0])->Some_0 + ","@ =~= c_var(args[0])->Some_0 + ","@);
    }
}

} // verus!
