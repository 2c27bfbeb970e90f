//! Translation of laigo instructions into x86 assembly (Intel syntax).
use crate::laigo::laigo::{
    has_imm, imm_x86, ins_view, is_slot, mem_x86, names_view, BinopType, InsV, LaigoIns, LaigoUnit,
    OpV, UnitV,
};
use crate::text::{decimal, push_decimal, push_str, str_equal};
use vstd::prelude::*;

verus! {

/// The x86 mnemonic of an operation (the comparisons all use `cmp`).
pub open spec fn x86_op(b: BinopType) -> Seq<char> {
    match b {
        BinopType::Add => "add"@,
        BinopType::Sub => "sub"@,
        BinopType::Mul => "imul"@,
        BinopType::Div => "div"@,
        BinopType::Equal | BinopType::Greater | BinopType::Less => "cmp"@,
        BinopType::And => "and"@,
        BinopType::Or => "or"@,
        BinopType::Xor => "xor"@,
        BinopType::Unknown => seq![],
    }
}

/// The stack words that the function starting before position `i` declares: the counts of
/// its `Declare` instructions up to its `FnEnd`.
pub open spec fn frame_depth(list: Seq<InsV>, i: int) -> nat
    decreases list.len() - i,
{
    if i < 0 || i >= list.len() {
        0
    } else {
        match list[i] {
            InsV::Declare { count } => (count + frame_depth(list, i + 1)) as nat,
            InsV::FnEnd => 0,
            _ => frame_depth(list, i + 1),
        }
    }
}

/// A word count rounded up to an even number.
pub open spec fn padded(d: nat) -> nat {
    if d % 2 != 0 {
        d + 1
    } else {
        d
    }
}

/// A register, a pointer or an integer.
pub open spec fn num_or_reg(o: OpV) -> bool {
    o is Register || o is Ptr || o is Integer
}

/// The instruction at `idx` can be translated: its operands have the spellings it uses,
/// a binary operation writes a register from registers or numbers with a known operator,
/// and a function's frame size fits in a `usize`.
pub open spec fn x86_ok(list: Seq<InsV>, idx: int) -> bool {
    match list[idx] {
        InsV::Binop { output, left, right, binop_type } => {
            &&& output is Register && num_or_reg(left) && num_or_reg(right)
            &&& has_imm(output) && has_imm(left) && has_imm(right)
            &&& binop_type != BinopType::Unknown
        },
        InsV::Not { left, right } => has_imm(left) && has_imm(right),
        InsV::Assign { left, right } => if left is Register {
            has_imm(left) && if num_or_reg(right) {
                has_imm(right)
            } else {
                is_slot(right)
            }
        } else {
            right is Register && has_imm(right) && is_slot(left)
        },
        InsV::Jmp { target } => has_imm(target),
        InsV::If { condition, left, right } => has_imm(condition) && has_imm(left) && has_imm(
            right,
        ),
        InsV::Call { to_call } => has_imm(to_call),
        InsV::FnBegin => padded(frame_depth(list, idx + 1)) * 8 <= usize::MAX,
        _ => true,
    }
}

/// The x86 text of a binary operation.
pub open spec fn binop_x86(b: BinopType, out: Seq<char>, l1: Seq<char>, l2: Seq<char>) -> Seq<char> {
    let op = x86_op(b);
    if b == BinopType::Greater || b == BinopType::Less || b == BinopType::Equal {
        if out != "rax"@ {
            "   push rax\n   cmp "@ + l1 + ", "@ + l2 + "\n   setg al\n    movzx "@ + out
                + ",al\n   pop rax\n"@
        } else {
            "    cmp "@ + l1 + ", "@ + l2 + ", setg al\n"@
        }
    } else if l1 == out {
        "    "@ + op + " "@ + l1 + ", "@ + l2 + "\n"@
    } else if out != l2 {
        "    mov "@ + out + ", "@ + l1 + "\n    "@ + op + " "@ + out + ", "@ + l2 + "\n"@
    } else {
        "    push "@ + l1 + "\n    "@ + op + " "@ + l1 + ", "@ + l2 + "\n    mov "@ + l2 + ", "@ + l1
            + "\n pop "@ + l1 + "\n"@
    }
}

/// The x86 text of the instruction at `idx`.
pub open spec fn x86_text(list: Seq<InsV>, idx: int) -> Seq<char> {
    match list[idx] {
        InsV::Declare { .. } => seq![],
        InsV::Binop { output, left, right, binop_type } => binop_x86(
            binop_type,
            imm_x86(output),
            imm_x86(left),
            imm_x86(right),
        ),
        InsV::Not { left, right } => "    mov "@ + imm_x86(left) + ", "@ + imm_x86(right)
            + "\n    not "@ + imm_x86(left) + "()"@,
        InsV::Assign { left, right } => if left is Register {
            "    mov "@ + imm_x86(left) + ", "@ + (if num_or_reg(right) {
                imm_x86(right)
            } else {
                mem_x86(right)
            }) + "\n"@
        } else {
            "    mov "@ + imm_x86(right) + ", "@ + mem_x86(left) + "\n"@
        },
        InsV::Jmp { target } => "    jmp "@ + imm_x86(target) + "\n"@,
        InsV::If { condition, left, right } => "    cmp "@ + imm_x86(condition) + ",0\n     je "@
            + imm_x86(left) + "\n    jmp "@ + imm_x86(right) + "\n"@,
        InsV::Call { to_call } => "    call "@ + imm_x86(to_call) + "\n"@,
        InsV::Syscall { .. } => "    call interupt\n"@,
        InsV::Ret => "    mov rsp, rbp\n    pop rbp\n    ret"@,
        InsV::Noop => "    nop\n"@,
        InsV::FnBegin => "    push rbp\n    mov rbp, rsp\n    sub rsp, 8\n    sub rsp,"@ + decimal(
            padded(frame_depth(list, idx + 1)) * 8,
        ) + "\n"@,
        InsV::FnEnd => "mov rsp, rbp\n    pop rbp\n    ret\n"@,
    }
}

fn binop_text(b: BinopType, out: String, l1: String, l2: String) -> (r: String)
    requires
        b != BinopType::Unknown,
    ensures
        r@ == binop_x86(b, out@, l1@, l2@),
{
    let op: &str = match b {
        BinopType::Add => "add",
        BinopType::Sub => "sub",
        BinopType::Mul => "imul",
        BinopType::Div => "div",
        BinopType::Equal | BinopType::Greater | BinopType::Less => "cmp",
        BinopType::And => "and",
        BinopType::Or => "or",
        BinopType::Xor => "xor",
        BinopType::Unknown => "",
    };
    let mut s = String::new();
    if b == BinopType::Greater || b == BinopType::Less || b == BinopType::Equal {
        if !str_equal(out.as_str(), "rax") {
            push_str(&mut s, "   push rax\n   cmp ");
            push_str(&mut s, l1.as_str());
            push_str(&mut s, ", ");
            push_str(&mut s, l2.as_str());
            push_str(&mut s, "\n   setg al\n    movzx ");
            push_str(&mut s, out.as_str());
            push_str(&mut s, ",al\n   pop rax\n");
            assert(s@ =~= binop_x86(b, out@, l1@, l2@));
        } else {
            push_str(&mut s, "    cmp ");
            push_str(&mut s, l1.as_str());
            push_str(&mut s, ", ");
            push_str(&mut s, l2.as_str());
            push_str(&mut s, ", setg al\n");
            assert(s@ =~= binop_x86(b, out@, l1@, l2@));
        }
    } else if str_equal(l1.as_str(), out.as_str()) {
        push_str(&mut s, "    ");
        push_str(&mut s, op);
        push_str(&mut s, " ");
        push_str(&mut s, l1.as_str());
        push_str(&mut s, ", ");
        push_str(&mut s, l2.as_str());
        push_str(&mut s, "\n");
        assert(s@ =~= binop_x86(b, out@, l1@, l2@));
    } else if !str_equal(out.as_str(), l2.as_str()) {
        push_str(&mut s, "    mov ");
        push_str(&mut s, out.as_str());
        push_str(&mut s, ", ");
        push_str(&mut s, l1.as_str());
        push_str(&mut s, "\n    ");
        push_str(&mut s, op);
        push_str(&mut s, " ");
        push_str(&mut s, out.as_str());
        push_str(&mut s, ", ");
        push_str(&mut s, l2.as_str());
        push_str(&mut s, "\n");
        assert(s@ =~= binop_x86(b, out@, l1@, l2@));
    } else {
        push_str(&mut s, "    push ");
        push_str(&mut s, l1.as_str());
        push_str(&mut s, "\n    ");
        push_str(&mut s, op);
        push_str(&mut s, " ");
        push_str(&mut s, l1.as_str());
        push_str(&mut s, ", ");
        push_str(&mut s, l2.as_str());
        push_str(&mut s, "\n    mov ");
        push_str(&mut s, l2.as_str());
        push_str(&mut s, ", ");
        push_str(&mut s, l1.as_str());
        push_str(&mut s, "\n pop ");
        push_str(&mut s, l1.as_str());
        push_str(&mut s, "\n");
        assert(s@ =~= binop_x86(b, out@, l1@, l2@));
    }
    s
}

/// The frame size of the function starting before position `start`.
fn frame_words(list: &[LaigoIns], start: usize) -> (r: usize)
    requires
        frame_depth(ins_view(list@), start as int) <= usize::MAX,
    ensures
        r == frame_depth(ins_view(list@), start as int),
{
    let ghost v = ins_view(list@);
    let mut depth: usize = 0;
    let mut i: usize = start;
    while i < list.len()
        invariant
            v == ins_view(list@),
            start <= i <= list@.len() || i == start,
            depth + frame_depth(v, i as int) == frame_depth(v, start as int),
            frame_depth(v, start as int) <= usize::MAX,
        decreases list@.len() - i,
    {
        assert(v[i as int] == list@[i as int]@);
        match &list[i] {
            LaigoIns::Declare { count } => {
                depth += *count;
            },
            LaigoIns::FnEnd => {
                return depth;
            },
            _ => {},
        }
        i += 1;
    }
    depth
}

fn three(a: &str, b: &str, c: &str) -> (r: String)
    ensures
        r@ == a@ + b@ + c@,
{
    let mut s = String::from_str(a);
    push_str(&mut s, b);
    push_str(&mut s, c);
    s
}

/// The x86 text of the instruction at `idx` (see `x86_text`).
#[verifier::rlimit(40)]
pub fn compile_ins(ins_list: &[LaigoIns], idx: usize) -> (r: String)
    requires
        idx < ins_list@.len(),
        x86_ok(ins_view(ins_list@), idx as int),
    ensures
        r@ == x86_text(ins_view(ins_list@), idx as int),
{
    let ghost v = ins_view(ins_list@);
    assert(v[idx as int] == ins_list@[idx as int]@);
    match &ins_list[idx] {
        LaigoIns::Declare { count: _ } => String::new(),
        LaigoIns::Binop { output, left, right, binop_type } => {
            let l1 = left.get_imm_x86();
            let out = output.get_imm_x86();
            let l2 = right.get_imm_x86();
            binop_text(*binop_type, out, l1, l2)
        },
        LaigoIns::Not { left, right } => {
            let l = left.get_imm_x86();
            let mut s = three("    mov ", l.as_str(), ", ");
            push_str(&mut s, right.get_imm_x86().as_str());
            push_str(&mut s, "\n    not ");
            push_str(&mut s, l.as_str());
            push_str(&mut s, "()");
            assert(s@ =~= x86_text(v, idx as int));
            s
        },
        LaigoIns::Assign { left, right } => {
            if left.is_reg() {
                let mut s = three("    mov ", left.get_imm_x86().as_str(), ", ");
                if right.is_num_or_reg() {
                    push_str(&mut s, right.get_imm_x86().as_str());
                } else {
                    push_str(&mut s, right.get_mem_op_x86().as_str());
                }
                push_str(&mut s, "\n");
                assert(s@ =~= x86_text(v, idx as int));
                s
            } else {
                let mut s = three("    mov ", right.get_imm_x86().as_str(), ", ");
                push_str(&mut s, left.get_mem_op_x86().as_str());
                push_str(&mut s, "\n");
                assert(s@ =~= x86_text(v, idx as int));
                s
            }
        },
        LaigoIns::Jmp { target } => three("    jmp ", target.get_imm_x86().as_str(), "\n"),
        LaigoIns::If { condition, left, right } => {
            let mut s = three("    cmp ", condition.get_imm_x86().as_str(), ",0\n     je ");
            push_str(&mut s, left.get_imm_x86().as_str());
            push_str(&mut s, "\n    jmp ");
            push_str(&mut s, right.get_imm_x86().as_str());
            push_str(&mut s, "\n");
            assert(s@ =~= x86_text(v, idx as int));
            s
        },
        LaigoIns::Call { to_call } => three("    call ", to_call.get_imm_x86().as_str(), "\n"),
        LaigoIns::Syscall { call: _ } => String::from_str("    call interupt\n"),
        LaigoIns::Ret => String::from_str("    mov rsp, rbp\n    pop rbp\n    ret"),
        LaigoIns::Noop => String::from_str("    nop\n"),
        LaigoIns::FnBegin => {
            let mut depth = frame_words(ins_list, idx + 1);
            if depth % 2 != 0 {
                depth += 1;
            }
            let mut s = String::from_str("    push rbp\n    mov rbp, rsp\n    sub rsp, 8\n    sub rsp,");
            push_decimal(&mut s, (depth * 8) as u64);
            push_str(&mut s, "\n");
            s
        },
        LaigoIns::FnEnd => String::from_str("mov rsp, rbp\n    pop rbp\n    ret\n"),
    }
}

/// The `.global` lines of the global names.
pub open spec fn x86_globals(g: Seq<Seq<char>>) -> Seq<char>
    decreases g.len(),
{
    if g.len() == 0 {
        seq![]
    } else {
        x86_globals(g.drop_last()) + ".global "@ + g.last() + "\n"@
    }
}

/// The text of the first `k` instructions, each preceded by its label line if it has one.
pub open spec fn x86_body(u: UnitV, k: int) -> Seq<char>
    decreases k,
{
    if k <= 0 {
        seq![]
    } else {
        x86_body(u, k - 1) + (if u.label_indexs.dom().contains((k - 1) as usize) {
            u.label_indexs[(k - 1) as usize] + ":\n"@
        } else {
            seq![]
        }) + x86_text(u.instructions, k - 1)
    }
}

/// The x86 assembly of a unit: the header, a `.global` line per global name, then the
/// instructions with their labels.
pub open spec fn x86_program(u: UnitV) -> Seq<char> {
    ".intel_syntax noprefix\n.extern interupt\n"@ + x86_globals(u.globals) + x86_body(
        u,
        u.instructions.len() as int,
    )
}

/// The x86 assembly of a unit (see `x86_program`).
pub fn compile_text(prog: &LaigoUnit) -> (r: String)
    requires
        prog.wf(),
        forall|i: int| 0 <= i < prog@.instructions.len() ==> x86_ok(prog@.instructions, i),
    ensures
        r@ == x86_program(prog@),
{
    let mut out = String::from_str(".intel_syntax noprefix\n.extern interupt\n");
    let ghost head = out@;
    let ghost g = prog@.globals;
    let mut i: usize = 0;
    while i < prog.globals.len()
        invariant
            i <= g.len(),
            g == names_view(prog.globals@),
            out@ == head + x86_globals(g.take(i as int)),
        decreases g.len() - i,
    {
        assert(g.take(i + 1).drop_last() =~= g.take(i as int));
        assert(g[i as int] == prog.globals@[i as int]@);
        push_str(&mut out, ".global ");
        push_str(&mut out, prog.globals[i].as_str());
        push_str(&mut out, "\n");
        assert(out@ =~= head + x86_globals(g.take(i + 1)));
        i += 1;
    }
    assert(g.take(i as int) =~= g);
    let ghost head2 = out@;
    let mut i: usize = 0;
    while i < prog.instructions.len()
        invariant
            prog.wf(),
            forall|k: int| 0 <= k < prog@.instructions.len() ==> x86_ok(prog@.instructions, k),
            i <= prog@.instructions.len(),
            out@ == head2 + x86_body(prog@, i as int),
        decreases prog@.instructions.len() - i,
    {
        let ghost before = out@;
        match prog.label_indexs.get(i) {
            Some(p) => {
                push_str(&mut out, p.as_str());
                push_str(&mut out, ":\n");
            },
            None => {},
        }
        push_str(&mut out, compile_ins(prog.instructions.as_slice(), i).as_str());
        assert(out@ =~= head2 + x86_body(prog@, i + 1));
        i += 1;
    }
    out
}

/// An arithmetic or logical operation is its own mnemonic (`add`, `sub`, `imul`, `div`,
/// `and`, `or`, `xor`) applied to the output and the right operand, after the left
/// operand is moved into the output when they differ (and neither is the right
/// operand); a comparison compares the left operand with the right one and sets the
/// output's low byte with `setg`, which this back end uses for every comparison.
pub proof fn law_x86_binop_text(b: BinopType, out: Seq<char>, l1: Seq<char>, l2: Seq<char>)
    ensures
        b == BinopType::Add ==> x86_op(b) == "add"@,
        b == BinopType::Sub ==> x86_op(b) == "sub"@,
        b == BinopType::Mul ==> x86_op(b) == "imul"@,
        b == BinopType::Div ==> x86_op(b) == "div"@,
        b == BinopType::And ==> x86_op(b) == "and"@,
        b == BinopType::Or ==> x86_op(b) == "or"@,
        b == BinopType::Xor ==> x86_op(b) == "xor"@,
        !(b == BinopType::Greater || b == BinopType::Less || b == BinopType::Equal) && l1 == out ==> binop_x86(
            b,
            out,
            l1,
            l2,
        ) == "    "@ + x86_op(b) + " "@ + out + ", "@ + l2 + "\n"@,
        !(b == BinopType::Greater || b == BinopType::Less || b == BinopType::Equal) && l1 != out && out != l2
            ==> binop_x86(b, out, l1, l2) == "    mov "@ + out + ", "@ + l1 + "\n    "@ + x86_op(b) + " "@ + out
            + ", "@ + l2 + "\n"@,
        (b == BinopType::Greater || b == BinopType::Less || b == BinopType::Equal) && out != "rax"@ ==> binop_x86(
            b,
            out,
            l1,
            l2,
        ) == "   push rax\n   cmp "@ + l1 + ", "@ + l2 + "\n   setg al\n    movzx "@ + out + ",al\n   pop rax\n"@,
{
}

} // verus!
