//! Translation of laigo instructions and data into ARM64 assembly.
use crate::laigo::laigo::{
    has_imm, has_mem_arm, imm_arm, ins_view, is_fp_reg, is_slot, mem_arm, names_view, BinopType,
    InsV, LaigoIns, LaigoOp, LaigoUnit, LaigoValue, OpV, UnitV, ValV,
};
use crate::laigo::x86::{frame_depth, num_or_reg, padded};
use crate::text::{decimal, push_decimal, push_str, signed_decimal};
use vstd::prelude::*;

verus! {

/// The ARM mnemonic of an operation (the comparisons all use `cmp`).
pub open spec fn arm_op(b: BinopType) -> Seq<char> {
    match b {
        BinopType::Add => "add"@,
        BinopType::Sub => "sub"@,
        BinopType::Mul => "mul"@,
        BinopType::Div => "div"@,
        BinopType::Equal | BinopType::Greater | BinopType::Less => "cmp"@,
        BinopType::And => "and"@,
        BinopType::Or => "or"@,
        BinopType::Xor => "xor"@,
        BinopType::Unknown => seq![],
    }
}

/// The instruction at `idx` can be translated: its operands have the spellings it uses,
/// a binary operation writes a register from registers or numbers with a known operator,
/// and a function's frame size fits in a `usize`.
pub open spec fn arm_ok(list: Seq<InsV>, idx: int) -> bool {
    match list[idx] {
        InsV::Binop { output, left, right, binop_type } => {
            &&& output is Register && num_or_reg(left) && num_or_reg(right)
            &&& has_imm(output) && has_imm(left) && has_imm(right)
            &&& binop_type != BinopType::Unknown
        },
        InsV::Not { left, right } => has_imm(left) && has_imm(right),
        InsV::Assign { left, right } => if left is Register {
            has_imm(left) && if num_or_reg(right) {
                has_imm(right)
            } else {
                match right {
                    OpV::TakeRef { to_take_ref } => is_slot(*to_take_ref),
                    OpV::Symbol { .. } => true,
                    _ => has_mem_arm(right),
                }
            }
        } else {
            right is Register && has_imm(right) && has_mem_arm(left)
        },
        InsV::Jmp { target } => has_imm(target),
        InsV::If { condition, left, right } => has_imm(condition) && has_imm(left) && has_imm(
            right,
        ),
        InsV::Call { to_call } => has_imm(to_call),
        InsV::FnBegin => padded(frame_depth(list, idx + 1)) * 8 <= usize::MAX,
        _ => true,
    }
}

/// The text that ends a function (and returns).
pub open spec fn arm_epilogue() -> Seq<char> {
    "    mov sp, fp\n    ldr fp, [sp, #8]\n   ldr lr, [sp, #16]\n    add sp, sp, #16\n    ret\n"@
}

/// The ARM text of the instruction at `idx`.
pub open spec fn arm_text(list: Seq<InsV>, idx: int) -> Seq<char> {
    match list[idx] {
        InsV::Declare { .. } => seq![],
        InsV::Binop { output, left, right, binop_type } => {
            let l1 = imm_arm(left);
            let l2 = imm_arm(right);
            let out = imm_arm(output);
            if binop_type == BinopType::Greater {
                "    subs "@ + l1 + ", "@ + out + ", "@ + l2 + "\n    cset "@ + out + ", gt\n"@
            } else if binop_type == BinopType::Equal {
                "    subs "@ + l1 + ", "@ + out + ", "@ + l2 + "\n    cset "@ + out + ", eq\n"@
            } else if binop_type == BinopType::Less {
                "    subs "@ + l1 + ", "@ + out + ", "@ + l2 + "\n    cset "@ + out + ", lt\n"@
            } else {
                "   "@ + arm_op(binop_type) + " "@ + out + ", "@ + l1 + ", "@ + l2 + "\n"@
            }
        },
        InsV::Not { left, right } => "    not "@ + imm_arm(right) + ", "@ + imm_arm(left) + "\n"@,
        InsV::Assign { left, right } => {
            let l = imm_arm(left);
            if left is Register {
                if num_or_reg(right) {
                    "    mov "@ + l + ", "@ + imm_arm(right) + "\n"@
                } else {
                    match right {
                        OpV::TakeRef { to_take_ref } => "    mov "@ + l + ", "@ + "fp"@ + "\n    sub "@ + l
                            + ", "@ + l + ", "@ + decimal((to_take_ref->word_offset * 8) as nat)
                            + "\n"@,
                        OpV::Symbol { v } => "   adrp "@ + l + ", _"@ + v + "@PAGE\n    add "@ + l
                            + ", "@ + l + ", _"@ + v + "@PAGEOFF\n"@,
                        _ => "   ldr "@ + l + ", "@ + mem_arm(right) + "\n"@,
                    }
                }
            } else {
                "    str "@ + imm_arm(right) + ", "@ + mem_arm(left) + "\n"@
            }
        },
        InsV::Jmp { target } => "   b "@ + imm_arm(target) + "\n"@,
        InsV::If { condition, left, right } => "    cbz "@ + imm_arm(condition) + ","@ + imm_arm(
            left,
        ) + "\n    b "@ + imm_arm(right) + "\n"@,
        InsV::Call { to_call } => if to_call is Register {
            "    blr "@ + imm_arm(to_call) + "\n"@
        } else {
            "    bl "@ + imm_arm(to_call) + "\n"@
        },
        InsV::Syscall { .. } => "    bl _interupt\n"@,
        InsV::Ret => arm_epilogue(),
        InsV::Noop => "    nop\n"@,
        InsV::FnBegin => "    sub sp, sp, #16\n    str fp, [sp, #16]\n    str lr, [sp, #16]\n    mov fp, sp\n    sub sp, sp, "@
            + decimal(padded(frame_depth(list, idx + 1)) * 8) + "\n"@,
        InsV::FnEnd => arm_epilogue(),
    }
}

fn three(a: &str, b: &str, c: &str) -> (r: String)
    ensures
        r@ == a@ + b@ + c@,
{
    let mut s = String::from_str(a);
    push_str(&mut s, b);
    push_str(&mut s, c);
    s
}

fn frame_words(list: &[LaigoIns], start: usize) -> (r: usize)
    requires
        frame_depth(ins_view(list@), start as int) <= usize::MAX,
    ensures
        r == frame_depth(ins_view(list@), start as int),
{
    let ghost v = ins_view(list@);
    let mut depth: usize = 0;
    let mut i: usize = start;
    while i < list.len()
        invariant
            v == ins_view(list@),
            start <= i <= list@.len() || i == start,
            depth + frame_depth(v, i as int) == frame_depth(v, start as int),
            frame_depth(v, start as int) <= usize::MAX,
        decreases list@.len() - i,
    {
        assert(v[i as int] == list@[i as int]@);
        match &list[i] {
            LaigoIns::Declare { count } => {
                depth += *count;
            },
            LaigoIns::FnEnd => {
                return depth;
            },
            _ => {},
        }
        i += 1;
    }
    depth
}

fn binop_text(b: BinopType, output: &LaigoOp, left: &LaigoOp, right: &LaigoOp) -> (r: String)
    requires
        has_imm(output@),
        has_imm(left@),
        has_imm(right@),
        b != BinopType::Unknown,
    ensures
        r@ == arm_text(seq![InsV::Binop { output: output@, left: left@, right: right@, binop_type: b }], 0),
{
    let l1 = left.get_imm_arm();
    let l2 = right.get_imm_arm();
    let out = output.get_imm_arm();
    if b == BinopType::Greater || b == BinopType::Equal || b == BinopType::Less {
        let mut s = three("    subs ", l1.as_str(), ", ");
        push_str(&mut s, out.as_str());
        push_str(&mut s, ", ");
        push_str(&mut s, l2.as_str());
        push_str(&mut s, "\n    cset ");
        push_str(&mut s, out.as_str());
        if b == BinopType::Greater {
            push_str(&mut s, ", gt\n");
        } else if b == BinopType::Equal {
            push_str(&mut s, ", eq\n");
        } else {
            push_str(&mut s, ", lt\n");
        }
        assert(s@ =~= arm_text(
            seq![InsV::Binop { output: output@, left: left@, right: right@, binop_type: b }],
            0,
        ));
        s
    } else {
        let op: &str = match b {
            BinopType::Add => "add",
            BinopType::Sub => "sub",
            BinopType::Mul => "mul",
            BinopType::Div => "div",
            BinopType::And => "and",
            BinopType::Or => "or",
            _ => "xor",
        };
        let mut s = three("   ", op, " ");
        push_str(&mut s, out.as_str());
        push_str(&mut s, ", ");
        push_str(&mut s, l1.as_str());
        push_str(&mut s, ", ");
        push_str(&mut s, l2.as_str());
        push_str(&mut s, "\n");
        assert(s@ =~= arm_text(
            seq![InsV::Binop { output: output@, left: left@, right: right@, binop_type: b }],
            0,
        ));
        s
    }
}

fn assign_text(left: &LaigoOp, right: &LaigoOp) -> (r: String)
    requires
        arm_ok(seq![InsV::Assign { left: left@, right: right@ }], 0),
    ensures
        r@ == arm_text(seq![InsV::Assign { left: left@, right: right@ }], 0),
{
    let ghost t = arm_text(seq![InsV::Assign { left: left@, right: right@ }], 0);
    if left.is_reg() {
        let l = left.get_imm_arm();
        if right.is_num_or_reg() {
            let mut s = three("    mov ", l.as_str(), ", ");
            push_str(&mut s, right.get_imm_arm().as_str());
            push_str(&mut s, "\n");
            assert(s@ =~= t);
            s
        } else {
            match right {
                LaigoOp::TakeRef { to_take_ref } => {
                    let (base, off) = to_take_ref.get_as_ref_arm();
                    let mut s = three("    mov ", l.as_str(), ", ");
                    push_str(&mut s, base.as_str());
                    push_str(&mut s, "\n    sub ");
                    push_str(&mut s, l.as_str());
                    push_str(&mut s, ", ");
                    push_str(&mut s, l.as_str());
                    push_str(&mut s, ", ");
                    push_str(&mut s, off.as_str());
                    push_str(&mut s, "\n");
                    assert(s@ =~= t);
                    s
                },
                LaigoOp::Symbol { v } => {
                    let mut s = three("   adrp ", l.as_str(), ", _");
                    push_str(&mut s, v.as_str());
                    push_str(&mut s, "@PAGE\n    add ");
                    push_str(&mut s, l.as_str());
                    push_str(&mut s, ", ");
                    push_str(&mut s, l.as_str());
                    push_str(&mut s, ", _");
                    push_str(&mut s, v.as_str());
                    push_str(&mut s, "@PAGEOFF\n");
                    assert(s@ =~= t);
                    s
                },
                _ => {
                    let mut s = three("   ldr ", l.as_str(), ", ");
                    push_str(&mut s, right.get_mem_op_arm().as_str());
                    push_str(&mut s, "\n");
                    assert(s@ =~= t);
                    s
                },
            }
        }
    } else {
        let mut s = three("    str ", right.get_imm_arm().as_str(), ", ");
        push_str(&mut s, left.get_mem_op_arm().as_str());
        push_str(&mut s, "\n");
        assert(s@ =~= t);
        s
    }
}

/// The ARM text of the instruction at `idx` (see `arm_text`).
#[verifier::rlimit(40)]
pub fn compile_ins(ins_list: &[LaigoIns], idx: usize) -> (r: String)
    requires
        idx < ins_list@.len(),
        arm_ok(ins_view(ins_list@), idx as int),
    ensures
        r@ == arm_text(ins_view(ins_list@), idx as int),
{
    let ghost v = ins_view(ins_list@);
    assert(v[idx as int] == ins_list@[idx as int]@);
    let epilogue = "    mov sp, fp\n    ldr fp, [sp, #8]\n   ldr lr, [sp, #16]\n    add sp, sp, #16\n    ret\n";
    match &ins_list[idx] {
        LaigoIns::Declare { count: _ } => String::new(),
        LaigoIns::Binop { output, left, right, binop_type } => binop_text(
            *binop_type,
            output,
            left,
            right,
        ),
        LaigoIns::Not { left, right } => {
            let mut s = three("    not ", right.get_imm_arm().as_str(), ", ");
            push_str(&mut s, left.get_imm_arm().as_str());
            push_str(&mut s, "\n");
            assert(s@ =~= arm_text(v, idx as int));
            s
        },
        LaigoIns::Assign { left, right } => assign_text(left, right),
        LaigoIns::Jmp { target } => three("   b ", target.get_imm_arm().as_str(), "\n"),
        LaigoIns::If { condition, left, right } => {
            let mut s = three("    cbz ", condition.get_imm_arm().as_str(), ",");
            push_str(&mut s, left.get_imm_arm().as_str());
            push_str(&mut s, "\n    b ");
            push_str(&mut s, right.get_imm_arm().as_str());
            push_str(&mut s, "\n");
            assert(s@ =~= arm_text(v, idx as int));
            s
        },
        LaigoIns::Call { to_call } => {
            if to_call.is_reg() {
                three("    blr ", to_call.get_imm_arm().as_str(), "\n")
            } else {
                three("    bl ", to_call.get_imm_arm().as_str(), "\n")
            }
        },
        LaigoIns::Syscall { call: _ } => String::from_str("    bl _interupt\n"),
        LaigoIns::Ret => String::from_str(epilogue),
        LaigoIns::Noop => String::from_str("    nop\n"),
        LaigoIns::FnBegin => {
            let mut depth = frame_words(ins_list, idx + 1);
            if depth % 2 != 0 {
                depth += 1;
            }
            let mut s = String::from_str(
                "    sub sp, sp, #16\n    str fp, [sp, #16]\n    str lr, [sp, #16]\n    mov fp, sp\n    sub sp, sp, ",
            );
            push_decimal(&mut s, (depth * 8) as u64);
            push_str(&mut s, "\n");
            s
        },
        LaigoIns::FnEnd => String::from_str(epilogue),
    }
}

/// The UTF-8 encoding of a character.
pub open spec fn utf8_char(c: char) -> Seq<u8> {
    let n = c as u32;
    if n < 0x80 {
        seq![n as u8]
    } else if n < 0x800 {
        seq![(0xC0 | (n >> 6)) as u8, (0x80 | (n & 0x3F)) as u8]
    } else if n < 0x10000 {
        seq![(0xE0 | (n >> 12)) as u8, (0x80 | ((n >> 6) & 0x3F)) as u8, (0x80 | (n & 0x3F)) as u8]
    } else {
        seq![
            (0xF0 | (n >> 18)) as u8,
            (0x80 | ((n >> 12) & 0x3F)) as u8,
            (0x80 | ((n >> 6) & 0x3F)) as u8,
            (0x80 | (n & 0x3F)) as u8,
        ]
    }
}

/// The UTF-8 encoding of a text (`str::bytes`).
pub open spec fn utf8(s: Seq<char>) -> Seq<u8>
    decreases s.len(),
{
    if s.len() == 0 {
        seq![]
    } else {
        utf8(s.drop_last()) + utf8_char(s.last())
    }
}

fn push_utf8_char(out: &mut Vec<u8>, c: char)
    ensures
        final(out)@ == old(out)@ + utf8_char(c),
{
    let n = c as u32;
    if n < 0x80 {
        out.push(n as u8);
    } else if n < 0x800 {
        out.push((0xC0 | (n >> 6)) as u8);
        out.push((0x80 | (n & 0x3F)) as u8);
    } else if n < 0x10000 {
        out.push((0xE0 | (n >> 12)) as u8);
        out.push((0x80 | ((n >> 6) & 0x3F)) as u8);
        out.push((0x80 | (n & 0x3F)) as u8);
    } else {
        out.push((0xF0 | (n >> 18)) as u8);
        out.push((0x80 | ((n >> 12) & 0x3F)) as u8);
        out.push((0x80 | ((n >> 6) & 0x3F)) as u8);
        out.push((0x80 | (n & 0x3F)) as u8);
    }
    assert(out@ =~= old(out)@ + utf8_char(c));
}

/// The UTF-8 bytes of a text.
fn utf8_bytes(s: &str) -> (r: Vec<u8>)
    ensures
        r@ == utf8(s@),
{
    let v = crate::text::to_chars(s);
    let mut out: Vec<u8> = Vec::new();
    let mut i: usize = 0;
    while i < v.len()
        invariant
            i <= v@.len(),
            v@ == s@,
            out@ == utf8(s@.take(i as int)),
        decreases v@.len() - i,
    {
        assert(s@.take(i + 1).drop_last() =~= s@.take(i as int));
        push_utf8_char(&mut out, v[i]);
        i += 1;
    }
    assert(s@.take(i as int) =~= s@);
    out
}

/// The bytes' decimal values separated by commas.
pub open spec fn bytes_list(b: Seq<u8>) -> Seq<char>
    decreases b.len(),
{
    if b.len() == 0 {
        seq![]
    } else if b.len() == 1 {
        decimal(b[0] as nat)
    } else {
        bytes_list(b.drop_last()) + ","@ + decimal(b.last() as nat)
    }
}

/// Each byte's decimal value followed by a comma.
pub open spec fn bytes_terminated(b: Seq<u8>) -> Seq<char>
    decreases b.len(),
{
    if b.len() == 0 {
        seq![]
    } else {
        bytes_terminated(b.drop_last()) + decimal(b.last() as nat) + ","@
    }
}

/// The data directive of a value: bytes, a word, or the bytes of a string and a 0.
pub open spec fn value_text(v: ValV) -> Seq<char> {
    match v {
        ValV::Bytes { v } => ".byte "@ + bytes_list(v) + "\n"@,
        ValV::Float { bits } => ".word "@ + decimal(bits as nat) + "\n"@,
        ValV::Integer { v } => ".word "@ + signed_decimal(v as int) + "\n"@,
        ValV::String { v } => ".byte "@ + bytes_terminated(utf8(v)) + "0\n"@,
        ValV::Unsigned { u } => ".word "@ + decimal(u as nat) + "\n"@,
    }
}

fn push_value(out: &mut String, v: &LaigoValue)
    ensures
        final(out)@ == old(out)@ + value_text(v@),
{
    match v {
        LaigoValue::Bytes { v } => {
            push_str(out, ".byte ");
            let ghost head = out@;
            let mut j: usize = 0;
            while j < v.len()
                invariant
                    j <= v@.len(),
                    out@ == head + bytes_list(v@.take(j as int)),
                decreases v@.len() - j,
            {
                assert(v@.take(j + 1).drop_last() =~= v@.take(j as int));
                if j > 0 {
                    push_str(out, ",");
                }
                push_decimal(out, v[j] as u64);
                assert(out@ =~= head + bytes_list(v@.take(j + 1)));
                j += 1;
            }
            assert(v@.take(j as int) =~= v@);
            push_str(out, "\n");
        },
        LaigoValue::Float { bits } => {
            push_str(out, ".word ");
            push_decimal(out, *bits);
            push_str(out, "\n");
        },
        LaigoValue::Integer { v } => {
            push_str(out, ".word ");
            push_str(out, crate::text::i64_to_string(*v).as_str());
            push_str(out, "\n");
        },
        LaigoValue::String { v } => {
            push_str(out, ".byte ");
            let b = utf8_bytes(v.as_str());
            let ghost head = out@;
            let mut j: usize = 0;
            while j < b.len()
                invariant
                    j <= b@.len(),
                    out@ == head + bytes_terminated(b@.take(j as int)),
                decreases b@.len() - j,
            {
                assert(b@.take(j + 1).drop_last() =~= b@.take(j as int));
                push_decimal(out, b[j] as u64);
                push_str(out, ",");
                assert(out@ =~= head + bytes_terminated(b@.take(j + 1)));
                j += 1;
            }
            assert(b@.take(j as int) =~= b@);
            push_str(out, "0\n");
        },
        LaigoValue::Unsigned { u } => {
            push_str(out, ".word ");
            push_decimal(out, *u);
            push_str(out, "\n");
        },
    }
    assert(out@ =~= old(out)@ + value_text(v@));
}

/// A line per name: `pre` and the name.
pub open spec fn name_lines(pre: Seq<char>, g: Seq<Seq<char>>) -> Seq<char>
    decreases g.len(),
{
    if g.len() == 0 {
        seq![]
    } else {
        name_lines(pre, g.drop_last()) + pre + g.last() + "\n"@
    }
}

/// The text of the first `k` instructions, each preceded by its label line if it has one.
pub open spec fn arm_body(u: UnitV, k: int) -> Seq<char>
    decreases k,
{
    if k <= 0 {
        seq![]
    } else {
        arm_body(u, k - 1) + (if u.label_indexs.dom().contains((k - 1) as usize) {
            "_"@ + u.label_indexs[(k - 1) as usize] + ":\n"@
        } else {
            seq![]
        }) + arm_text(u.instructions, k - 1)
    }
}

/// The data section entries, in the order of the table.
pub open spec fn data_text(d: Seq<(Seq<char>, ValV)>) -> Seq<char>
    decreases d.len(),
{
    if d.len() == 0 {
        seq![]
    } else {
        data_text(d.drop_last()) + "_"@ + d.last().0 + ":\n"@ + value_text(d.last().1)
    }
}

/// The data table of a unit, in the order of its table, values taken by their views.
pub open spec fn data_entries(prog: LaigoUnit) -> Seq<(Seq<char>, ValV)> {
    prog.data_table.seq().map_values(|e: (Seq<char>, LaigoValue)| (e.0, e.1@))
}

/// The ARM assembly of a unit: the header, `.global` and `.extern` lines, the
/// instructions with their labels, then the data section.
pub open spec fn arm_program(prog: LaigoUnit) -> Seq<char> {
    let u = prog@;
    ".extern _interupt\n"@ + name_lines(".global _"@, u.globals) + name_lines(".extern _"@, u.externs)
        + arm_body(u, u.instructions.len() as int) + ".data\n"@ + data_text(data_entries(prog))
}

fn push_names(out: &mut String, pre: &str, names: &Vec<String>)
    ensures
        final(out)@ == old(out)@ + name_lines(pre@, names_view(names@)),
{
    let ghost g = names_view(names@);
    let ghost head = out@;
    let mut i: usize = 0;
    while i < names.len()
        invariant
            i <= g.len(),
            g == names_view(names@),
            out@ == head + name_lines(pre@, g.take(i as int)),
        decreases g.len() - i,
    {
        assert(g.take(i + 1).drop_last() =~= g.take(i as int));
        assert(g[i as int] == names@[i as int]@);
        push_str(out, pre);
        push_str(out, names[i].as_str());
        push_str(out, "\n");
        assert(out@ =~= head + name_lines(pre@, g.take(i + 1)));
        i += 1;
    }
    assert(g.take(i as int) =~= g);
}

/// The ARM assembly of a unit (see `arm_program`).
pub fn compile_text(prog: &LaigoUnit) -> (r: String)
    requires
        prog.wf(),
        forall|i: int| 0 <= i < prog@.instructions.len() ==> arm_ok(prog@.instructions, i),
    ensures
        r@ == arm_program(*prog),
{
    let mut out = String::from_str(".extern _interupt\n");
    push_names(&mut out, ".global _", &prog.globals);
    push_names(&mut out, ".extern _", &prog.externs);
    let ghost head2 = out@;
    let mut i: usize = 0;
    while i < prog.instructions.len()
        invariant
            prog.wf(),
            forall|k: int| 0 <= k < prog@.instructions.len() ==> arm_ok(prog@.instructions, k),
            i <= prog@.instructions.len(),
            out@ == head2 + arm_body(prog@, i as int),
        decreases prog@.instructions.len() - i,
    {
        match prog.label_indexs.get(i) {
            Some(p) => {
                push_str(&mut out, "_");
                push_str(&mut out, p.as_str());
                push_str(&mut out, ":\n");
            },
            None => {},
        }
        push_str(&mut out, compile_ins(prog.instructions.as_slice(), i).as_str());
        assert(out@ =~= head2 + arm_body(prog@, i + 1));
        i += 1;
    }
    push_str(&mut out, ".data\n");
    let ghost head3 = out@;
    let ghost d = data_entries(*prog);
    let n = prog.data_table.len();
    let mut k: usize = 0;
    while k < n
        invariant
            prog.wf(),
            k <= n,
            n == d.len(),
            d == data_entries(*prog),
            out@ == head3 + data_text(d.take(k as int)),
        decreases n - k,
    {
        let (name, v) = prog.data_table.entry(k);
        assert(d[k as int] == (name@, v@));
        assert(d.take(k + 1).drop_last() =~= d.take(k as int));
        push_str(&mut out, "_");
        push_str(&mut out, name.as_str());
        push_str(&mut out, ":\n");
        push_value(&mut out, v);
        assert(out@ =~= head3 + data_text(d.take(k + 1)));
        k += 1;
    }
    assert(d.take(k as int) =~= d);
    out
}

/// A comparison is translated to a flag-setting `subs` written with the left operand,
/// the output and the right operand, followed by a `cset` of the output on the
/// comparison's own condition: `lt` for less, `gt` for greater, `eq` for equal. Another
/// operation is its own mnemonic (`add`, `sub`, `mul`, `div`, `and`, `or`, `xor`)
/// applied to the output, the left and the right operand, in that order.
pub proof fn law_arm_binop_text(list: Seq<InsV>, idx: int)
    requires
        0 <= idx < list.len(),
        list[idx] is Binop,
    ensures
        ({
            let b = list[idx]->Binop_binop_type;
            let l = imm_arm(list[idx]->Binop_left);
            let r = imm_arm(list[idx]->Binop_right);
            let out = imm_arm(list[idx]->Binop_output);
            let head = "    subs "@ + l + ", "@ + out + ", "@ + r + "\n    cset "@ + out;
            &&& b == BinopType::Less ==> arm_text(list, idx) == head + ", lt\n"@
            &&& b == BinopType::Greater ==> arm_text(list, idx) == head + ", gt\n"@
            &&& b == BinopType::Equal ==> arm_text(list, idx) == head + ", eq\n"@
            &&& !(b == BinopType::Less || b == BinopType::Greater || b == BinopType::Equal) ==> arm_text(list, idx)
                == "   "@ + arm_op(b) + " "@ + out + ", "@ + l + ", "@ + r + "\n"@
            &&& b == BinopType::Add ==> arm_op(b) == "add"@
            &&& b == BinopType::Sub ==> arm_op(b) == "sub"@
            &&& b == BinopType::Mul ==> arm_op(b) == "mul"@
            &&& b == BinopType::Div ==> arm_op(b) == "div"@
            &&& b == BinopType::And ==> arm_op(b) == "and"@
            &&& b == BinopType::Or ==> arm_op(b) == "or"@
            &&& b == BinopType::Xor ==> arm_op(b) == "xor"@
        }),
{
}

} // verus!
