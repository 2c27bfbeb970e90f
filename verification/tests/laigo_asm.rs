use langs::laigo::arm;
use langs::laigo::laigo::{
    parse_to_unit, tokenize, BinopType, Compiler, LaigoIns, LaigoOp, LaigoUnit, LaigoValue, Register,
};
use langs::laigo::x86;
use langs::table::{NumTable, Table};

fn texts(line: &[langs::laigo::laigo::TokenOwned]) -> Vec<String> {
    line.iter().map(|t| t.text().to_string()).collect()
}

const PROGRAM: &str = "begin func\nlet x1 = i2\n\ni0 = i0 + i1\nloop: jmp loop\nret\nend func\n";

#[test]
fn tokens_of_lines() {
    let t = tokenize("a = b+1\n\n  c\t= \"hi\\n\" \n");
    assert_eq!(t.len(), 2);
    assert_eq!(texts(&t[0]), vec!["a", "=", "b", "+", "1"]);
    assert_eq!(texts(&t[1]), vec!["c", "=", "\"hi\\n\""]);
    assert_eq!(t[0][0].line(), 1);
    assert_eq!(t[1][0].line(), 3);
}

#[test]
fn string_escapes() {
    let t = tokenize("\"a\\\\b\\qc\"");
    assert_eq!(texts(&t[0]), vec!["\"a\\bc\""]);
}

#[test]
fn operands() {
    let t = tokenize("x3 [ i1 * 8 ] & *r2 out1 -7 12 1.5 name");
    let line = &t[0];
    let mut idx = 0;
    match Compiler::expect_op(line, &mut idx).unwrap() {
        LaigoOp::Index { base, amount, scale } => {
            assert!(matches!(*base, LaigoOp::StackOperand { word_offset: 3 }));
            assert!(matches!(*amount, LaigoOp::Register { idx: Register::I1 }));
            assert_eq!(scale, 8);
        }
        other => panic!("unexpected {:?}", other),
    }
    assert_eq!(idx, 6);
    match Compiler::expect_op(line, &mut idx).unwrap() {
        LaigoOp::TakeRef { to_take_ref } => match *to_take_ref {
            LaigoOp::Deref { to_deref } => {
                assert!(matches!(*to_deref, LaigoOp::Register { idx: Register::R2 }))
            }
            other => panic!("unexpected {:?}", other),
        },
        other => panic!("unexpected {:?}", other),
    }
    assert!(matches!(Compiler::expect_op(line, &mut idx), Ok(LaigoOp::Register { idx: Register::Out1 })));
    // `-` is a token of its own
    assert!(matches!(Compiler::expect_op(line, &mut idx), Ok(LaigoOp::Symbol { .. })));
    assert!(matches!(Compiler::expect_op(line, &mut idx), Ok(LaigoOp::Ptr { v: 7 })));
    assert!(matches!(Compiler::expect_op(line, &mut idx), Ok(LaigoOp::Ptr { v: 12 })));
    match Compiler::expect_op(line, &mut idx).unwrap() {
        LaigoOp::Double { v } => assert_eq!(v, "1.5"),
        other => panic!("unexpected {:?}", other),
    }
    match Compiler::expect_op(line, &mut idx).unwrap() {
        LaigoOp::Symbol { v } => assert_eq!(v, "name"),
        other => panic!("unexpected {:?}", other),
    }
    assert_eq!(
        Compiler::expect_op(line, &mut idx).err(),
        Some("line 1, expected operand found end of line".to_string())
    );
}

#[test]
fn operand_errors() {
    let t = tokenize("i9 xq f\nx1 [ i0");
    let mut idx = 0;
    assert_eq!(
        Compiler::expect_op(&t[0], &mut idx).err(),
        Some("line:1, no such registeri9".to_string())
    );
    let mut idx = 1;
    assert_eq!(
        Compiler::expect_op(&t[0], &mut idx).err(),
        Some("invalid digit found in string".to_string())
    );
    let mut idx = 2;
    assert_eq!(
        Compiler::expect_op(&t[0], &mut idx).err(),
        Some("cannot parse integer from empty string".to_string())
    );
    let mut idx = 0;
    assert_eq!(
        Compiler::expect_op(&t[1], &mut idx).err(),
        Some("line:2, expected ] instead found end of line".to_string())
    );
}

#[test]
fn lines_to_instructions() {
    let unit = parse_to_unit(PROGRAM).unwrap();
    assert_eq!(unit.instructions.len(), 7);
    assert!(matches!(unit.instructions[0], LaigoIns::FnBegin));
    assert!(matches!(unit.instructions[1], LaigoIns::Declare { count: 1 }));
    assert!(matches!(
        unit.instructions[2],
        LaigoIns::Assign { left: LaigoOp::StackOperand { word_offset: 1 }, right: LaigoOp::Register { idx: Register::I2 } }
    ));
    assert!(matches!(unit.instructions[3], LaigoIns::Binop { binop_type: BinopType::Add, .. }));
    assert_eq!(unit.labels.get("loop").copied(), Some(4));
    assert_eq!(unit.label_indexs.get(4).map(|s| s.as_str()), Some("loop"));
}

#[test]
fn line_errors() {
    assert_eq!(
        parse_to_unit("end func\n").err(),
        Some("line:1 cannot end function in function".to_string())
    );
    assert_eq!(parse_to_unit("begin\n").err(), Some("line:1 expected func".to_string()));
    assert_eq!(parse_to_unit("noop\nint\n").err(), Some("line:2 expected operand".to_string()));
    assert_eq!(
        parse_to_unit("int 99999999999999999999\n").err(),
        Some("number too large to fit in target type".to_string())
    );
    assert_eq!(
        parse_to_unit("a b\n").err(),
        Some("expected assignment found not that".to_string())
    );
    assert_eq!(
        parse_to_unit("i0 = i1 + i2 i3\n").err(),
        Some("line 1, excess tokens after instruction".to_string())
    );
    assert_eq!(
        parse_to_unit("begin func\nbegin func\n").err(),
        Some("line:2 cannot declare function in function".to_string())
    );
}

#[test]
fn x86_program_text() {
    let unit = parse_to_unit(PROGRAM).unwrap();
    let expected = [
        ".intel_syntax noprefix\n.extern interupt\n",
        "    push rbp\n    mov rbp, rsp\n    sub rsp, 8\n    sub rsp,16\n",
        "    mov rdx, [rbp-8]\n",
        "    add rdi, rsi\n",
        "loop:\n    jmp loop\n",
        "    mov rsp, rbp\n    pop rbp\n    ret",
        "mov rsp, rbp\n    pop rbp\n    ret\n",
    ]
    .concat();
    assert_eq!(x86::compile_text(&unit), expected);
}

#[test]
fn x86_instruction_forms() {
    let l = vec![
        LaigoIns::Binop {
            output: LaigoOp::Register { idx: Register::Out0 },
            left: LaigoOp::Register { idx: Register::I0 },
            right: LaigoOp::Integer { v: -3 },
            binop_type: BinopType::Sub,
        },
        LaigoIns::Binop {
            output: LaigoOp::Register { idx: Register::I1 },
            left: LaigoOp::Register { idx: Register::I0 },
            right: LaigoOp::Register { idx: Register::I2 },
            binop_type: BinopType::Less,
        },
        LaigoIns::If {
            condition: LaigoOp::Register { idx: Register::R3 },
            left: LaigoOp::Symbol { v: "a".to_string() },
            right: LaigoOp::Symbol { v: "b".to_string() },
        },
    ];
    assert_eq!(x86::compile_ins(&l, 0), "    mov rax, rdi\n    sub rax, -3\n");
    assert_eq!(
        x86::compile_ins(&l, 1),
        "   push rax\n   cmp rdi, rdx\n   setg al\n    movzx rsi,al\n   pop rax\n"
    );
    assert_eq!(x86::compile_ins(&l, 2), "    cmp rcx,0\n     je a\n    jmp b\n");
}

#[test]
fn arm_program_text() {
    let unit = parse_to_unit(PROGRAM).unwrap();
    let epilogue = "    mov sp, fp\n    ldr fp, [sp, #8]\n   ldr lr, [sp, #16]\n    add sp, sp, #16\n    ret\n";
    let expected = format!(
        ".extern _interupt\n    sub sp, sp, #16\n    str fp, [sp, #16]\n    str lr, [sp, #16]\n    mov fp, sp\n    sub sp, sp, 16\n    str x2, [fp,#-8]\n   add x0, x0, x1\n_loop:\n   b _loop\n{}{}.data\n",
        epilogue, epilogue
    );
    assert_eq!(arm::compile_text(&unit), expected);
}

#[test]
fn arm_data_section() {
    let mut data = Table::new();
    data.insert("msg".to_string(), LaigoValue::String { v: "hé".to_string() });
    data.insert("raw".to_string(), LaigoValue::Bytes { v: vec![1, 2] });
    data.insert("n".to_string(), LaigoValue::Integer { v: -5 });
    let unit = LaigoUnit {
        label_indexs: NumTable::new(),
        labels: Table::new(),
        instructions: vec![],
        data_table: data,
        globals: vec!["main".to_string()],
        externs: vec!["puts".to_string()],
    };
    assert_eq!(
        arm::compile_text(&unit),
        ".extern _interupt\n.global _main\n.extern _puts\n.data\n_msg:\n.byte 104,195,169,0\n_raw:\n.byte 1,2\n_n:\n.word -5\n"
    );
}

#[test]
fn operand_spellings() {
    assert_eq!(LaigoOp::Register { idx: Register::I3 }.get_imm_x86(), "rcx");
    assert_eq!(LaigoOp::Register { idx: Register::Out1 }.get_imm_arm(), "x1");
    assert_eq!(LaigoOp::Integer { v: -4 }.get_imm_arm(), "#-4");
    assert_eq!(LaigoOp::Symbol { v: "f".to_string() }.get_imm_arm(), "_f");
    assert_eq!(LaigoOp::StackOperand { word_offset: 2 }.get_mem_op_x86(), "[rbp-16]");
    assert_eq!(LaigoOp::StackOperand { word_offset: 2 }.get_mem_op_arm(), "[fp,#-16]");
    let (b, o) = LaigoOp::StackOperand { word_offset: 3 }.get_as_ref_arm();
    assert_eq!((b.as_str(), o.as_str()), ("fp", "24"));
    assert!(LaigoOp::Ptr { v: 1 }.is_num_or_reg());
    assert!(!LaigoOp::Symbol { v: "s".to_string() }.is_reg());
}
