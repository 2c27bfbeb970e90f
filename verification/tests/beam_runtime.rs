use langs::beam::fast::{compile_mach_to_rt, encode_instr, Instr, InstructionList, IntermediateRt, RtImage};
use langs::beam::mach::Binop;
use langs::beam::program::parse_to_program;
use langs::beam::rt::{decode_instr, read_word, Rt, RtStep, RtVal, STACK_SLOTS};
use langs::table::Table;

fn image(code: InstructionList, strings: Vec<&str>) -> RtImage {
    RtImage {
        rt: IntermediateRt {
            strings: strings.into_iter().map(|s| s.to_string()).collect(),
            symbol_table: Table::new(),
            data: code,
            float_slots: Vec::new(),
        },
        start: 0,
    }
}

fn op(l: &mut InstructionList, i: Instr, w: Option<u64>) {
    l.push_instr(i);
    if let Some(w) = w {
        l.push_u64(w);
    }
}

/// Runs to the end, doing float additions itself.
fn run(rt: &mut Rt) -> RtVal {
    for _ in 0..1000 {
        match rt.step() {
            RtStep::Continue => {},
            RtStep::Returned { value } => return value,
            RtStep::Float { op, l, r } => {
                assert!(matches!(op, Binop::Add));
                let v = f64::from_bits(l) + f64::from_bits(r);
                rt.push_value(RtVal::Float { bits: v.to_bits() });
            },
        }
    }
    panic!("the program did not end");
}

#[test]
fn a_loaded_runtime_starts_empty() {
    let rt = Rt::new(image(InstructionList::new(), vec!["a"]));
    assert_eq!(rt.var_stack.len(), STACK_SLOTS);
    assert!(rt.op_stack.is_empty() && rt.heap.is_empty() && !rt.halted);
    assert_eq!(rt.ip, 0);
}

#[test]
fn integer_arithmetic() {
    let mut l = InstructionList::new();
    op(&mut l, Instr::ConstInt, Some(40));
    op(&mut l, Instr::ConstInt, Some(2));
    op(&mut l, Instr::IntAdd, None);
    op(&mut l, Instr::ConstInt, Some((-6i64) as u64));
    op(&mut l, Instr::IntMul, None);
    op(&mut l, Instr::Ret, None);
    let mut rt = Rt::new(image(l, vec![]));
    assert_eq!(run(&mut rt), RtVal::Integer { v: -252 });
    assert!(rt.halted);
}

#[test]
fn locals_are_stored_through_their_address() {
    let mut l = InstructionList::new();
    op(&mut l, Instr::DefLocalInt, None);
    op(&mut l, Instr::ConstInt, Some(7));
    op(&mut l, Instr::LoadVarAddr, Some(0));
    op(&mut l, Instr::StoreInt, None);
    op(&mut l, Instr::LoadInt, Some(0));
    op(&mut l, Instr::ConstInt, Some(7));
    op(&mut l, Instr::IntEq, None);
    op(&mut l, Instr::Ret, None);
    let mut rt = Rt::new(image(l, vec![]));
    assert_eq!(run(&mut rt), RtVal::Bool { v: true });
    assert_eq!(rt.var_stack[0], RtVal::Integer { v: 7 });
    assert_eq!(rt.var_stack_ptr, 1);
}

#[test]
fn strings_are_joined_and_unused_ones_freed() {
    let mut l = InstructionList::new();
    op(&mut l, Instr::ConstStr, Some(0));
    op(&mut l, Instr::ConstStr, Some(1));
    op(&mut l, Instr::StrAdd, None);
    op(&mut l, Instr::Ret, None);
    let mut rt = Rt::new(image(l, vec!["ab", "cd"]));
    assert_eq!(rt.step(), RtStep::Continue);
    assert_eq!(rt.step(), RtStep::Continue);
    assert_eq!(rt.step(), RtStep::Continue);
    assert_eq!(rt.heap, vec![None, None, Some("abcd".to_string())]);
    assert_eq!(rt.step(), RtStep::Returned { value: RtVal::Str { at: Some(2) } });
}

#[test]
fn string_comparison_frees_both_operands() {
    let mut l = InstructionList::new();
    op(&mut l, Instr::ConstStr, Some(0));
    op(&mut l, Instr::ConstStr, Some(0));
    op(&mut l, Instr::StrEq, None);
    op(&mut l, Instr::Ret, None);
    let mut rt = Rt::new(image(l, vec!["x"]));
    assert_eq!(run(&mut rt), RtVal::Bool { v: true });
    assert_eq!(rt.heap, vec![None, None]);
}

#[test]
fn boolean_or_computes_the_conjunction() {
    let mut l = InstructionList::new();
    op(&mut l, Instr::ConstBool, Some(1));
    op(&mut l, Instr::ConstBool, Some(0));
    op(&mut l, Instr::BoolOr, None);
    op(&mut l, Instr::Ret, None);
    let mut rt = Rt::new(image(l, vec![]));
    assert_eq!(run(&mut rt), RtVal::Bool { v: false });
}

#[test]
fn bytecode_float_operations_are_handed_out() {
    let mut l = InstructionList::new();
    op(&mut l, Instr::ConstFloat, Some(1.5f64.to_bits()));
    op(&mut l, Instr::ConstFloat, Some(2.0f64.to_bits()));
    op(&mut l, Instr::FloatAdd, None);
    op(&mut l, Instr::Ret, None);
    let mut rt = Rt::new(image(l, vec![]));
    rt.step();
    rt.step();
    assert_eq!(rt.step(), RtStep::Float { op: Binop::Add, l: 1.5f64.to_bits(), r: 2.0f64.to_bits() });
    rt.push_value(RtVal::Float { bits: 3.5f64.to_bits() });
    assert_eq!(run(&mut rt), RtVal::Float { bits: 3.5f64.to_bits() });
}

#[test]
fn calls_and_returns_restore_the_frame() {
    let mut l = InstructionList::new();
    // 0: a local; 1: call 11; 10: return
    op(&mut l, Instr::DefLocalInt, None);
    op(&mut l, Instr::Call, Some(11));
    op(&mut l, Instr::Ret, None);
    // 11: the callee declares a local, pushes 9 and returns to 10
    op(&mut l, Instr::DefLocalBool, None);
    op(&mut l, Instr::ConstInt, Some(9));
    op(&mut l, Instr::Ret, None);
    let mut rt = Rt::new(image(l, vec![]));
    assert_eq!(rt.step(), RtStep::Continue);
    assert_eq!(rt.step(), RtStep::Continue);
    assert_eq!((rt.ip, rt.var_base_ptr, rt.ret_info.len()), (11, 1, 1));
    assert_eq!(rt.step(), RtStep::Continue);
    assert_eq!(rt.var_stack[1], RtVal::Bool { v: false });
    assert_eq!(rt.step(), RtStep::Continue);
    assert_eq!(rt.step(), RtStep::Continue);
    assert_eq!((rt.ip, rt.var_stack_ptr, rt.var_base_ptr), (10, 1, 0));
    assert_eq!(rt.step(), RtStep::Returned { value: RtVal::Integer { v: 9 } });
}

#[test]
fn a_compiled_program_runs() {
    let p = parse_to_program("fn void main :\n return unit\nend".to_string(), "m.beam".to_string(), Vec::new()).unwrap();
    let mut rt = Rt::new(compile_mach_to_rt(&[p]));
    assert_eq!(run(&mut rt), RtVal::Integer { v: 0 });
}

#[test]
fn words_and_codes_read_back() {
    let mut l = InstructionList::new();
    l.push_u64(0x0102030405060708);
    assert_eq!(read_word(&l.iv, 0), 0x0102030405060708);
    assert_eq!(decode_instr(encode_instr(Instr::StrNeq)), Some(Instr::StrNeq));
    assert_eq!(decode_instr(56), None);
}

#[test]
fn object_fields_are_stored_and_loaded() {
    let mut l = InstructionList::new();
    // an object of three fields, of which two are defined
    op(&mut l, Instr::DefLocalPtr, None);
    op(&mut l, Instr::New, Some(3 + (5u64 << 32)));
    op(&mut l, Instr::LoadVarAddr, Some(0));
    op(&mut l, Instr::StorePtr, None);
    op(&mut l, Instr::ConstInt, Some(41));
    op(&mut l, Instr::LoadPtr, Some(0));
    op(&mut l, Instr::LoadMemberAddr, Some(1));
    op(&mut l, Instr::StoreInt, None);
    op(&mut l, Instr::LoadPtr, Some(0));
    op(&mut l, Instr::LoadMember, Some(1));
    op(&mut l, Instr::LoadPtr, Some(0));
    op(&mut l, Instr::LoadMember, Some(0));
    op(&mut l, Instr::IntAdd, None);
    op(&mut l, Instr::Ret, None);
    let mut rt = Rt::new(image(l, vec![]));
    assert_eq!(run(&mut rt), RtVal::Integer { v: 41 });
    assert_eq!(rt.objects.len(), 1);
    assert_eq!(rt.objects[0], Some(vec![RtVal::Integer { v: 0 }, RtVal::Integer { v: 41 }]));
}

#[test]
fn an_object_no_root_points_to_is_freed() {
    let mut l = InstructionList::new();
    op(&mut l, Instr::New, Some(2));
    op(&mut l, Instr::LoadMember, Some(0));
    op(&mut l, Instr::Ret, None);
    let mut rt = Rt::new(image(l, vec![]));
    assert_eq!(rt.step(), RtStep::Continue);
    assert!(rt.objects[0].is_some());
    assert_eq!(rt.step(), RtStep::Continue);
    assert_eq!(rt.objects[0], None);
    assert_eq!(rt.op_stack, vec![RtVal::Integer { v: 0 }]);
}
