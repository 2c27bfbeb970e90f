use langs::beam::fast::{compile_mach_to_rt, encode_instr, AllocInfo, Instr, InstructionList};
use langs::beam::front::{
    default_types, link, parse_command, parse_type, parse_var, strip_array_prefixes, ParseCommandOutput,
};
use langs::beam::mach::{Binop, Cmd, Machine, ShallowType, Type, Value, Var};
use langs::beam::run::{float_texts, Step};
use langs::beam::parser::TokenStream;
use langs::beam::program::{import_names, parse_to_program, preprocess_file};
use langs::table::Table;

const SOURCE: &str = "struct Point\n  x int\n  y int\nend\nfn int add a int b int :\n  r : int\n  r = a + b\n  return r\nend\nfn void main :\n  x : int\n  x = add ( 1 2 )\n  return unit\nend\n";

fn stream(s: &str) -> TokenStream {
    TokenStream::from_string(s.to_string(), "t.beam".to_string())
}

fn scope() -> Table<(usize, ShallowType)> {
    let mut t = Table::new();
    t.insert(
        "n".to_string(),
        (0, ShallowType { name: "int".to_string(), index: 0, array_count: 0, is_ptr: false }),
    );
    t.insert(
        "b".to_string(),
        (1, ShallowType { name: "bool".to_string(), index: 2, array_count: 0, is_ptr: false }),
    );
    t
}

#[test]
fn builtin_types_in_order() {
    let d = default_types();
    let names: Vec<&str> = d.iter().map(|p| p.0.as_str()).collect();
    assert_eq!(names, vec!["int", "float", "bool", "string", "void"]);
    assert!(matches!(d[0].1, Type::Integer));
    assert!(matches!(d[4].1, Type::Void));
}

#[test]
fn array_prefixes_are_counted() {
    let (n, rest) = strip_array_prefixes("[][]int");
    assert_eq!(n, 2);
    assert_eq!(rest, "int");
    let (n, rest) = strip_array_prefixes("[int");
    assert_eq!(n, 0);
    assert_eq!(rest, "[int");
}

#[test]
fn type_references() {
    let types = default_types();
    let mut s = stream("[]bool string");
    let t = parse_type(&mut s, &types).unwrap();
    assert_eq!(t.name, "bool");
    assert_eq!(t.index, 2);
    assert_eq!(t.array_count, 1);
    assert!(!t.is_ptr);
    assert_eq!(s.index, 1);
    let t = parse_type(&mut s, &types).unwrap();
    assert_eq!(t.index, 3);
}

#[test]
fn unknown_type_is_refused() {
    let types = default_types();
    let mut s = stream("Point");
    let e = parse_type(&mut s, &types).unwrap_err();
    assert!(e.starts_with("unkown type:"));
}

#[test]
fn beam_operands() {
    let types = default_types();
    let vars = scope();
    assert!(matches!(parse_var("unit".to_string(), &vars, &types).unwrap(), Var::Unit));
    match parse_var("\"\"hi\"".to_string(), &vars, &types).unwrap() {
        Var::ConstString { value } => assert_eq!(value, "hi"),
        other => panic!("{:?}", other),
    }
    assert!(matches!(parse_var("-42".to_string(), &vars, &types).unwrap(), Var::ConstInt { value: -42 }));
    match parse_var("2.5e3".to_string(), &vars, &types).unwrap() {
        Var::ConstFloat { value } => assert_eq!(value, "2.5e3"),
        other => panic!("{:?}", other),
    }
    assert!(matches!(parse_var("true".to_string(), &vars, &types).unwrap(), Var::ConstBool { value: true }));
    match parse_var("b".to_string(), &vars, &types).unwrap() {
        Var::Stack { vtype, index, name } => {
            assert_eq!(index, 1);
            assert_eq!(name, "b");
            assert_eq!(vtype.index, 2);
        },
        other => panic!("{:?}", other),
    }
}

#[test]
fn unknown_operands_are_refused() {
    let types = default_types();
    let vars = scope();
    assert_eq!(parse_var("zz".to_string(), &vars, &types).unwrap_err(), "unknown var:zz");
    assert_eq!(parse_var("zz.f".to_string(), &vars, &types).unwrap_err(), "unknown var:zz");
}

#[test]
fn field_access_through_a_pointer() {
    let mut types = default_types();
    types.push((
        "P".to_string(),
        Type::Struct {
            name: "P".to_string(),
            fields: vec![
                ("a".to_string(), ShallowType { name: "int".to_string(), index: 0, array_count: 0, is_ptr: false }),
                ("c".to_string(), ShallowType { name: "bool".to_string(), index: 2, array_count: 0, is_ptr: false }),
            ],
        },
    ));
    let mut vars = Table::new();
    vars.insert(
        "p".to_string(),
        (0, ShallowType { name: "P".to_string(), index: 5, array_count: 0, is_ptr: true }),
    );
    match parse_var("p.c".to_string(), &vars, &types).unwrap() {
        Var::FieldAccess { of, index, return_type } => {
            assert_eq!(index, 1);
            assert_eq!(return_type.index, 2);
            assert!(matches!(*of, Var::Stack { index: 0, .. }));
        },
        other => panic!("{:?}", other),
    }
}

#[test]
fn beam_commands() {
    let types = default_types();
    let vars = scope();
    let mut s = stream("label top goto top if b goto top n = n + 1 return n end");
    let f = "f_".to_string();
    match parse_command(&mut s, &vars, &types, "t".to_string(), f.clone()).unwrap() {
        ParseCommandOutput::Label { name } => assert_eq!(name, "f_top"),
        other => panic!("{:?}", other),
    }
    match parse_command(&mut s, &vars, &types, "t".to_string(), f.clone()).unwrap() {
        ParseCommandOutput::Command { cmd: Cmd::Jmp { to, to_idx } } => {
            assert_eq!(to, "f_top");
            assert_eq!(to_idx, 0);
        },
        other => panic!("{:?}", other),
    }
    match parse_command(&mut s, &vars, &types, "t".to_string(), f.clone()).unwrap() {
        ParseCommandOutput::Command { cmd: Cmd::JmpCond { cond: Var::Stack { index: 1, .. }, to, .. } } => {
            assert_eq!(to, "f_top")
        },
        other => panic!("{:?}", other),
    }
    match parse_command(&mut s, &vars, &types, "t".to_string(), f.clone()).unwrap() {
        ParseCommandOutput::Command { cmd: Cmd::Binop { op, r: Var::ConstInt { value: 1 }, .. } } => {
            assert_eq!(op, Binop::Add)
        },
        other => panic!("{:?}", other),
    }
    assert!(matches!(
        parse_command(&mut s, &vars, &types, "t".to_string(), f.clone()).unwrap(),
        ParseCommandOutput::Command { cmd: Cmd::Return { .. } }
    ));
    assert!(matches!(
        parse_command(&mut s, &vars, &types, "t".to_string(), f.clone()).unwrap(),
        ParseCommandOutput::Done
    ));
}

#[test]
fn declaration_followed_by_assignment_puts_the_name_back() {
    let types = default_types();
    let vars = scope();
    let mut s = stream("y : int = 3");
    match parse_command(&mut s, &vars, &types, "t".to_string(), "f".to_string()).unwrap() {
        ParseCommandOutput::Declared { name, vt } => {
            assert_eq!(name, "y");
            assert_eq!(vt.index, 0);
        },
        other => panic!("{:?}", other),
    }
    assert_eq!(s.index, 3);
    assert_eq!(s.tokens.len(), 6);
    assert_eq!(s.tokens[3].text, "y");
}

#[test]
fn imports_of_a_file() {
    let src = "import a.beam fn int f : return 1 end import b.beam".to_string();
    let names = import_names(&src, &"m.beam".to_string()).unwrap();
    assert_eq!(names, vec!["a.beam".to_string(), "b.beam".to_string()]);
    assert!(import_names(&"bogus".to_string(), &"m.beam".to_string()).is_none());
}

#[test]
fn declarations_of_a_file() {
    let p = preprocess_file(SOURCE.to_string(), "m.beam".to_string(), Vec::new()).unwrap();
    assert_eq!(p.types.len(), 6);
    assert_eq!(p.types[5].0, "Point");
    assert_eq!(p.functions.count(), 2);
    let add = p.functions.get("add").unwrap();
    assert_eq!(add.arguments.len(), 2);
    assert!(add.cmds.is_empty());
}

#[test]
fn whole_program() {
    let p = parse_to_program(SOURCE.to_string(), "m.beam".to_string(), Vec::new()).unwrap();
    let add = p.functions.get("add").unwrap();
    assert_eq!(add.cmds.len(), 3);
    match &add.cmds[0] {
        Cmd::DeclareVariables { values } => {
            assert_eq!(values.len(), 1);
            assert!(matches!(values[0], Type::Integer));
        },
        other => panic!("{:?}", other),
    }
    assert!(matches!(add.cmds[1], Cmd::Binop { op: Binop::Add, .. }));
    let main = p.functions.get("main").unwrap();
    match &main.cmds[1] {
        Cmd::Call { to_call: Var::FunctionLiteral { name, .. }, args, .. } => {
            assert_eq!(name, "add");
            assert_eq!(args.len(), 2);
        },
        other => panic!("{:?}", other),
    }
    match &p.types[5].1 {
        Type::Struct { fields, .. } => assert_eq!(fields[1].1.index, 0),
        other => panic!("{:?}", other),
    }
}

#[test]
fn bytecode_of_a_small_program() {
    let p = parse_to_program("fn void main :\n return unit\nend".to_string(), "m.beam".to_string(), Vec::new()).unwrap();
    let img = compile_mach_to_rt(&[p]);
    assert_eq!(img.start, 0);
    assert_eq!(
        img.rt.data.iv,
        vec![encode_instr(Instr::LoadVoid), 0, 0, 0, 0, 0, 0, 0, 0, encode_instr(Instr::Ret)]
    );
    assert_eq!(*img.rt.symbol_table.get("main").unwrap(), 0);
}

#[test]
fn jumps_are_patched_with_symbol_positions() {
    let p = parse_to_program(SOURCE.to_string(), "m.beam".to_string(), Vec::new()).unwrap();
    let img = compile_mach_to_rt(&[p]);
    let add = *img.rt.symbol_table.get("add").unwrap();
    let main = *img.rt.symbol_table.get("main").unwrap();
    assert_eq!(img.start, main);
    let iv = &img.rt.data.iv;
    let pos = main + 19;
    assert_eq!(iv[pos], encode_instr(Instr::Call));
    let mut target = [0u8; 8];
    target.copy_from_slice(&iv[pos + 1..pos + 9]);
    assert_eq!(u64::from_le_bytes(target) as usize, add);
}

#[test]
fn words_are_little_endian() {
    let mut l = InstructionList::new();
    l.push_u64(0x0102030405060708);
    l.push_i64(-1);
    l.push_bool(true);
    assert_eq!(&l.iv[0..8], &[8, 7, 6, 5, 4, 3, 2, 1]);
    assert_eq!(&l.iv[8..16], &[255; 8]);
    assert_eq!(&l.iv[16..24], &[1, 0, 0, 0, 0, 0, 0, 0]);
    assert_eq!(AllocInfo { field_count: 3, type_info: 2 }.word(), 0x0000_0002_0000_0003);
}

#[test]
fn linking_places_functions_after_the_traps() {
    let p = parse_to_program(SOURCE.to_string(), "m.beam".to_string(), Vec::new()).unwrap();
    let m = link(&[p]);
    assert!(matches!(&m.cmds[0], Cmd::Jmp { to, .. } if to == "__failed"));
    let add = *m.symbol_table.get("add").unwrap();
    assert_eq!(add, 8);
    assert_eq!(m.ip as usize, *m.symbol_table.get("main").unwrap());
    let call = m.cmds.iter().find_map(|c| match c {
        Cmd::Call { to_call: Var::FunctionLiteral { idx, .. }, .. } => Some(*idx),
        _ => None,
    });
    assert_eq!(call, Some(8));
    assert_eq!(m.type_table.len(), 6);
}

fn machine(src: &str) -> Machine {
    let p = parse_to_program(src.to_string(), "r.beam".to_string(), Vec::new()).unwrap();
    let mut m = link(&[p]);
    for t in float_texts(&m) {
        let bits = t.parse::<f64>().unwrap().to_bits();
        m.float_consts.insert(t.clone(), bits);
    }
    m
}

/// Runs the machine to its end, doing the float operations it hands back.
fn run(m: &mut Machine) -> Result<Value, String> {
    for _ in 0..10000 {
        match m.update()? {
            Step::Continue => {},
            Step::Exited { value } => return Ok(value),
            Step::Float { op, l, r, at } => {
                let (a, b) = (f64::from_bits(l), f64::from_bits(r));
                let v = match op {
                    Binop::Add => Value::Float { bits: (a + b).to_bits() },
                    Binop::Sub => Value::Float { bits: (a - b).to_bits() },
                    Binop::Mul => Value::Float { bits: (a * b).to_bits() },
                    Binop::Div => Value::Float { bits: (a / b).to_bits() },
                    Binop::Less => Value::Bool { v: a < b },
                    _ => panic!("unexpected float operation"),
                };
                m.store(at, v);
            },
        }
    }
    panic!("the program did not end");
}

#[test]
fn a_call_returns_into_the_caller() {
    let mut m = machine("fn int add a int b int :\n  r : int\n  r = a + b\n  return r\nend\nfn int main :\n  x : int\n  x = add ( 2 3 )\n  return x\nend\n");
    let v = run(&mut m).unwrap();
    assert!(matches!(v, Value::Integer { v: 5 }));
    assert!(m.done);
}

#[test]
fn the_sample_program_exits_with_unit() {
    let mut m = machine(SOURCE);
    let v = run(&mut m).unwrap();
    assert!(matches!(v, Value::Unit));
}

#[test]
fn float_operations_are_handed_to_the_caller() {
    let mut m = machine("fn float main :\n  x : float\n  x = 1.5 + 2.25\n  return x\nend\n");
    let texts = float_texts(&m);
    assert_eq!(texts, vec!["1.5".to_string(), "2.25".to_string()]);
    let mut seen = None;
    for _ in 0..100 {
        match m.update().unwrap() {
            Step::Float { op, l, r, at } => {
                seen = Some((op, l, r));
                m.store(at, Value::Float { bits: 3.75f64.to_bits() });
                break;
            },
            Step::Continue => {},
            Step::Exited { .. } => break,
        }
    }
    let (op, l, r) = seen.unwrap();
    assert!(matches!(op, Binop::Add));
    assert_eq!(l, 1.5f64.to_bits());
    assert_eq!(r, 2.25f64.to_bits());
    let v = run(&mut m).unwrap();
    assert!(matches!(v, Value::Float { bits } if bits == 3.75f64.to_bits()));
}

#[test]
fn and_on_integers_is_refused() {
    let mut m = machine("fn int main :\n  x : int\n  x = 1 and 2\n  return x\nend\n");
    assert_eq!(run(&mut m).unwrap_err(), "and not supported on integers");
}

#[test]
fn comparison_of_integers_gives_a_bool() {
    let mut m = machine("fn bool main :\n  b : bool\n  b = 2 < 3\n  return b\nend\n");
    assert!(matches!(run(&mut m).unwrap(), Value::Bool { v: true }));
}

#[test]
fn tokens_are_strings_punctuation_or_identifiers() {
    let t = langs::beam::parser::tokenize("ab\"c:x+ \"s t\" ; note\n\"open".to_string(), "t.beam".to_string());
    let texts: Vec<&str> = t.iter().map(|k| k.text.as_str()).collect();
    assert_eq!(texts, vec!["ab\"c", ":", "x", "+", "\"s t\"", "open"]);
    let lines: Vec<usize> = t.iter().map(|k| k.line).collect();
    assert_eq!(lines, vec![1, 1, 1, 1, 1, 2]);
}

fn lone_function(name: &str, cmds: Vec<Cmd>) -> langs::beam::mach::Program {
    named_function(name, name, cmds)
}

fn named_function(name: &str, display: &str, cmds: Vec<Cmd>) -> langs::beam::mach::Program {
    let mut functions = Table::new();
    functions.insert(
        name.to_string(),
        langs::beam::mach::Function {
            arguments: Vec::new(),
            return_type: ShallowType { name: "void".to_string(), index: 0, array_count: 0, is_ptr: false },
            cmds,
            labels: Table::new(),
            display_name: display.to_string(),
        },
    );
    langs::beam::mach::Program { types: default_types(), functions }
}

#[test]
fn checked_compile_refuses_what_cannot_be_compiled() {
    let ret = || vec![Cmd::Return { to_return: Var::Unit }];
    let good = lone_function("main", ret());
    let img = langs::beam::fast::try_compile_mach_to_rt(&[good]).unwrap();
    assert_eq!(img.rt.data.iv, vec![encode_instr(Instr::LoadVoid), 0, 0, 0, 0, 0, 0, 0, 0, encode_instr(Instr::Ret)]);
    let lost = lone_function("main", vec![Cmd::Jmp { to: "nowhere".to_string(), to_idx: 0 }]);
    assert!(langs::beam::fast::try_compile_mach_to_rt(&[lost]).is_none());
    let twice = [lone_function("f", ret()), lone_function("f", ret())];
    assert!(langs::beam::fast::try_compile_mach_to_rt(&twice).is_none());
}

#[test]
fn execution_starts_at_the_last_main() {
    let ret = || vec![Cmd::Return { to_return: Var::Unit }];
    let img = compile_mach_to_rt(&[named_function("a", "main", ret()), named_function("b", "main", ret())]);
    assert_eq!(*img.rt.symbol_table.get("a").unwrap(), 0);
    assert_eq!(*img.rt.symbol_table.get("b").unwrap(), 10);
    assert_eq!(img.start, 10);
}
