use langs::miku::bug::tokenizer::Tokenizer;
use langs::miku::miku::{split_line, MikuInstr, MikuLiteral, MikuObject, MikuType, ParserState, VarUse};
use langs::miku::tuci::tuci;
use langs::miku::utils::extract_string_literals;

fn words(s: &str) -> Vec<String> {
    split_line(s)
}

const ADD_PROGRAM: &str = "defun int add a int b int\n\
decl c int\n\
+ c a b\n\
ret c\n\
end\n\
defun int main\n\
decl x int\n\
add x 1 2\n\
ret x\n\
end\n";

#[test]
fn split_line_takes_words() {
    assert_eq!(split_line("  + c  a\tb "), vec!["+", "c", "a", "b"]);
    assert!(split_line("   ").is_empty());
}

#[test]
fn string_literals_are_split_out() {
    assert_eq!(extract_string_literals("\"hello \"there"), vec!["\"hello \"", "there"]);
    assert_eq!(extract_string_literals("a \"b\" c"), vec!["a ", "\"b\"", " c"]);
    assert_eq!(extract_string_literals("x \"open"), vec!["x ", "\"open"]);
    assert!(extract_string_literals("").is_empty());
}

#[test]
fn each_quoted_section_is_one_piece() {
    assert_eq!(extract_string_literals("print \"a b\" x"), vec!["print ", "\"a b\"", " x"]);
    assert_eq!(extract_string_literals("a\"\"b\"c"), vec!["a", "\"\"", "b", "\"c"]);
    assert_eq!(extract_string_literals("\"x\"\"y\""), vec!["\"x\"", "\"y\""]);
}

#[test]
fn literal_operands() {
    let st = ParserState::new();
    let line = words("= 'a' 1.5 1.5.3 -42 true _ nothing 99999999999999999999");
    assert!(matches!(st.expect_variable(&line, 1), Ok(VarUse::Literal { v: MikuLiteral::Char { v: 'a' } })));
    match st.expect_variable(&line, 2) {
        Ok(VarUse::Literal { v: MikuLiteral::Double { v } }) => assert_eq!(v, "1.5"),
        other => panic!("unexpected {:?}", other),
    }
    assert_eq!(
        st.expect_variable(&line, 3).err(),
        Some("'.' not allowed in literals other than doubles".to_string())
    );
    assert!(matches!(st.expect_variable(&line, 4), Ok(VarUse::Literal { v: MikuLiteral::Integer { v: -42 } })));
    assert!(matches!(st.expect_variable(&line, 5), Ok(VarUse::Literal { v: MikuLiteral::Bool { v: true } })));
    assert_eq!(st.expect_variable(&line, 6).err(), Some("_".to_string()));
    assert_eq!(
        st.expect_variable(&line, 7).err(),
        Some("undeclared variable \"nothing\"".to_string())
    );
    assert!(st.expect_variable(&line, 8).is_err());
    assert_eq!(
        st.expect_variable(&line, 9).err(),
        Some("expected literal found nothing".to_string())
    );
}

#[test]
fn types_and_headers() {
    let st = ParserState::new();
    let line = words("int float char bool string thing");
    assert!(matches!(st.expect_type(&line, 0), Ok(MikuType::Integer)));
    assert!(matches!(st.expect_type(&line, 1), Ok(MikuType::Double)));
    assert!(matches!(st.expect_type(&line, 4), Ok(MikuType::String)));
    match st.expect_type(&line, 5) {
        Ok(MikuType::Undefined { name }) => assert_eq!(name, "thing"),
        other => panic!("unexpected {:?}", other),
    }
    let f = st.expect_function_header(&words("bool less a int b int")).unwrap();
    assert_eq!(f.name, "less");
    assert_eq!(f.args.len(), 2);
    assert_eq!(f.args[1].name, "b");
    assert_eq!(f.args[1].index, 1);
    assert_eq!(f.as_c_dec(), "bool miku_less(long a,long b)");
    assert!(st.expect_function_header(&words("bool less a int b")).is_err());
}

#[test]
fn labels_and_jumps_are_resolved() {
    let src = "defun int f\ntop: decl i int\njmp top\nend\n";
    let obj = ParserState::parse_to_program(src).unwrap();
    assert_eq!(obj.instructions.len(), 5);
    assert!(matches!(obj.instructions[1], MikuInstr::Label { label_index: 1, .. }));
    assert!(matches!(obj.instructions[3], MikuInstr::Jmp { to_index: Some(1), .. }));
}

#[test]
fn unknown_label_is_refused() {
    let src = "defun int f\njmp nowhere\nend\n";
    assert_eq!(
        ParserState::parse_to_program(src).err(),
        Some("could not find label \"nowhere\"".to_string())
    );
}

#[test]
fn refused_line_is_numbered() {
    let src = "defun int f\nend\nend\n";
    assert_eq!(
        ParserState::parse_to_program(src).err(),
        Some("Error line:3, end not inside of function".to_string())
    );
}

#[test]
fn refused_line_leaves_state() {
    let mut st = ParserState::new();
    st.parse_instruction(words("defun int f")).unwrap();
    let before = st.instructions.len();
    assert!(st.parse_instruction(words("defun int g")).is_err());
    assert_eq!(st.instructions.len(), before);
    assert!(st.parse_instruction(words("br 1 a b")).is_err());
    assert_eq!(st.instructions.len(), before);
}

#[test]
fn calls_are_checked_against_signatures() {
    let mut st = ParserState::new();
    st.parse_instruction(words("defun int add a int b int")).unwrap();
    st.parse_instruction(words("end")).unwrap();
    st.parse_instruction(words("defun int main")).unwrap();
    st.parse_instruction(words("decl flag bool")).unwrap();
    assert!(st.parse_instruction(words("add flag 1 2")).is_err());
    assert!(st.parse_instruction(words("add _ 1 true")).is_err());
    assert!(st.parse_instruction(words("add _ 1")).is_err());
    assert!(st.parse_instruction(words("add _ 1 2")).is_ok());
    assert!(st.parse_instruction(words("missing _ 1 2")).is_err());
}

#[test]
fn declarations_are_numbered() {
    let mut st = ParserState::new();
    st.parse_instruction(words("static g int 5")).unwrap();
    st.parse_instruction(words("static h string hi")).unwrap();
    st.parse_instruction(words("defun int main")).unwrap();
    st.parse_instruction(words("decl x int")).unwrap();
    st.parse_instruction(words("decl y char")).unwrap();
    assert!(matches!(st.instructions[0], MikuInstr::DeclStatic { count: 0, .. }));
    assert!(matches!(st.instructions[1], MikuInstr::DeclStatic { count: 1, .. }));
    assert!(matches!(st.instructions[4], MikuInstr::DeclVar { count: 1, .. }));
    assert!(st.parse_instruction(words("static k int 1.5")).is_err());
    assert!(st.parse_instruction(words("static k float 1.5")).is_ok());
}

#[test]
fn program_translates_to_c() {
    let obj = ParserState::parse_to_program(ADD_PROGRAM).unwrap();
    let linked = MikuObject::link(&[obj]).unwrap();
    assert!(matches!(linked.instructions[7], MikuInstr::Call { to_index: Some(0), .. }));
    let c = tuci(linked);
    let expected = "#include \"miku_prelude.h\"\n\n\n\n\
long miku_add(long a,long b);\n\
long miku_main();\n\n\
long miku_add(long a,long b){\n    long c;\n    c = a + b;\n    return c;\n}\n\
long miku_main(){\n    long x;\n    x = miku_add(1,2);\n    return x;\n}\n";
    assert_eq!(c, expected);
}

#[test]
fn linking_moves_positions() {
    let a = ParserState::parse_to_program("defun int f\nl: jmp l\nend\n").unwrap();
    let b = ParserState::parse_to_program("static g int 3\ndefun int h\nm: jmp m\nret g\nend\n").unwrap();
    let linked = MikuObject::link(&[a, b]).unwrap();
    // the static declaration is dropped; the second unit starts after the first unit's
    // four instructions
    assert_eq!(linked.instructions.len(), 9);
    assert!(matches!(linked.instructions[1], MikuInstr::Label { label_index: 1, .. }));
    assert!(matches!(linked.instructions[2], MikuInstr::Jmp { to_index: Some(1), .. }));
    assert!(matches!(linked.instructions[5], MikuInstr::Label { label_index: 5, .. }));
    assert!(matches!(linked.instructions[6], MikuInstr::Jmp { to_index: Some(6), .. }));
    assert_eq!(linked.functions.len(), 2);
    assert_eq!(linked.functions[1].index, Some(5));
    assert_eq!(linked.global_vars.len(), 1);
    assert_eq!(linked.global_vars.get("g").map(|d| d.index), Some(4));
}

#[test]
fn linking_refuses_calls_to_extern_functions() {
    let a = ParserState::parse_to_program("extern int put x int\ndefun int main\nput _ 1\nend\n").unwrap();
    assert_eq!(
        MikuObject::link(&[a]).err(),
        Some("could not find function \"put\"".to_string())
    );
}

#[test]
fn tokenizer_is_built() {
    let _t = Tokenizer::new("a == \"x y\" + b\nc<d");
}
