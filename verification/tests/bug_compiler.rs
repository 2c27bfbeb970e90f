use langs::bug_new::parser::Type as T;
use langs::bug_new::tokenizer::{TokenType, Tokenizer};
use langs::bug::bug::{parse_program, Context, Function, Statement, Type};
use langs::bug::compiler::{compile_to_ir, Compiler, Ir, IrFunc, Var};
use langs::bug::parser::{Expr, OpType, Opr};
use langs::bug::tokens::{Token, TokenStream};
use langs::table::Table;

fn tokens(s: &str) -> Vec<Token> {
    TokenStream::new(s, "t.bug").collect()
}

fn ops(f: &IrFunc) -> Vec<(OpType, i64)> {
    f.ins.iter().map(|o| (o.t, o.v)).collect()
}

#[test]
fn a_function_is_compiled_and_checked() {
    let c = parse_program(tokens("defun main int () { return 1 + 2; }"), &Table::new()).unwrap();
    let ir = compile_to_ir(&c).unwrap();
    assert_eq!(ir.functions.len(), 1);
    assert_eq!(ir.externs.len(), 1);
    assert_eq!(ir.functions[0].name, "main");
    assert_eq!(
        ops(&ir.functions[0]).iter().map(|p| p.0).collect::<Vec<_>>(),
        vec![OpType::o_num, OpType::o_num, OpType::o_ad, OpType::o_return]
    );
}

#[test]
fn loops_take_three_labels() {
    let c = parse_program(tokens("defun main int () { while (1) { 2; } }"), &Table::new()).unwrap();
    let ir = compile_to_ir(&c).unwrap();
    let got = ops(&ir.functions[0]);
    assert_eq!(got[0], (OpType::o_lable, 0));
    assert_eq!(got[2], (OpType::o_cgt, 1));
    assert_eq!(got[3], (OpType::o_gt, 2));
    assert_eq!(got[4], (OpType::o_lable, 1));
    assert_eq!(got[got.len() - 2], (OpType::o_gt, 0));
    assert_eq!(got[got.len() - 1], (OpType::o_lable, 2));
}

#[test]
fn returning_a_value_from_a_void_function_is_an_error() {
    let mut one = Opr::new();
    one.t = OpType::o_num;
    let f = Function {
        name: "main".to_string(),
        args: Vec::new(),
        return_type: Type::TVoid,
        list: vec![Statement::Return { list: Expr { ops: vec![one] } }],
    };
    let c = Context { types: Vec::new(), functions: vec![f], externs: Vec::new() };
    assert_eq!(compile_to_ir(&c).unwrap_err(), "attempted to return from a void function");
}

#[test]
fn mismatched_operands_are_a_type_error() {
    let c = parse_program(tokens("defun main int () { return 1 + \"a\"; }"), &Table::new()).unwrap();
    let e = compile_to_ir(&c).unwrap_err();
    assert!(e.starts_with("mismatched types:"));
    assert!(e.ends_with(", line:1"));
}

#[test]
fn an_unknown_identifier_is_an_error() {
    let c = parse_program(tokens("defun main int () { return y; }"), &Table::new()).unwrap();
    let e = compile_to_ir(&c).unwrap_err();
    assert_eq!(e, "undeclared indentifier:y, line:1");
}

#[test]
fn a_called_function_name_becomes_a_function_operation() {
    let c = parse_program(
        tokens("extern print int (s string); defun main int () { print(\"hi\"); return 0; }"),
        &Table::new(),
    )
    .unwrap();
    let ir = compile_to_ir(&c).unwrap();
    let kinds: Vec<OpType> = ir.functions[0].ins.iter().map(|o| o.t).collect();
    assert!(kinds.contains(&OpType::o_function));
    assert!(!kinds.contains(&OpType::o_idnt));
}

#[test]
fn declared_variables_are_found_from_the_outermost_scope() {
    let mut c = Compiler {
        ir: Ir { functions: Vec::new(), externs: Vec::new(), types: Vec::new() },
        label_count: 0,
        scopes: Vec::new(),
    };
    c.push_scope();
    c.dec_var(Var { name: "x".to_string(), vt: Type::TInt });
    c.push_scope();
    c.dec_var(Var { name: "x".to_string(), vt: Type::TStr });
    assert!(matches!(c.check_var("x").unwrap().vt, Type::TInt));
    assert!(c.check_var("y").is_none());
    c.pop_scope();
    c.pop_scope();
    c.pop_scope();
    assert!(c.scopes.is_empty());
}

#[test]
fn second_front_end_struct_layout() {
    let s = T::Struct { of: vec![T::Char, T::Integer, T::Char] };
    assert_eq!(s.size_of(), 17);
    assert_eq!(s.align_of(), 8);
    let a = T::Array { of: Box::new(T::Integer), size: 3 };
    assert_eq!(a.size_of(), 24);
    assert_eq!(T::Slice { of: Box::new(T::Char) }.size_of(), 16);
    assert_eq!(T::Void.align_of(), 0);
}

#[test]
fn second_front_end_whitespace_reads_as_the_end() {
    let mut t = Tokenizer::new("  \n\t ");
    let tok = t.next_token();
    assert_eq!(tok.tt, TokenType::TokenNone);
    assert_eq!(tok.st, "  \n\t ");
    assert_eq!(t.current, "");
    let mut u = Tokenizer::new("(x");
    assert_eq!(u.next_token().tt, TokenType::OpenParen);
    assert_eq!(u.current, "x");
}
