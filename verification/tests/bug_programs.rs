use langs::bug::bug::{
    include_file, include_paths, parse_program, parse_scope, parse_statement, parse_type, Context, Statement, Type,
};
use langs::bug::parser::OpType;
use langs::bug::tokens::{Token, TokenStream};
use langs::bug::utils::Stream;
use langs::table::Table;

fn tokens(s: &str) -> Vec<Token> {
    TokenStream::new(s, "t.bug").collect()
}

fn empty() -> Context {
    Context { types: Vec::new(), functions: Vec::new(), externs: Vec::new() }
}

fn kinds(st: &Statement) -> Vec<OpType> {
    let e = match st {
        Statement::Basic { list } | Statement::Return { list } | Statement::Declare { list, .. } => list,
        Statement::While { cond, .. } | Statement::If { cond, .. } => cond,
    };
    e.ops.iter().map(|o| o.t).collect()
}

#[test]
fn a_declaration_starts_its_expression_at_the_name() {
    let t = tokens("let int x = 1 + 2; y;");
    let mut s = Stream::new(&t);
    let mut c = empty();
    let st = parse_statement(&mut c, &mut s).unwrap();
    match &st {
        Statement::Declare { v, .. } => {
            assert_eq!(v.name, "x");
            assert!(matches!(v.vtype, Type::TInt));
        },
        _ => panic!("not a declaration"),
    }
    assert_eq!(kinds(&st), vec![OpType::o_num, OpType::o_num, OpType::o_ad, OpType::o_idnt, OpType::o_as]);
    assert_eq!(s.values.len(), 2);
}

#[test]
fn branches_and_loops() {
    let t = tokens("if (a) { b; } else { c; } while (x) { return x; }");
    let mut c = empty();
    let list = parse_scope(&mut c, Stream::new(&t)).unwrap();
    assert_eq!(list.len(), 2);
    match &list[0] {
        Statement::If { list, else_list, .. } => {
            assert_eq!(list.len(), 1);
            assert_eq!(else_list.len(), 1);
            assert!(matches!(else_list[0], Statement::Basic { .. }));
        },
        _ => panic!("not a branch"),
    }
    match &list[1] {
        Statement::While { list, .. } => assert!(matches!(list[0], Statement::Return { .. })),
        _ => panic!("not a loop"),
    }
}

#[test]
fn type_names_of_bug() {
    let c = empty();
    assert!(matches!(parse_type(&c, "float"), Ok(Type::TFloat)));
    assert!(matches!(parse_type(&c, "string"), Ok(Type::TStr)));
    assert_eq!(parse_type(&c, "bool").unwrap_err(), "undefined type:bool");
}

#[test]
fn a_program_with_an_extern_and_a_function() {
    let t = tokens("extern print int (s string); defun main int () { return 1; }");
    let c = parse_program(t, &Table::new()).unwrap();
    assert_eq!(c.externs.len(), 1);
    assert_eq!(c.externs[0].name, "print");
    assert_eq!(c.externs[0].args.len(), 1);
    assert!(matches!(c.externs[0].args[0].vtype, Type::TStr));
    assert_eq!(c.functions.len(), 1);
    assert_eq!(c.functions[0].name, "main");
    assert_eq!(kinds(&c.functions[0].list[0]), vec![OpType::o_num]);
}

#[test]
fn an_undefined_parameter_type_is_an_error() {
    let t = tokens("defun f int (a bool) { }");
    assert_eq!(parse_program(t, &Table::new()).unwrap_err(), "undefined type:bool");
}

#[test]
fn included_files_declare_externs() {
    let mut files = Table::new();
    files.insert("lib.bug".to_string(), "pub defun helper int (a int) pub extern defun ext char ()".to_string());
    let t = tokens("#include \"lib.bug\" defun main int () { return helper(1); }");
    assert_eq!(include_paths(&t), vec!["lib.bug".to_string()]);
    let c = parse_program(t, &files).unwrap();
    let names: Vec<&str> = c.externs.iter().map(|f| f.name.as_str()).collect();
    assert_eq!(names, vec!["helper", "ext"]);
    let mut c2 = empty();
    assert_eq!(include_file(&mut c2, "other.bug", &files).unwrap_err(), "cannot read other.bug");
}
