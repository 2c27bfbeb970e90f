use langs::rust_lisp::c::{compile_function, compile_instruction, compile_to_c, mangle_function, mangle_type, write_var};
use langs::rust_lisp::compiler::{compile, double_texts, Callable, Compiler, Function, Instruction, Scope, Type, Var};
use langs::rust_lisp::lisp::parse_string;
use langs::table::Table;

fn compiled(src: &str) -> Compiler {
    let nodes = parse_string(src).unwrap();
    compile(nodes, Table::new()).unwrap()
}

fn functions<'a>(c: &'a Compiler, name: &str) -> &'a Vec<Function> {
    c.global_functions.get(name).unwrap()
}

#[test]
fn builtins_come_first_in_order() {
    let c = Compiler::new(Table::new());
    let names: Vec<String> = (0..c.global_functions.count()).map(|i| c.global_functions.entry(i).0.clone()).collect();
    assert_eq!(names, vec!["print", "println", "+", "-", "*", "/", "==", ">=", "<=", "to_string"]);
    assert_eq!(functions(&c, "to_string").len(), 2);
}

#[test]
fn a_function_body_compiles_to_c() {
    let c = compiled("(defun main int () ((let x int) (= x 5) (return x)))");
    let out = compile_to_c(&c);
    let want = "#include \"prelude.h\"\n\
extern long bug_printbug_string(bug_string x0);\n\
extern long bug_printlnbug_string(bug_string x0);\n\
extern bug_string bug_to_stringlong(long x0);\n\
extern bug_string bug_to_stringdouble(double x0);\n\
extern long bug_main();\n\
long bug_main(){\n    long x0;\n    x0 = 5;\n    return x0;\n}\n\n\
int main(int argc ,const char ** argv){ return (int)(bug_main());}";
    assert_eq!(out, want);
}

#[test]
fn one_extern_line_per_function() {
    let c = compiled("(defun f int (a int) ((return a))) (defun main int () ((let x int) (= x (f 2)) (return x)))");
    let out = compile_to_c(&c);
    let mut stored = 0;
    for i in 0..c.global_functions.count() {
        let (k, v) = c.global_functions.entry(i);
        if !["+", "-", "*", "/", "==", "<=", ">="].contains(&k.as_str()) {
            stored += v.len();
        }
    }
    assert_eq!(out.lines().filter(|l| l.starts_with("extern ")).count(), stored);
    assert!(out.starts_with("#include \"prelude.h\"\n"));
    assert!(out.ends_with("int main(int argc ,const char ** argv){ return (int)(bug_main());}"));
}

#[test]
fn calls_go_through_temporaries() {
    let c = compiled("(defun main int () ((let x int) (= x (+ 1 2)) (print \"hi\") (return x)))");
    let f = &functions(&c, "main")[0];
    let body: Vec<String> = f.ins.iter().map(|i| compile_instruction(4, i)).collect();
    assert_eq!(
        body,
        vec![
            "    long x0;\n",
            "    long x1;\n",
            "    x1 = 1+2;\n",
            "    x0 = x1;\n",
            "    long x2;\n",
            "    x2 = bug_printbug_string(to_bug_string(\"hi\"));\n",
            "    return x0;\n",
        ]
    );
}

#[test]
fn parameters_are_the_first_locals() {
    let c = compiled("(defun add int (a int b int) ((return (+ a b))))");
    let f = &functions(&c, "add")[0];
    assert_eq!(f.arguments.len(), 2);
    assert_eq!(compile_function("add", f), "long bug_addlonglong(long x0,long x1){\n    long x2;\n    x2 = x0+x1;\n    return x2;\n}\n");
}

#[test]
fn a_function_without_a_body_value_is_not_declared() {
    let c = compiled("(defun f int () (return 1))");
    assert!(c.global_functions.get("f").is_none());
}

#[test]
fn branches_hold_both_bodies() {
    let c = compiled("(defun main int () ((let b int) (branch b ((= b 1)) ((= b 2))) (return b)))");
    let f = &functions(&c, "main")[0];
    let text = compile_instruction(0, &f.ins[1]);
    assert_eq!(text, "if(x0){    x0 = 1;\n} else {\n    x0 = 2;\n}\n");
}

#[test]
fn a_loop_drops_what_came_before_it() {
    let c = compiled("(defun main int () ((let b int) (loop b ((= b 1))) (return b)))");
    let f = &functions(&c, "main")[0];
    assert_eq!(f.ins.len(), 2);
    assert_eq!(compile_instruction(2, &f.ins[0]), "  while(x0){      x0 = 1;\n  }\n");
    assert!(matches!(f.ins[1], Instruction::Return { .. }));
}

#[test]
fn extern_declarations_are_replaced_by_definitions() {
    let c = compiled("(extern g int (a int)) (defun g int (a int) ((return a)))");
    let fs = functions(&c, "g");
    assert_eq!(fs.len(), 1);
    assert!(!fs[0].external);
}

#[test]
fn functions_without_arguments_are_all_kept() {
    let c = compiled("(extern h int ()) (extern h int ())");
    assert_eq!(functions(&c, "h").len(), 2);
}

#[test]
fn type_names() {
    let c = Compiler::new(Table::new());
    assert!(matches!(c.parse_type("[]int"), Some(Type::List { vtype }) if matches!(*vtype, Type::Integer)));
    assert!(matches!(c.parse_type("real"), Some(Type::Double)));
    assert!(matches!(c.parse_type("*xint"), Some(Type::Box { vtype }) if matches!(*vtype, Type::Integer)));
    assert!(c.parse_type("*int").is_none());
    assert!(c.parse_type("foo").is_none());
    assert!(c.is_valid_type("byte"));
}

#[test]
fn scopes_count_and_find_variables() {
    let mut s = Scope::new();
    let a = s.decl("a".to_string(), &Type::Integer);
    let t = s.decl_tmp(&Type::Double);
    assert!(matches!(a, Var::Basic { idx: 0, .. }));
    assert!(matches!(t, Var::Basic { idx: 1, .. }));
    assert_eq!(s.nv(), 2);
    assert!(s.is_defined("tmp_x1"));
    assert!(matches!(s.get_var("a"), Some(Var::Basic { idx: 0, .. })));
    assert!(s.get_var("b").is_none());
}

#[test]
fn scopes_nest_and_unwind() {
    let mut c = Compiler::new(Table::new());
    c.current_scope.decl("outer".to_string(), &Type::Integer);
    c.push_scope();
    assert!(c.current_scope.is_defined("outer"));
    c.current_scope.is_function_base = true;
    assert!(!c.current_scope.is_defined("outer"));
    assert_eq!(c.current_scope.nv(), 0);
    c.pop_scope();
    assert!(c.current_scope.is_defined("outer"));
}

#[test]
fn literals_and_doubles() {
    let nodes = parse_string("(x 1.5 2 \"s\" 3e2 y)").unwrap();
    assert_eq!(double_texts(&nodes), vec!["1.5".to_string(), "3e2".to_string()]);
    let mut shown = Table::new();
    shown.insert("3e2".to_string(), "300".to_string());
    let mut c = Compiler::new(shown);
    let v = c.compile(parse_string("3e2 ").unwrap().remove(0)).unwrap();
    assert_eq!(write_var(&v), "300");
    let v = c.compile(parse_string("-7 ").unwrap().remove(0)).unwrap();
    assert_eq!(write_var(&v), "-7");
    let v = c.compile(parse_string("\"q\" ").unwrap().remove(0)).unwrap();
    assert_eq!(write_var(&v), "to_bug_string(\"q\")");
}

#[test]
fn c_names() {
    assert_eq!(mangle_type(&Type::String), "bug_string");
    let f = Function { return_type: Type::Void, arguments: vec![Type::Char, Type::Double], ins: Vec::new(), external: true };
    assert_eq!(mangle_function("put", &f), "bug_putchardouble");
    assert_eq!(compile_function("put", &f), "extern void bug_putchardouble(char x0,double x1);");
    let call = Instruction::FunctionCall {
        to_call: Callable::Variable { v: Var::Basic { idx: 3, vtype: Type::Integer, byte_offset: 0 } },
        arguments: vec![Var::BoolLiteral { v: true }],
        output: None,
    };
    assert_eq!(compile_instruction(1, &call), " x3(true);\n");
}
