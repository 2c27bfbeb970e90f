use langs::bug::parser::{eval_op, parse_expression, write_var, Eval, Op, OpType, Opr, Var};
use langs::bug::tokens::{Token, TokenStream, TokenType};

fn tokens(s: &str) -> Vec<Token> {
    TokenStream::new(s, "t.bug").collect()
}

fn kinds(ops: &[Opr]) -> Vec<OpType> {
    ops.iter().map(|o| o.t).collect()
}

#[test]
fn precedence_and_operand_order() {
    let e = parse_expression(&tokens("a = 1 + 2 * b")).unwrap();
    assert_eq!(
        kinds(&e.ops),
        vec![OpType::o_idnt, OpType::o_num, OpType::o_ml, OpType::o_num, OpType::o_idnt, OpType::o_ad, OpType::o_as]
    );
    assert_eq!(e.ops[0].s, "b");
    assert_eq!(e.ops[1].v, 2);
    assert_eq!(e.ops[3].v, 1);
    assert_eq!(e.ops[4].s, "a");
}

#[test]
fn calls_take_their_arguments_first() {
    let e = parse_expression(&tokens("f(1, x)")).unwrap();
    assert_eq!(kinds(&e.ops), vec![OpType::o_num, OpType::o_idnt, OpType::o_idnt, OpType::o_call]);
    assert_eq!(e.ops[2].s, "f");
    assert_eq!(e.ops[3].v, 2);
    assert_eq!(e.ops[3].token.tt, TokenType::TokenCloseParen);
}

#[test]
fn a_call_without_arguments() {
    let e = parse_expression(&tokens("g()")).unwrap();
    assert_eq!(kinds(&e.ops), vec![OpType::o_idnt, OpType::o_call]);
    assert_eq!(e.ops[1].v, 0);
}

#[test]
fn parentheses_group() {
    let e = parse_expression(&tokens("(1 + 2) * 3")).unwrap();
    assert_eq!(kinds(&e.ops), vec![OpType::o_num, OpType::o_num, OpType::o_ad, OpType::o_num, OpType::o_ml]);
    assert_eq!(e.ops[0].v, 2);
    assert_eq!(e.ops[3].v, 3);
}

#[test]
fn a_lone_float_keeps_its_text() {
    let e = parse_expression(&tokens("1.5")).unwrap();
    assert_eq!(kinds(&e.ops), vec![OpType::o_flt]);
    assert_eq!(e.ops[0].f, "1.5");
}

#[test]
fn expression_errors() {
    assert_eq!(parse_expression(&tokens("a ;")).unwrap_err(), "unsupported_token");
    assert_eq!(parse_expression(&tokens("f(1")).unwrap_err(), "expected close paren");
    assert!(parse_expression(&[]).unwrap().ops.is_empty());
}

#[test]
fn operators_write_their_operands() {
    let mut ev = Eval { oprs: Vec::new(), ops: Vec::new(), vars: Vec::new(), sp: 0 };
    let t = tokens("x 7");
    write_var(&mut ev, Var { t: t[1].clone(), sv: -1 });
    assert_eq!(ev.oprs[0].t, OpType::o_num);
    ev.vars.push(Var { t: t[0].clone(), sv: -1 });
    eval_op(Op::Sub, &mut ev);
    assert_eq!(kinds(&ev.oprs), vec![OpType::o_num, OpType::o_idnt, OpType::o_sb]);
    assert!(ev.vars.is_empty());
    let blank = Opr::new();
    assert_eq!((blank.t, blank.v, blank.f.as_str()), (OpType::o_ad, -1, "-1"));
}

#[test]
fn collect_until_returns_the_prefix_before_the_one_that_satisfies() {
    let v = vec![1, 2, 3, 4];
    let mut s = langs::bug::utils::Stream::new(&v);
    let r = s.collect_until(&|p: &[i32]| p.len() >= 2);
    assert_eq!(r.values, &[1, 2]);
    assert_eq!(s.values, &[4]);
    let mut s2 = langs::bug::utils::Stream::new(&v);
    let r2 = s2.collect_until(&|_p: &[i32]| false);
    assert_eq!(r2.values, &[1, 2, 3]);
    assert!(s2.values.is_empty());
}

#[test]
fn collecting_tokens_reads_to_the_end() {
    let mut ts = langs::bug::tokens::TokenStream::new("x==1;\ny", "f");
    let toks = ts.collect();
    let got: Vec<(&str, langs::bug::tokens::TokenType, usize)> =
        toks.iter().map(|t| (t.st.as_str(), t.tt, t.line)).collect();
    let expected = vec![
        ("x", langs::bug::tokens::TokenType::TokenIdent, 1),
        ("==", langs::bug::tokens::TokenType::TokenOperator, 1),
        ("1", langs::bug::tokens::TokenType::TokenInt, 1),
        (";", langs::bug::tokens::TokenType::TokenSemi, 1),
        ("y", langs::bug::tokens::TokenType::TokenIdent, 2),
    ];
    assert_eq!(got, expected);
    assert!(toks.iter().all(|t| t.file == "f"));
    assert!(ts.next().is_none());
}
