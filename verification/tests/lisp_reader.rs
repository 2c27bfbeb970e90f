use langs::rust_lisp::lisp::{parse_string, Node, TokenList};

#[test]
fn tokens_of_a_call() {
    let mut t = TokenList::new("(print \"i love toast\")");
    assert_eq!(t.next_item().ok(), Some("(".to_string()));
    assert_eq!(t.next_item().ok(), Some("print".to_string()));
    assert_eq!(t.next_item().ok(), Some("\"i love toast\"".to_string()));
    assert_eq!(t.next_item().ok(), Some(")".to_string()));
    assert!(t.is_empty());
    assert!(t.next_item().is_err());
}

#[test]
fn parse_nested_lists() {
    let nodes = parse_string("(a (b c) d) e ").ok().unwrap();
    assert_eq!(nodes.len(), 2);
    match &nodes[0] {
        Node::List { s } => {
            assert_eq!(s.len(), 3);
            assert_eq!(s[0].assume_value(), Some("a".to_string()));
            assert_eq!(s[1].assume_list().map(|l| l.len()), Some(2));
        }
        Node::Value { .. } => panic!("expected a list"),
    }
    assert_eq!(nodes[1].assume_value(), Some("e".to_string()));
}
