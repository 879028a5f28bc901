use calculator::tokens::generate_tokens;
use calculator::tree_builder::{
    build_expression_tree, fill_missing_ans, parse_square_braces, parse_tree_braces,
    ExpressionBuildError, Node,
};

fn leaves(line: &str) -> Vec<Node> {
    generate_tokens(&line.to_string())
        .into_iter()
        .map(Node::Tkn)
        .collect()
}

#[test]
fn operator_classification() {
    assert!(Node::Tkn("-".to_string()).is_unary_operator());
    assert!(Node::Tkn("&".to_string()).is_unary_operator());
    assert!(Node::Tkn("!".to_string()).is_unary_operator());
    assert!(!Node::Tkn("x".to_string()).is_unary_operator());
    assert!(Node::Tkn("=>".to_string()).is_binary_operator());
    assert!(Node::Tkn("^".to_string()).is_binary_operator());
    assert!(Node::Tkn("-".to_string()).is_operator());
    assert!(!Node::Exp(vec![]).is_operator());
}

#[test]
fn assignment_operator_recognition() {
    assert_eq!(
        Node::Tkn("=".to_string()).as_assignment_operator().cloned(),
        Some("=".to_string())
    );
    assert_eq!(
        Node::Tkn("=>".to_string()).as_assignment_operator().cloned(),
        Some("=>".to_string())
    );
    assert_eq!(Node::Tkn("+".to_string()).as_assignment_operator(), None);
}

#[test]
fn every_leaf_counts_as_an_identifier() {
    assert_eq!(
        Node::Tkn("5".to_string()).as_identifier().cloned(),
        Some("5".to_string())
    );
    assert!(Node::Exp(vec![]).as_identifier().is_none());
}

#[test]
fn unrolled_unwraps_single_child_groups() {
    let n = Node::Exp(vec![Node::Exp(vec![Node::Tkn("x".to_string())])]);
    match n.unrolled() {
        Node::Tkn(t) => assert_eq!(t, "x"),
        Node::Exp(_) => panic!("expected the inner leaf"),
    }
}

#[test]
fn flat_string_quotes_each_leaf() {
    let n = Node::Exp(vec![Node::Tkn("1".to_string()), Node::Tkn("+".to_string())]);
    assert_eq!(n.flat_string(), "'1', '+', ");
}

#[test]
fn square_braces_group_with_markers_kept() {
    let grouped = parse_square_braces(leaves("[ 1 ] 2")).unwrap();
    assert_eq!(grouped.len(), 2);
    match &grouped[0] {
        Node::Exp(children) => {
            assert_eq!(children.len(), 3);
            assert!(children[0].is_str("["));
            assert!(children[1].is_str("1"));
            assert!(children[2].is_str("]"));
        },
        Node::Tkn(_) => panic!("expected a bracket group"),
    }
    assert!(grouped[1].is_str("2"));
}

#[test]
fn unclosed_bracket_is_reported() {
    assert_eq!(
        parse_square_braces(leaves("[ 1 , 2")),
        Err(ExpressionBuildError::UnbalancedBracket)
    );
}

#[test]
fn parentheses_group_recursively() {
    let resolved = parse_tree_braces(&leaves("( ( a ) b ) c")).unwrap();
    assert_eq!(resolved.len(), 2);
    match &resolved[0] {
        Node::Exp(outer) => {
            assert_eq!(outer.len(), 2);
            assert!(matches!(outer[0], Node::Exp(_)));
            assert!(outer[1].is_str("b"));
        },
        Node::Tkn(_) => panic!("expected a group"),
    }
    assert!(resolved[1].is_str("c"));
}

#[test]
fn sibling_paren_groups_both_resolve() {
    let resolved = parse_tree_braces(&leaves("( a ) ( b )")).unwrap();
    assert_eq!(resolved.len(), 2);
    assert!(matches!(resolved[0], Node::Exp(_)));
    assert!(matches!(resolved[1], Node::Exp(_)));
}

#[test]
fn unclosed_parenthesis_is_reported() {
    assert_eq!(
        parse_tree_braces(&leaves("( a + b")),
        Err(ExpressionBuildError::UnbalancedParenthesis)
    );
}

#[test]
fn ans_is_inserted_before_a_leading_binary_operator() {
    let mut nodes = leaves("+ 5");
    fill_missing_ans(&mut nodes);
    assert_eq!(nodes.len(), 3);
    assert!(nodes[0].is_str("ans"));
    assert!(nodes[1].is_str("+"));
    assert!(nodes[2].is_str("5"));
}

#[test]
fn ans_is_not_inserted_before_a_value() {
    let mut nodes = leaves("5 + 5");
    fill_missing_ans(&mut nodes);
    assert_eq!(nodes.len(), 3);
    assert!(nodes[0].is_str("5"));
}

#[test]
fn built_tree_folds_precedence_tiers() {
    let tree = build_expression_tree(generate_tokens(&"1 + 2 * 3".to_string())).unwrap();
    // The folded tree is one ternary group: 1 + (2 * 3).
    match tree {
        Node::Exp(top) => {
            assert_eq!(top.len(), 1);
            match &top[0] {
                Node::Exp(t) => {
                    assert_eq!(t.len(), 3);
                    assert!(t[0].is_str("1"));
                    assert!(t[1].is_str("+"));
                    match &t[2] {
                        Node::Exp(inner) => {
                            assert_eq!(inner.len(), 3);
                            assert!(inner[0].is_str("2"));
                            assert!(inner[1].is_str("*"));
                            assert!(inner[2].is_str("3"));
                        },
                        Node::Tkn(_) => panic!("expected the product group"),
                    }
                },
                Node::Tkn(_) => panic!("expected the sum group"),
            }
        },
        Node::Tkn(_) => panic!("expected the root group"),
    }
}
