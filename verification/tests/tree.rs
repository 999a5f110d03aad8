use k9_console::reduce::{
    expand_command_param, expand_command_param_flag, expand_command_param_indexed_value,
    expand_command_param_name_value_pair, expand_command_param_value, expand_command_parameters,
    is_command_line_tree, is_flag_tree, is_indexed_value_tree, is_name_value_pair_tree, is_param_tree,
    is_parameters_tree, is_value_tree, reduce,
};
use k9_console::tree::{
    check_escapes, escape_warnings, expand_parse_tree_node, known_escape, SyntaxNode, SyntaxTree,
};

fn leaf(text: &str) -> SyntaxNode {
    SyntaxNode::Terminal(text.to_string())
}

fn tree(lhs: &str, rhs: Vec<SyntaxNode>) -> SyntaxTree {
    SyntaxTree { lhs: lhs.to_string(), rhs }
}

fn node(lhs: &str, rhs: Vec<SyntaxNode>) -> SyntaxNode {
    SyntaxNode::Nonterminal(tree(lhs, rhs))
}

fn word(text: &str) -> SyntaxNode {
    node("<token>", text.chars().map(|c| leaf(&c.to_string())).collect())
}

fn escape(c: &str) -> SyntaxNode {
    node("<escape_char>", vec![leaf("\\"), node("<escaped>", vec![leaf(c)])])
}

fn implicit(text: &str) -> SyntaxTree {
    tree("<value>", vec![node("<string_implicit>", vec![leaf(text)])])
}

fn pair(name: &str, value: &str) -> (String, String) {
    (name.to_string(), value.to_string())
}

#[test]
fn the_text_of_a_node_joins_its_leaves() {
    assert_eq!(expand_parse_tree_node(&leaf("abc")), "abc");
    assert_eq!(expand_parse_tree_node(&word("quit")), "quit");
    assert_eq!(expand_parse_tree_node(&node("<empty>", Vec::new())), "");
    let nested = node("<a>", vec![leaf("x"), node("<b>", vec![leaf("y"), word("zz")]), leaf("!")]);
    assert_eq!(expand_parse_tree_node(&nested), "xyzz!");
}

#[test]
fn escape_sequences_are_decoded() {
    for (escaped, decoded) in
        [("\"", "\""), ("\\", "\\"), ("n", "\n"), ("r", "\r"), ("t", "\t"), ("q", "q"), ("\n", "\n"), ("0", "0")]
    {
        assert_eq!(expand_parse_tree_node(&escape(escaped)), decoded);
    }
    let text = node("<string_explicit>", vec![leaf("a"), escape("\""), leaf("b"), escape("n"), leaf("c")]);
    assert_eq!(expand_parse_tree_node(&text), "a\"b\nc");
    assert_eq!(expand_parse_tree_node(&text).chars().count(), 5);
}

#[test]
fn an_escape_without_its_character_is_incomplete() {
    assert!(check_escapes(&escape("n")));
    assert!(check_escapes(&leaf("x")));
    let broken = node("<escape_char>", vec![leaf("\\")]);
    assert!(!check_escapes(&broken));
    assert!(!check_escapes(&node("<a>", vec![leaf("x"), node("<b>", vec![broken])])));
    assert!(!check_escapes(&node("<escape_char>", vec![leaf("\\"), node("<escape_char>", Vec::new())])));
}

#[test]
fn a_value_is_implicit_empty_or_quoted() {
    assert_eq!(expand_command_param_value(&implicit("12")), "12");
    let empty = tree("<value>", vec![leaf("\"\"")]);
    assert!(is_value_tree(&empty));
    assert_eq!(expand_command_param_value(&empty), "");
    let quoted = tree(
        "<value>",
        vec![leaf("\""), node("<string_explicit>", vec![leaf("a b"), escape("t")]), leaf("\"")],
    );
    assert!(is_value_tree(&quoted));
    assert_eq!(expand_command_param_value(&quoted), "a b\t");
    assert!(!is_value_tree(&tree("<value>", Vec::new())));
    assert!(!is_value_tree(&tree("<value>", vec![leaf("\"")])));
    assert!(!is_value_tree(&tree("<value>", vec![node("<escape_char>", Vec::new())])));
}

#[test]
fn each_kind_of_parameter_reduces_to_a_pair() {
    let named = tree(
        "<name_value_pair>",
        vec![word("count"), node("<ws_star>", vec![leaf("")]), leaf(":"), node("<ws_star>", Vec::new()), SyntaxNode::Nonterminal(implicit("3"))],
    );
    assert!(is_name_value_pair_tree(&named));
    assert_eq!(expand_command_param_name_value_pair(&named), pair("count", "3"));
    let flag = tree("<flag>", vec![leaf("--"), word("loud")]);
    assert!(is_flag_tree(&flag));
    assert_eq!(expand_command_param_flag(&flag), pair("loud", "true"));
    let indexed = tree("<indexed_value>", vec![SyntaxNode::Nonterminal(implicit("orc"))]);
    assert!(is_indexed_value_tree(&indexed));
    assert_eq!(expand_command_param_indexed_value(&indexed), pair("", "orc"));
    for (inner, expected) in [(named, pair("count", "3")), (flag, pair("loud", "true")), (indexed, pair("", "orc"))] {
        let param = tree("<command_param>", vec![SyntaxNode::Nonterminal(inner)]);
        assert!(is_param_tree(&param));
        assert_eq!(expand_command_param(&param), expected);
    }
}

#[test]
fn parameters_of_other_shapes_are_told_apart() {
    assert!(!is_name_value_pair_tree(&tree("<name_value_pair>", vec![word("a"), leaf(":"), leaf("b")])));
    assert!(!is_name_value_pair_tree(&tree(
        "<name_value_pair>",
        vec![word("a"), leaf(""), leaf(":"), leaf(""), leaf("b")]
    )));
    assert!(!is_flag_tree(&tree("<flag>", vec![leaf("--")])));
    assert!(!is_indexed_value_tree(&tree("<indexed_value>", vec![leaf("x")])));
    assert!(!is_indexed_value_tree(&tree("<indexed_value>", Vec::new())));
    assert!(!is_param_tree(&tree("<command_param>", vec![leaf("x")])));
    assert!(!is_param_tree(&tree("<command_param>", Vec::new())));
    assert!(!is_param_tree(&tree(
        "<command_param>",
        vec![node("<something_else>", vec![SyntaxNode::Nonterminal(implicit("x"))])]
    )));
    assert!(!is_param_tree(&tree("<command_param>", vec![node("<flag>", vec![leaf("--")])])));
}

fn param(value: &str) -> SyntaxNode {
    node(
        "<command_param>",
        vec![node("<indexed_value>", vec![SyntaxNode::Nonterminal(implicit(value))])],
    )
}

fn list(values: &[&str]) -> SyntaxTree {
    let (last, rest) = values.split_last().unwrap();
    if rest.is_empty() {
        tree("<command_parameters>", vec![param(last)])
    } else {
        tree(
            "<command_parameters>",
            vec![SyntaxNode::Nonterminal(list(rest)), node("<ws_plus>", vec![leaf(" ")]), param(last)],
        )
    }
}

#[test]
fn a_parameter_list_keeps_the_order_typed() {
    assert!(is_parameters_tree(&list(&["1"])));
    assert_eq!(expand_command_parameters(&list(&["1"])), vec![pair("", "1")]);
    let long = list(&["1", "2", "3", "4"]);
    assert!(is_parameters_tree(&long));
    assert_eq!(
        expand_command_parameters(&long),
        vec![pair("", "1"), pair("", "2"), pair("", "3"), pair("", "4")]
    );
    let headless = tree("<command_parameters>", vec![leaf("x")]);
    assert!(is_parameters_tree(&headless));
    assert_eq!(expand_command_parameters(&headless), Vec::new());
    assert!(!is_parameters_tree(&tree("<command_parameters>", Vec::new())));
    assert!(!is_parameters_tree(&tree(
        "<command_parameters>",
        vec![SyntaxNode::Nonterminal(list(&["1"])), leaf(" ")]
    )));
    assert!(!is_parameters_tree(&tree(
        "<command_parameters>",
        vec![SyntaxNode::Nonterminal(list(&["1"])), leaf(" "), leaf("2")]
    )));
}

#[test]
fn a_command_line_reduces_to_name_and_parameters() {
    let bare = tree("<command_line>", vec![node("<command_name>", vec![word("quit")])]);
    assert!(is_command_line_tree(&bare));
    assert_eq!(reduce(&bare), ("quit".to_string(), Vec::new()));
    let full = tree(
        "<command_line>",
        vec![
            node("<command_name>", vec![word("move")]),
            node("<ws_plus>", vec![leaf(" ")]),
            SyntaxNode::Nonterminal(list(&["1", "2"])),
        ],
    );
    assert!(is_command_line_tree(&full));
    assert_eq!(reduce(&full), ("move".to_string(), vec![pair("", "1"), pair("", "2")]));
    assert!(!is_command_line_tree(&tree("<command_line>", Vec::new())));
    assert!(!is_command_line_tree(&tree("<command_line>", vec![word("a"), leaf(" ")])));
    assert!(!is_command_line_tree(&tree("<command_line>", vec![word("a"), leaf(" "), leaf("b")])));
    assert!(!is_command_line_tree(&tree(
        "<command_line>",
        vec![node("<escape_char>", Vec::new())]
    )));
}

#[test]
fn unknown_escapes_are_listed_in_order() {
    for known in ["\"", "\\", "r", "n", "t"] {
        assert!(known_escape(known), "{:?}", known);
    }
    for unknown in ["", "q", "N", "0", "\n", "nn", " "] {
        assert!(!known_escape(unknown), "{:?}", unknown);
    }
    let text = tree(
        "<string_explicit>",
        vec![
            leaf("a"),
            escape("x"),
            node("<more>", vec![escape("n"), escape("y"), leaf("b")]),
            escape("\""),
            escape("z"),
            node("<escape_char>", vec![leaf("\\")]),
        ],
    );
    assert_eq!(escape_warnings(&text), vec!["x", "y", "z"]);
    assert_eq!(escape_warnings(&tree("<escape_char>", vec![leaf("\\"), leaf("w")])), vec!["w"]);
    assert_eq!(escape_warnings(&tree("<escape_char>", vec![leaf("\\"), leaf("t")])), Vec::<String>::new());
    assert_eq!(escape_warnings(&tree("<plain>", vec![leaf("x")])), Vec::<String>::new());
}
