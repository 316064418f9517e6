use java_metrics::outline::{attribute_lines_of, tree_lines};
use java_metrics::syntax::SyntaxNode;

fn node(kind: &str, field: Option<&str>, text: &str, children: Vec<SyntaxNode>) -> SyntaxNode {
    SyntaxNode {
        kind: kind.to_string(),
        field: field.map(|f| f.to_string()),
        text: text.to_string(),
        line: 1,
        children,
    }
}

fn sample() -> SyntaxNode {
    let field = node(
        "field_declaration",
        None,
        "int a, b;",
        vec![
            node("integral_type", Some("type"), "int", vec![]),
            node("variable_declarator", Some("declarator"), "a", vec![node("identifier", Some("name"), "a", vec![])]),
            node(",", None, ",", vec![]),
            node("variable_declarator", Some("declarator"), "b", vec![node("identifier", Some("name"), "b", vec![])]),
            node(";", None, ";", vec![]),
        ],
    );
    let method = node(
        "method_declaration",
        None,
        "String name() {}",
        vec![
            node("type_identifier", Some("type"), "String", vec![]),
            node("identifier", Some("name"), "name", vec![]),
        ],
    );
    let body = node("class_body", Some("body"), "{...}", vec![field, method]);
    let class = node(
        "class_declaration",
        None,
        "class A {...}",
        vec![node("identifier", Some("name"), "A", vec![]), body],
    );
    node("program", None, "class A {...}", vec![class])
}

#[test]
fn tree_lines_indent_each_level() {
    let root = node("program", None, "", vec![node("class_declaration", None, "", vec![node("identifier", None, "A", vec![])])]);
    assert_eq!(
        tree_lines(&root, 0),
        vec!["program".to_string(), "    class_declaration".to_string(), "        identifier".to_string()]
    );
    assert_eq!(tree_lines(&node("x", None, "", vec![]), 2), vec!["  x".to_string()]);
}

#[test]
fn attribute_lines_list_classes_fields_and_methods() {
    assert_eq!(
        attribute_lines_of(&sample(), 0),
        vec![
            "    class A".to_string(),
            "            a: int".to_string(),
            "            b: int".to_string(),
            "            name(): String".to_string(),
        ]
    );
}
