use java_metrics::class::{is_god_class, MetricsClass, ATFD_MIN, WMC_MIN};
use java_metrics::error::AnalysisError;
use java_metrics::method::MetricsMethod;
use java_metrics::metrics::{analyze, god_class_lines, Metrics};
use java_metrics::syntax::{text_eq, SyntaxNode};

fn node(kind: &str, text: &str, children: Vec<SyntaxNode>) -> SyntaxNode {
    SyntaxNode { kind: kind.to_string(), field: None, text: text.to_string(), line: 1, children }
}

fn leaf(kind: &str, text: &str) -> SyntaxNode {
    node(kind, text, Vec::new())
}

fn role(field: &str, mut n: SyntaxNode) -> SyntaxNode {
    n.field = Some(field.to_string());
    n
}

fn at_line(line: usize, mut n: SyntaxNode) -> SyntaxNode {
    n.line = line;
    n
}

fn ident(name: &str) -> SyntaxNode {
    leaf("identifier", name)
}

fn block(stmts: Vec<SyntaxNode>) -> SyntaxNode {
    let mut children = vec![leaf("{", "{")];
    children.extend(stmts);
    children.push(leaf("}", "}"));
    node("block", "{...}", children)
}

fn stmt(expr: SyntaxNode) -> SyntaxNode {
    node("expression_statement", "...;", vec![expr, leaf(";", ";")])
}

fn method(name: &str, stmts: Vec<SyntaxNode>) -> SyntaxNode {
    node(
        "method_declaration",
        "...",
        vec![
            role("type", leaf("void_type", "void")),
            role("name", ident(name)),
            role("parameters", node("formal_parameters", "()", vec![leaf("(", "("), leaf(")", ")")])),
            role("body", block(stmts)),
        ],
    )
}

fn constructor(name: &str, stmts: Vec<SyntaxNode>) -> SyntaxNode {
    node(
        "constructor_declaration",
        "...",
        vec![
            role("name", ident(name)),
            role("parameters", node("formal_parameters", "()", vec![leaf("(", "("), leaf(")", ")")])),
            role("body", node("constructor_body", "{...}", stmts)),
        ],
    )
}

fn field_decl(names: &[&str]) -> SyntaxNode {
    let mut children = vec![role("type", leaf("integral_type", "int"))];
    for (i, n) in names.iter().enumerate() {
        if i > 0 {
            children.push(leaf(",", ","));
        }
        children.push(role("declarator", node("variable_declarator", n, vec![role("name", ident(n))])));
    }
    children.push(leaf(";", ";"));
    node("field_declaration", "...", children)
}

fn class(name: &str, line: usize, members: Vec<SyntaxNode>) -> SyntaxNode {
    let mut body = vec![leaf("{", "{")];
    body.extend(members);
    body.push(leaf("}", "}"));
    node(
        "class_declaration",
        "...",
        vec![
            leaf("class", "class"),
            role("name", at_line(line, ident(name))),
            role("body", node("class_body", "{...}", body)),
        ],
    )
}

fn program(decls: Vec<SyntaxNode>) -> SyntaxNode {
    node("program", "...", decls)
}

fn field_access(object: SyntaxNode, field: &str) -> SyntaxNode {
    node("field_access", "...", vec![role("object", object), leaf(".", "."), role("field", ident(field))])
}

fn assign(left: SyntaxNode, right: SyntaxNode) -> SyntaxNode {
    node("assignment_expression", "...", vec![role("left", left), leaf("=", "="), role("right", right)])
}

fn number(text: &str) -> SyntaxNode {
    leaf("decimal_integer_literal", text)
}

fn call(object: Option<SyntaxNode>, name: &str, args: Vec<SyntaxNode>) -> SyntaxNode {
    let mut children = Vec::new();
    if let Some(o) = object {
        children.push(role("object", o));
        children.push(leaf(".", "."));
    }
    children.push(role("name", ident(name)));
    let mut list = vec![leaf("(", "(")];
    for (i, a) in args.into_iter().enumerate() {
        if i > 0 {
            list.push(leaf(",", ","));
        }
        list.push(a);
    }
    list.push(leaf(")", ")"));
    children.push(role("arguments", node("argument_list", "(...)", list)));
    node("method_invocation", "...", children)
}

fn paren(expr: SyntaxNode) -> SyntaxNode {
    node("parenthesized_expression", "(...)", vec![leaf("(", "("), expr, leaf(")", ")")])
}

fn binary(left: SyntaxNode, op: &str, right: SyntaxNode) -> SyntaxNode {
    node("binary_expression", "...", vec![role("left", left), role("operator", leaf(op, op)), role("right", right)])
}

fn if_stmt(cond: SyntaxNode, then: Vec<SyntaxNode>, alternative: Option<SyntaxNode>) -> SyntaxNode {
    let mut children = vec![leaf("if", "if"), role("condition", paren(cond)), role("consequence", block(then))];
    if let Some(a) = alternative {
        children.push(leaf("else", "else"));
        children.push(role("alternative", a));
    }
    node("if_statement", "...", children)
}

fn method_metrics(decl: &SyntaxNode) -> MetricsMethod {
    let mut m = MetricsMethod::new();
    m.compute(decl);
    m
}

fn class_metrics(decl: &SyntaxNode) -> MetricsClass {
    let mut c = MetricsClass::new(true);
    c.compute(decl);
    c
}

fn has_usage(m: &MetricsMethod, name: &str) -> bool {
    m.usage_field_list.iter().any(|u| u == name)
}

/// A method with `branches` if statements and the calls `o.getA()` repeated `calls` times.
fn busy_method(name: &str, branches: usize, calls: usize) -> SyntaxNode {
    let mut stmts = Vec::new();
    for _ in 0..branches {
        stmts.push(if_stmt(ident("a"), Vec::new(), None));
    }
    for _ in 0..calls {
        stmts.push(stmt(call(Some(ident("o")), "getA", Vec::new())));
    }
    method(name, stmts)
}

#[test]
fn new_method_metrics_start_at_one() {
    let m = MetricsMethod::new();
    assert_eq!(m.name, "");
    assert_eq!(m.cyclomatic, 1);
    assert!(m.usage_field_list.is_empty());
}

#[test]
fn straight_line_method_has_complexity_one() {
    let decl = method("f", vec![stmt(assign(ident("y"), number("1"))), stmt(call(None, "g", vec![ident("y")]))]);
    let m = method_metrics(&decl);
    assert_eq!(m.name, "f");
    assert_eq!(m.cyclomatic, 1);
}

#[test]
fn if_else_if_with_and_has_complexity_four() {
    let inner = if_stmt(ident("c"), Vec::new(), None);
    let decl = method("f", vec![if_stmt(binary(ident("a"), "&&", ident("b")), Vec::new(), Some(inner))]);
    assert_eq!(method_metrics(&decl).cyclomatic, 4);
}

#[test]
fn loops_ternary_catch_and_throw_add_one_each() {
    let while_stmt = node(
        "while_statement",
        "...",
        vec![leaf("while", "while"), role("condition", paren(binary(ident("a"), "||", ident("b")))), role("body", block(vec![]))],
    );
    let for_each = node("enhanced_for_statement", "...", vec![role("body", block(vec![]))]);
    let ternary = node(
        "ternary_expression",
        "...",
        vec![role("condition", ident("a")), leaf("?", "?"), role("consequence", number("1")), leaf(":", ":"), role("alternative", number("2"))],
    );
    let try_stmt = node(
        "try_statement",
        "...",
        vec![role("body", block(vec![])), node("catch_clause", "...", vec![block(vec![])])],
    );
    let throw_stmt = node("throw_statement", "...", vec![leaf("throw", "throw"), ident("e"), leaf(";", ";")]);
    let decl = method("f", vec![while_stmt, for_each, stmt(ternary), try_stmt, throw_stmt]);
    // 1 + while + || + for-each + ternary + catch + throw
    assert_eq!(method_metrics(&decl).cyclomatic, 7);
}

#[test]
fn switch_labels_count_except_default() {
    let group = |label: SyntaxNode| node("switch_block_statement_group", "...", vec![label, leaf(":", ":")]);
    let switch_block = node(
        "switch_block",
        "{...}",
        vec![
            group(node("switch_label", "case 1", vec![leaf("case", "case"), number("1")])),
            group(node("switch_label", "case 2", vec![leaf("case", "case"), number("2")])),
            group(node("switch_label", "default", vec![leaf("default", "default")])),
        ],
    );
    let switch = node(
        "switch_expression",
        "...",
        vec![leaf("switch", "switch"), role("condition", paren(ident("k"))), role("body", switch_block)],
    );
    let decl = method("f", vec![switch]);
    assert_eq!(method_metrics(&decl).cyclomatic, 3);
}

#[test]
fn assert_adds_two() {
    let assertion = node("assert_statement", "...", vec![leaf("assert", "assert"), ident("ok"), leaf(";", ";")]);
    let decl = method("f", vec![assertion]);
    assert_eq!(method_metrics(&decl).cyclomatic, 3);
}

#[test]
fn lambda_and_anonymous_class_bodies_are_not_counted() {
    let lambda = node(
        "lambda_expression",
        "...",
        vec![role("parameters", ident("x")), leaf("->", "->"), role("body", block(vec![if_stmt(ident("x"), vec![], None)]))],
    );
    let anonymous = node(
        "object_creation_expression",
        "...",
        vec![leaf("new", "new"), node("class_body", "{...}", vec![method("run", vec![if_stmt(ident("y"), vec![], None)])])],
    );
    let decl = method("f", vec![stmt(lambda), stmt(anonymous)]);
    let m = method_metrics(&decl);
    assert_eq!(m.cyclomatic, 1);
    // identifiers inside lambdas still count as usage
    assert!(has_usage(&m, "x"));
    assert!(has_usage(&m, "y"));
}

#[test]
fn usage_collects_identifiers_and_accessed_fields() {
    let decl = method("f", vec![stmt(assign(field_access(leaf("this", "this"), "count"), ident("total")))]);
    let m = method_metrics(&decl);
    assert!(has_usage(&m, "count"));
    assert!(has_usage(&m, "total"));
    assert!(has_usage(&m, "f"));
    assert!(!has_usage(&m, "this"));
    let distinct: std::collections::BTreeSet<&String> = m.usage_field_list.iter().collect();
    assert_eq!(distinct.len(), m.usage_field_list.len());
}

#[test]
fn cohesive_pair_through_this_and_bare_field() {
    let f = method("f", vec![stmt(assign(field_access(leaf("this", "this"), "x"), number("1")))]);
    let g = method("g", vec![stmt(assign(ident("x"), number("2")))]);
    let decl = class("A", 1, vec![field_decl(&["x"]), f, g]);
    let c = class_metrics(&decl);
    assert_eq!(c.name, "A");
    assert_eq!(c.field_name_list, vec!["x".to_string()]);
    assert_eq!(c.metrics_method_list.len(), 2);
    assert_eq!(c.cohesive_pairs, 1);
    assert_eq!(c.method_pairs, 1);
    assert_eq!(c.atfd, 0);
    assert_eq!(c.wmc, 2);
    assert!(!c.is_god);
}

#[test]
fn wmc_sums_direct_methods_only() {
    let f = method("f", vec![if_stmt(ident("a"), vec![], None)]);
    let g = method("g", vec![if_stmt(binary(ident("a"), "||", ident("b")), vec![], None)]);
    let inner = class("Inner", 5, vec![busy_method("h", 10, 0)]);
    let decl = class("Outer", 1, vec![f, g, inner]);
    let c = class_metrics(&decl);
    assert_eq!(c.metrics_method_list[0].cyclomatic, 2);
    assert_eq!(c.metrics_method_list[1].cyclomatic, 3);
    assert_eq!(c.wmc, 5);
    assert_eq!(c.metrics_class_list.len(), 1);
    assert_eq!(c.metrics_class_list[0].wmc, 11);
}

#[test]
fn multi_declarator_fields() {
    let decl = class("A", 1, vec![field_decl(&["a", "b"]), field_decl(&["c"])]);
    let c = class_metrics(&decl);
    assert_eq!(c.field_name_list, vec!["a".to_string(), "b".to_string(), "c".to_string()]);
}

#[test]
fn tcc_zero_for_one_method_and_no_method() {
    let one = class("A", 1, vec![field_decl(&["x"]), method("f", vec![stmt(ident("x"))])]);
    let c = class_metrics(&one);
    assert_eq!((c.cohesive_pairs, c.method_pairs), (0, 0));
    let none = class("B", 1, vec![field_decl(&["x"])]);
    let c = class_metrics(&none);
    assert_eq!((c.cohesive_pairs, c.method_pairs), (0, 0));
}

#[test]
fn tcc_one_when_every_pair_shares_a_field() {
    let uses_x = |name: &str| method(name, vec![stmt(assign(ident("x"), ident("y")))]);
    let decl = class("A", 1, vec![field_decl(&["x"]), uses_x("f"), uses_x("g"), uses_x("h")]);
    let c = class_metrics(&decl);
    assert_eq!(c.method_pairs, 3);
    assert_eq!(c.cohesive_pairs, 3);
}

#[test]
fn tcc_counts_only_declared_fields_and_skips_constructors() {
    let f = method("f", vec![stmt(assign(ident("x"), ident("local")))]);
    let g = method("g", vec![stmt(assign(ident("y"), ident("local")))]);
    let h = method("h", vec![stmt(assign(ident("x"), ident("y")))]);
    let ctor = constructor("A", vec![stmt(assign(ident("x"), ident("y")))]);
    let decl = class("A", 1, vec![field_decl(&["x", "y"]), ctor, f, g, h]);
    let c = class_metrics(&decl);
    assert_eq!(c.metrics_method_list.len(), 4);
    // f-h share x, g-h share y, f-g share only the local name
    assert_eq!(c.method_pairs, 3);
    assert_eq!(c.cohesive_pairs, 2);
}

#[test]
fn atfd_counts_foreign_fields_getters_and_setters() {
    let stmts = vec![
        stmt(field_access(ident("other"), "y")),
        stmt(field_access(ident("other"), "x")),
        stmt(field_access(ident("Other"), "y")),
        stmt(field_access(leaf("super", "super"), "y")),
        stmt(field_access(leaf("this", "this"), "y")),
        stmt(call(Some(ident("o")), "getName", vec![])),
        stmt(call(Some(ident("o")), "isOpen", vec![])),
        stmt(call(Some(ident("o")), "setName", vec![ident("v")])),
        stmt(call(Some(ident("o")), "setPair", vec![ident("a"), ident("b")])),
        stmt(call(Some(ident("o")), "getItem", vec![number("1")])),
        stmt(call(Some(leaf("this", "this")), "getName", vec![])),
        stmt(call(None, "getName", vec![])),
        stmt(call(Some(ident("o")), "compute", vec![])),
    ];
    let decl = class("A", 1, vec![field_decl(&["x"]), method("f", stmts)]);
    let c = class_metrics(&decl);
    // other.y, o.getName(), o.isOpen(), o.setName(v)
    assert_eq!(c.atfd, 4);
}

#[test]
fn atfd_includes_nested_type_bodies() {
    let inner = class("Inner", 3, vec![method("g", vec![stmt(field_access(ident("other"), "y"))])]);
    let decl = class("Outer", 1, vec![method("f", vec![stmt(field_access(ident("other"), "z"))]), inner]);
    let c = class_metrics(&decl);
    assert_eq!(c.atfd, 2);
    assert_eq!(c.metrics_class_list[0].atfd, 1);
}

#[test]
fn god_class_thresholds() {
    assert_eq!(ATFD_MIN, 5);
    assert_eq!(WMC_MIN, 47);
    assert!(is_god_class(6, 47, 0, 0));
    assert!(is_god_class(6, 47, 0, 3));
    assert!(!is_god_class(5, 47, 0, 0));
    assert!(!is_god_class(6, 46, 0, 0));
    assert!(!is_god_class(6, 47, 1, 3));
    assert!(is_god_class(6, 47, 1, 4));
    assert!(!is_god_class(6, 47, u128::MAX, u128::MAX));
}

#[test]
fn god_class_detected_and_reported() {
    let decl = class("Big", 3, vec![busy_method("work", 46, 6)]);
    let c = class_metrics(&decl);
    assert_eq!(c.wmc, 47);
    assert_eq!(c.atfd, 6);
    assert_eq!(c.line, 3);
    assert!(c.is_god);
    let root = program(vec![decl]);
    assert_eq!(god_class_lines(&root, "src/Big.java"), vec!["src/Big.java:3:".to_string()]);
}

#[test]
fn god_class_below_each_threshold_is_not_reported() {
    let few_accesses = class("A", 1, vec![busy_method("work", 46, 5)]);
    let simple = class("B", 2, vec![busy_method("work", 45, 6)]);
    assert!(!class_metrics(&few_accesses).is_god);
    assert!(!class_metrics(&simple).is_god);
    let root = program(vec![few_accesses, simple]);
    assert!(god_class_lines(&root, "X.java").is_empty());
}

#[test]
fn nested_classes_are_measured_independently() {
    let inner = class("Inner", 7, vec![busy_method("work", 46, 6)]);
    let outer = class("Outer", 2, vec![field_decl(&["x"]), method("f", vec![stmt(ident("x"))]), inner]);
    let c = class_metrics(&outer);
    assert!(!c.is_god);
    assert_eq!(c.wmc, 1);
    assert_eq!(c.field_name_list, vec!["x".to_string()]);
    assert_eq!(c.metrics_method_list.len(), 1);
    let nested = &c.metrics_class_list[0];
    assert!(nested.is_god);
    assert!(nested.field_name_list.is_empty());
    let root = program(vec![outer]);
    assert_eq!(god_class_lines(&root, "Outer.java"), vec!["Outer.java:7:".to_string()]);
}

#[test]
fn enum_with_constants_only() {
    let body = node(
        "enum_body",
        "{ A, B }",
        vec![
            leaf("{", "{"),
            node("enum_constant", "A", vec![role("name", ident("A"))]),
            leaf(",", ","),
            node("enum_constant", "B", vec![role("name", ident("B"))]),
            leaf("}", "}"),
        ],
    );
    let decl = node("enum_declaration", "...", vec![leaf("enum", "enum"), role("name", at_line(4, ident("E"))), role("body", body)]);
    let mut c = MetricsClass::new(false);
    c.compute(&decl);
    assert!(!c.is_class);
    assert_eq!(c.name, "E");
    assert_eq!(c.line, 4);
    assert!(c.field_name_list.is_empty());
    assert!(c.metrics_method_list.is_empty());
    assert_eq!(c.wmc, 0);
    assert_eq!((c.cohesive_pairs, c.method_pairs), (0, 0));
    assert!(!c.is_god);
}

#[test]
fn enum_body_declarations_hold_members() {
    let decls = node(
        "enum_body_declarations",
        "...",
        vec![leaf(";", ";"), field_decl(&["code"]), method("f", vec![stmt(ident("code"))])],
    );
    let body = node("enum_body", "{...}", vec![leaf("{", "{"), node("enum_constant", "A", vec![role("name", ident("A"))]), decls, leaf("}", "}")]);
    let decl = node("enum_declaration", "...", vec![leaf("enum", "enum"), role("name", ident("E")), role("body", body)]);
    let root = program(vec![decl]);
    let metrics = analyze(&root);
    let c = &metrics.metrics_class_list[0];
    assert!(!c.is_class);
    assert_eq!(c.field_name_list, vec!["code".to_string()]);
    assert_eq!(c.metrics_method_list.len(), 1);
    assert_eq!(c.wmc, 1);
}

#[test]
fn analyze_keeps_top_level_order_and_nesting() {
    let inner = class("Inner", 3, vec![]);
    let first = class("First", 1, vec![inner]);
    let second = class("Second", 9, vec![]);
    let import = node("import_declaration", "import x;", vec![]);
    let root = program(vec![import, first, second]);
    let mut metrics = Metrics::new();
    metrics.compute(&root);
    let names: Vec<&str> = metrics.metrics_class_list.iter().map(|c| c.name.as_str()).collect();
    assert_eq!(names, vec!["First", "Second"]);
    assert_eq!(metrics.metrics_class_list[0].metrics_class_list[0].name, "Inner");
}

#[test]
fn analysis_is_deterministic() {
    let build = || {
        let f = method("f", vec![stmt(assign(ident("x"), number("1")))]);
        let g = method("g", vec![stmt(field_access(ident("o"), "p"))]);
        program(vec![class("A", 1, vec![field_decl(&["x"]), f, g, class("B", 5, vec![busy_method("w", 46, 6)])])])
    };
    let (a, b) = (analyze(&build()), analyze(&build()));
    assert_eq!(a.metrics_class_list.len(), b.metrics_class_list.len());
    let (ca, cb) = (&a.metrics_class_list[0], &b.metrics_class_list[0]);
    assert_eq!((ca.atfd, ca.wmc, ca.cohesive_pairs, ca.method_pairs, ca.is_god), (cb.atfd, cb.wmc, cb.cohesive_pairs, cb.method_pairs, cb.is_god));
    assert_eq!(ca.field_name_list, cb.field_name_list);
    assert_eq!(a.god_class_report("A.java"), b.god_class_report("A.java"));
    assert_eq!(a.god_class_report("A.java"), vec!["A.java:5:".to_string()]);
}

#[test]
fn parse_error_message() {
    assert_eq!(AnalysisError::ParseError.message(), "failed to parse");
}

#[test]
fn io_error_converts_and_keeps_its_message() {
    let io = std::io::Error::new(std::io::ErrorKind::NotFound, "no such file");
    let err = AnalysisError::from(io);
    assert!(matches!(err, AnalysisError::IOError(_)));
    assert_eq!(err.message(), "no such file");
}

#[test]
fn report_writes_multi_digit_lines() {
    let root = program(vec![class("Big", 1207, vec![busy_method("work", 46, 6)]), class("Small", 30, vec![])]);
    assert_eq!(god_class_lines(&root, "a/B.java"), vec!["a/B.java:1207:".to_string()]);
    let root = program(vec![class("Big", 10, vec![busy_method("work", 46, 6)])]);
    assert_eq!(god_class_lines(&root, ""), vec![":10:".to_string()]);
}

#[test]
fn quiet_members_in_nested_types_leave_the_outer_class_unchanged() {
    let outer = |inner_members: Vec<SyntaxNode>| {
        class(
            "Outer",
            1,
            vec![
                field_decl(&["x"]),
                busy_method("work", 46, 6),
                method("f", vec![stmt(ident("x"))]),
                class("Inner", 9, inner_members),
            ],
        )
    };
    let plain = class_metrics(&outer(vec![]));
    let grown = class_metrics(&outer(vec![field_decl(&["x", "y"]), method("g", vec![if_stmt(ident("y"), vec![], None)])]));
    assert_eq!(plain.field_name_list, grown.field_name_list);
    assert_eq!(plain.metrics_method_list.len(), grown.metrics_method_list.len());
    assert_eq!(
        (plain.atfd, plain.wmc, plain.cohesive_pairs, plain.method_pairs, plain.is_god),
        (grown.atfd, grown.wmc, grown.cohesive_pairs, grown.method_pairs, grown.is_god)
    );
    assert!(grown.is_god);
    assert_eq!(grown.metrics_class_list[0].wmc, 2);
}

#[test]
fn text_equality_compares_characters() {
    assert!(text_eq("this", "this"));
    assert!(!text_eq("this", "thin"));
    assert!(!text_eq("this", "these"));
    assert!(text_eq("", ""));
    assert!(text_eq("größe", "größe"));
}
