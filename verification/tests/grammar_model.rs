use rust_ast_gen::grammar::model::{merge_alternatives, merge_elements, Cardinality, Element, Model};
use rust_ast_gen::grammar::model::Cardinality::{Many, One, Optional};
use rust_ast_gen::grammar::ungrammar::{collect_rule_names, collect_token_names, Ungrammar};

fn has_element(elements: &[Element], name: &str, cardinality: Cardinality) -> bool {
    elements
        .iter()
        .any(|e| e.node_or_token_name == name && e.cardinality == cardinality)
}

fn element_of<'a>(elements: &'a [Element], name: &str) -> &'a Element {
    elements
        .iter()
        .find(|e| e.node_or_token_name == name)
        .unwrap()
}

#[test]
fn test_1_node_2_tokens() {
    let grammar = Ungrammar::from_str("Name = '#ident' | 'self'").unwrap();
    let model = Model::from_ungrammar(&grammar).unwrap();

    assert_eq!(model.node_names.len(), 1);
    assert_eq!(model.tokens.len(), 2);

    assert_eq!(model.node_names[0], "Name");
    assert!(model.tokens.contains("#ident"));
    assert!(model.tokens.contains("self"));

    let elements = model.node_elements.get("Name").unwrap();
    assert_eq!(elements.len(), 2);
    assert!(has_element(elements, "#ident", Cardinality::Optional));
    assert!(has_element(elements, "self", Cardinality::Optional));
}

#[test]
fn test_collect_descendant_nodes_1() {
    let grammar = Ungrammar::from_str(
        r#"
            Stmt = Expr | Item | Let
            Expr = Literal
            Item = Fn | Struct
            Let = 'let'
            Literal = 'literal'
            Fn = 'fn'
            Struct = 'struct'
            "#,
    )
    .unwrap();
    let model = Model::from_ungrammar(&grammar).unwrap();

    let found = model.collect_descendant_nodes("Stmt", &|name: &str| matches!(name, "Stmt" | "Expr" | "Item"));
    let expected = ["Fn", "Let", "Literal", "Struct"];
    assert_eq!(found.len(), expected.len());
    for name in expected {
        assert!(found.contains(name));
    }
}

#[test]
fn test_collect_rule_names_1() {
    let g = Ungrammar::from_str("A = 'a'").unwrap();
    let rule_names = collect_rule_names(&g);
    assert_eq!(rule_names, vec!["A"]);
}

#[test]
fn test_collect_rule_names_2() {
    let g = Ungrammar::from_str(
        r"
        A = 'a'
        B = 'b'
        ",
    )
    .unwrap();
    let rule_names = collect_rule_names(&g);
    assert_eq!(rule_names, vec!["A", "B"]);
}

#[test]
fn test_collect_token_texts_1() {
    let g = Ungrammar::from_str("A = 'a'").unwrap();
    let token_texts = collect_token_names(&g);
    assert_eq!(token_texts, vec!["a"]);
}

#[test]
fn test_collect_token_texts_2() {
    let g = Ungrammar::from_str(
        r"
        A = 'a'
        B = 'b' | 'b'
        ",
    )
    .unwrap();
    let token_texts = collect_token_names(&g);
    assert_eq!(token_texts, vec!["a", "b", "b"]);
}

#[test]
fn sequence_of_cardinalities() {
    assert_eq!(One.for_sequence(One), Many);
    assert_eq!(One.for_sequence(Optional), Many);
    assert_eq!(Optional.for_sequence(Optional), Optional);
    assert_eq!(Many.for_sequence(One), Many);
    assert_eq!(Optional.for_sequence(Many), Many);
}

#[test]
fn alternative_of_cardinalities() {
    assert_eq!(One.for_alternative(One), One);
    assert_eq!(One.for_alternative(Optional), Optional);
    assert_eq!(Optional.for_alternative(One), Optional);
    assert_eq!(Optional.for_alternative(Optional), Optional);
    assert_eq!(Many.for_alternative(One), Many);
    assert_eq!(Optional.for_alternative(Many), Many);
}

#[test]
fn optional_cardinality() {
    assert_eq!(One.optional(), Optional);
    assert_eq!(Optional.optional(), Optional);
    assert_eq!(Many.optional(), Many);
}

#[test]
fn repeated_element_in_a_sequence_is_many() {
    let grammar = Ungrammar::from_str("A = 'x' B 'x'\nB = 'b'").unwrap();
    let model = Model::from_ungrammar(&grammar).unwrap();
    let elements = model.node_elements.get("A").unwrap();
    assert_eq!(elements.len(), 2);
    assert_eq!(elements[0].node_or_token_name, "x");
    assert_eq!(elements[0].cardinality, Cardinality::Many);
    assert_eq!(elements[1].node_or_token_name, "B");
    assert_eq!(elements[1].cardinality, Cardinality::One);
}

#[test]
fn alternatives_keep_left_elements_first() {
    let grammar = Ungrammar::from_str("A = 'x' 'y' | 'y' 'z'").unwrap();
    let model = Model::from_ungrammar(&grammar).unwrap();
    let elements = model.node_elements.get("A").unwrap();
    let names: Vec<&str> = elements.iter().map(|e| e.node_or_token_name.as_str()).collect();
    assert_eq!(names, vec!["x", "y", "z"]);
    assert_eq!(element_of(elements, "x").cardinality, Cardinality::Optional);
    assert_eq!(element_of(elements, "y").cardinality, Cardinality::One);
    assert_eq!(element_of(elements, "z").cardinality, Cardinality::Optional);
}

#[test]
fn labels_optional_and_repeated_rules() {
    let grammar = Ungrammar::from_str("A = lhs:B? ('c' B)*\nB = 'b'").unwrap();
    let model = Model::from_ungrammar(&grammar).unwrap();
    let elements = model.node_elements.get("A").unwrap();
    assert_eq!(elements.len(), 2);
    assert_eq!(element_of(elements, "B").cardinality, Cardinality::Many);
    assert_eq!(element_of(elements, "c").cardinality, Cardinality::Many);
}

#[test]
fn contains_node_and_immediate_children() {
    let grammar = Ungrammar::from_str("A = B 'a' C\nB = 'b'\nC = B").unwrap();
    let model = Model::from_ungrammar(&grammar).unwrap();
    assert!(model.contains_node("A"));
    assert!(model.contains_node("C"));
    assert!(!model.contains_node("a"));
    assert!(!model.contains_node("D"));
    let children = model.immediate_child_nodes_of("A");
    assert_eq!(children.len(), 2);
    assert!(children.contains("B"));
    assert!(children.contains("C"));
    assert!(!children.contains("a"));
    assert_eq!(model.immediate_child_nodes_of("D").len(), 0);
    assert_eq!(model.immediate_child_nodes_of("B").len(), 0);
}

#[test]
fn descendants_stop_where_recursion_stops() {
    let grammar = Ungrammar::from_str("A = B C\nB = C\nC = 'c'").unwrap();
    let model = Model::from_ungrammar(&grammar).unwrap();

    let never = model.collect_descendant_nodes("A", &|_name: &str| false);
    assert_eq!(never.len(), 1);
    assert!(never.contains("A"));

    let only_a = model.collect_descendant_nodes("A", &|name: &str| name == "A");
    assert_eq!(only_a.len(), 2);
    assert!(only_a.contains("B"));
    assert!(only_a.contains("C"));

    let all = model.collect_descendant_nodes("A", &|name: &str| name != "C");
    assert_eq!(all.len(), 1);
    assert!(all.contains("C"));

    assert_eq!(model.collect_descendant_nodes("c", &|_name: &str| true).len(), 0);
}

#[test]
fn grammar_errors_are_reported() {
    let missing = Ungrammar::from_str("A = B");
    assert!(missing.is_err());
    let duplicate = Ungrammar::from_str("A = 'a'\nA = 'b'");
    assert!(duplicate.is_err());
    let unclosed = Ungrammar::from_str("A = 'a");
    assert!(unclosed.is_err());
    assert!(!unclosed.err().unwrap().message.is_empty());
}

#[test]
fn alternative_order_changes_only_element_order() {
    let left_first = Ungrammar::from_str("A = 'x' 'y' 'y' | 'y' 'z'").unwrap();
    let right_first = Ungrammar::from_str("A = 'y' 'z' | 'x' 'y' 'y'").unwrap();
    let m1 = Model::from_ungrammar(&left_first).unwrap();
    let m2 = Model::from_ungrammar(&right_first).unwrap();
    let e1 = m1.node_elements.get("A").unwrap();
    let e2 = m2.node_elements.get("A").unwrap();
    assert_eq!(e1.len(), 3);
    assert_eq!(e2.len(), 3);
    for name in ["x", "y", "z"] {
        assert_eq!(element_of(e1, name).cardinality, element_of(e2, name).cardinality);
    }
    assert_eq!(element_of(e1, "y").cardinality, Cardinality::Many);
    assert_eq!(e2[0].node_or_token_name, "y");
}

fn el(name: &str, cardinality: Cardinality) -> Element {
    Element { node_or_token_name: name.to_string(), cardinality }
}

fn shape(elements: &[Element]) -> Vec<(String, Cardinality)> {
    elements.iter().map(|e| (e.node_or_token_name.clone(), e.cardinality)).collect()
}

#[test]
fn merging_is_idempotent() {
    let once = merge_elements(vec![el("a", One), el("b", Optional), el("a", Optional), el("b", Optional)]);
    assert_eq!(shape(&once), vec![("a".to_string(), Many), ("b".to_string(), Optional)]);
    let twice = merge_elements(once);
    assert_eq!(shape(&twice), vec![("a".to_string(), Many), ("b".to_string(), Optional)]);
    let distinct = merge_elements(vec![el("x", One), el("y", Many)]);
    assert_eq!(shape(&distinct), vec![("x".to_string(), One), ("y".to_string(), Many)]);
}

#[test]
fn merging_alternatives_either_way_round() {
    let left = || vec![el("a", One), el("b", Many)];
    let right = || vec![el("b", One), el("c", One)];
    let lr = merge_alternatives(left(), right());
    let rl = merge_alternatives(right(), left());
    assert_eq!(shape(&lr), vec![("a".to_string(), Optional), ("b".to_string(), Many), ("c".to_string(), Optional)]);
    assert_eq!(shape(&rl), vec![("b".to_string(), Many), ("c".to_string(), Optional), ("a".to_string(), Optional)]);
}
