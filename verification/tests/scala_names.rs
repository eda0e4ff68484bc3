use rust_ast_gen::text::same_text;
use rust_ast_gen::scala_gen::names::{
    node_name_to_json_kind, node_name_to_scala_name, token_name_to_json_kind, token_name_to_scala_name,
    token_operator_or_punct_to_json_kind,
};

#[test]
fn punctuation_kinds() {
    assert_eq!(token_operator_or_punct_to_json_kind(";"), Some("SEMICOLON"));
    assert_eq!(token_operator_or_punct_to_json_kind("..="), Some("DOT2EQ"));
    assert_eq!(token_operator_or_punct_to_json_kind("::"), Some("COLON2"));
    assert_eq!(token_operator_or_punct_to_json_kind("=>"), Some("FAT_ARROW"));
    assert_eq!(token_operator_or_punct_to_json_kind(">>="), Some("SHREQ"));
    assert_eq!(token_operator_or_punct_to_json_kind("fn"), None);
    assert_eq!(token_operator_or_punct_to_json_kind(""), None);
    assert_eq!(token_operator_or_punct_to_json_kind("#ident"), None);
}

#[test]
fn token_json_kinds() {
    assert_eq!(token_name_to_json_kind(";"), "SEMICOLON");
    assert_eq!(token_name_to_json_kind("&&"), "AMP2");
    assert_eq!(token_name_to_json_kind("#ident"), "IDENT");
    assert_eq!(token_name_to_json_kind("@int_number"), "INT_NUMBER");
    assert_eq!(token_name_to_json_kind("#lifetime_ident"), "LIFETIME_IDENT");
    assert_eq!(token_name_to_json_kind("Self"), "SELF_TYPE_KW");
    assert_eq!(token_name_to_json_kind("self"), "SELF_KW");
    assert_eq!(token_name_to_json_kind("fn"), "FN_KW");
    assert_eq!(token_name_to_json_kind("macro_rules"), "MACRO_RULES_KW");
}

#[test]
fn token_scala_names() {
    assert_eq!(token_name_to_scala_name("fn"), "fnKw");
    assert_eq!(token_name_to_scala_name("("), "leftParen");
    assert_eq!(token_name_to_scala_name(")"), "rightParen");
    assert_eq!(token_name_to_scala_name("{"), "leftCurly");
    assert_eq!(token_name_to_scala_name(";"), "semicolon");
    assert_eq!(token_name_to_scala_name("#ident"), "ident");
    assert_eq!(token_name_to_scala_name("@int_number"), "intNumber");
    assert_eq!(token_name_to_scala_name("Self"), "selfTypeKw");
    assert_eq!(token_name_to_scala_name("=>"), "fatArrow");
}

#[test]
fn punctuation_kinds_are_distinct_and_not_keywords() {
    let tokens = [
        ";", ",", "(", ")", "{", "}", "[", "]", "<", ">", "@", "#", "~", "?", "&", "|", "+", "*", "/", "^",
        "%", "_", ".", "..", "...", "..=", ":", "::", "=", "==", "=>", "!", "!=", "-", "->", "<=", ">=",
        "+=", "-=", "|=", "&=", "^=", "/=", "*=", "%=", "&&", "||", "<<", ">>", "<<=", ">>=",
    ];
    let kinds: std::collections::HashSet<&str> =
        tokens.iter().map(|t| token_operator_or_punct_to_json_kind(t).unwrap()).collect();
    assert_eq!(kinds.len(), tokens.len());
    for kind in kinds {
        assert!(!kind.ends_with("_KW"));
        assert!(kind.chars().all(|c| c.is_ascii_uppercase() || c.is_ascii_digit() || c == '_'));
    }
}

#[test]
fn node_names() {
    assert_eq!(node_name_to_scala_name("BlockExpr"), "BlockExpr");
    assert_eq!(node_name_to_scala_name(""), "");
    assert_eq!(node_name_to_json_kind("BlockExpr"), "BLOCK_EXPR");
    assert_eq!(node_name_to_json_kind("Name"), "NAME");
    assert_eq!(node_name_to_json_kind("ParenthesizedArgList"), "PARENTHESIZED_ARG_LIST");
}

#[test]
fn texts_compare_by_characters() {
    assert!(same_text("ab", "ab"));
    assert!(!same_text("ab", "abc"));
    assert!(!same_text("\u{e9}", "e"));
    assert!(same_text("", ""));
}
