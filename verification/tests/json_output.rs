use rust_ast_gen::config::RustAstGenConfig;
use rust_ast_gen::json::{build_json_tree, json_tree_of_tree};
use rust_ast_gen::json_gen::{build_json_file, json_file_of_tree, JsonFileOutput, ProcessError, RustAstGenJsonNode};
use rust_ast_gen::line_index::LineIndex;
use rust_ast_gen::syntax::{RustEdition, SyntaxElement};

const SOURCE: &str = "fn f(){\n}\n";

fn token(kind: &str, start: u32, end: u32) -> SyntaxElement {
    let is_trivia = kind == "WHITESPACE" || kind == "COMMENT";
    SyntaxElement { kind: kind.to_string(), is_token: true, is_trivia, start, end, children: vec![] }
}

fn node(kind: &str, start: u32, end: u32, children: Vec<SyntaxElement>) -> SyntaxElement {
    SyntaxElement { kind: kind.to_string(), is_token: false, is_trivia: false, start, end, children }
}

/// The syntax tree of `SOURCE`.
fn source_tree() -> SyntaxElement {
    let name = node("NAME", 3, 4, vec![token("IDENT", 3, 4)]);
    let params = node("PARAM_LIST", 4, 6, vec![token("L_PAREN", 4, 5), token("R_PAREN", 5, 6)]);
    let stmts = node(
        "STMT_LIST",
        6,
        9,
        vec![token("L_CURLY", 6, 7), token("WHITESPACE", 7, 8), token("R_CURLY", 8, 9)],
    );
    let body = node("BLOCK_EXPR", 6, 9, vec![stmts]);
    let func = node(
        "FN",
        0,
        9,
        vec![token("FN_KW", 0, 2), token("WHITESPACE", 2, 3), name, params, body],
    );
    node("SOURCE_FILE", 0, 10, vec![func, token("WHITESPACE", 9, 10)])
}

fn config() -> RustAstGenConfig {
    RustAstGenConfig::new("/in".to_string(), "/out".to_string(), 1).ok().unwrap()
}

fn kinds(nodes: &[RustAstGenJsonNode]) -> Vec<&str> {
    nodes.iter().map(|n| n.node_kind.as_str()).collect()
}

#[test]
fn line_index_counts_lines_and_byte_columns() {
    let index = LineIndex::new("ab\ncd\n\n\u{e9}");
    let at = |offset: u32| {
        let lc = index.line_col(offset);
        (lc.line, lc.col)
    };
    assert_eq!(at(0), (0, 0));
    assert_eq!(at(2), (0, 2));
    assert_eq!(at(3), (1, 0));
    assert_eq!(at(4), (1, 1));
    assert_eq!(at(6), (2, 0));
    assert_eq!(at(7), (3, 0));
    assert_eq!(at(9), (3, 2));
}

fn check_envelope(out: &JsonFileOutput) {
    assert_eq!(out.output_path, "/out/src/main.rs.json");
    let file = &out.file;
    assert_eq!(file.relative_file_path, "src/main.rs");
    assert_eq!(file.full_file_path, "/in/src/main.rs");
    assert_eq!(file.content, SOURCE);
    assert_eq!(file.loc, 2);
    assert_eq!(file.children.len(), 1);

    let root = &file.children[0];
    assert_eq!(root.node_kind, "SOURCE_FILE");
    assert_eq!(root.range.start_offset, 0);
    assert_eq!(root.range.end_offset, 10);
    assert_eq!(kinds(&root.children), vec!["FN"]);

    let func = &root.children[0];
    assert_eq!(kinds(&func.children), vec!["FN_KW", "NAME", "PARAM_LIST", "BLOCK_EXPR"]);
    assert!(func.children[0].children.is_empty());

    let stmts = &func.children[3].children[0];
    assert_eq!(kinds(&stmts.children), vec!["L_CURLY", "R_CURLY"]);
    let r_curly = &stmts.children[1];
    assert_eq!(r_curly.range.start_offset, 8);
    assert_eq!(r_curly.range.end_offset, 9);
    assert_eq!(r_curly.range.start_line, 1);
    assert_eq!(r_curly.range.start_column, 0);
    let name = &func.children[1];
    assert_eq!(name.range.start_line, 0);
    assert_eq!(name.range.start_column, 3);
}

#[test]
fn json_file_envelope_and_tree() {
    let out = json_file_of_tree(&config(), &"/in/src/main.rs".to_string(), SOURCE.to_string(), &source_tree())
        .ok()
        .unwrap();
    check_envelope(&out);
}

#[test]
fn json_file_of_parsed_source() {
    let out = build_json_file(&config(), &"/in/src/main.rs".to_string(), SOURCE.to_string(), RustEdition::Edition2024)
        .ok()
        .unwrap();
    check_envelope(&out);
}

#[test]
fn json_file_drops_comments() {
    let text = "// c\n\nstruct S;\n";
    let out = build_json_file(&config(), &"/in/s.rs".to_string(), text.to_string(), RustEdition::Edition2021)
        .ok()
        .unwrap();
    let root = &out.file.children[0];
    assert_eq!(kinds(&root.children), vec!["STRUCT"]);
    let strukt = &root.children[0];
    assert_eq!(strukt.range.start_offset, 6);
    assert_eq!(strukt.range.start_line, 2);
    assert_eq!(strukt.range.start_column, 0);
    assert_eq!(kinds(&strukt.children), vec!["STRUCT_KW", "NAME", "SEMICOLON"]);
    assert_eq!(out.file.loc, 3);
}

#[test]
fn tree_outside_text_message() {
    let e = ProcessError::TreeOutsideText("/in/a.rs".to_string());
    assert_eq!(e.message(), "syntax tree does not fit the text of: /in/a.rs");
}

#[test]
fn json_file_outside_input_directory() {
    let result = json_file_of_tree(&config(), &"/x/main.rs".to_string(), SOURCE.to_string(), &source_tree());
    match result {
        Err(e) => {
            assert!(matches!(e, ProcessError::StripPrefix(_)));
            assert_eq!(e.message(), "failed to strip prefix: \"/x/main.rs\"");
        },
        Ok(_) => panic!("expected an error"),
    }
}

#[test]
fn flat_json_tree_keeps_only_nodes() {
    let out = json_tree_of_tree(&config(), &"/in/lib.rs".to_string(), SOURCE, &source_tree()).ok().unwrap();
    assert_eq!(out.output_path, "/out/lib.rs.json");
    let root = &out.root;
    assert_eq!(root.node_kind, "SOURCE_FILE");
    assert_eq!(root.children.len(), 1);
    let func = &root.children[0];
    assert_eq!(func.node_kind, "FN");
    let child_kinds: Vec<&str> = func.children.iter().map(|n| n.node_kind.as_str()).collect();
    assert_eq!(child_kinds, vec!["NAME", "PARAM_LIST", "BLOCK_EXPR"]);
    let stmts = &func.children[2].children[0];
    assert_eq!(stmts.node_kind, "STMT_LIST");
    assert_eq!(stmts.start_offset, 6);
    assert_eq!(stmts.end_offset, 9);
    assert_eq!(stmts.start_line, 0);
    assert_eq!(stmts.start_column, 6);
    assert!(stmts.children.is_empty());
}

#[test]
fn flat_json_tree_of_parsed_source() {
    let out = build_json_tree(&config(), &"/in/lib.rs".to_string(), SOURCE, RustEdition::Edition2024).ok().unwrap();
    assert_eq!(out.output_path, "/out/lib.rs.json");
    let func = &out.root.children[0];
    let child_kinds: Vec<&str> = func.children.iter().map(|n| n.node_kind.as_str()).collect();
    assert_eq!(child_kinds, vec!["NAME", "PARAM_LIST", "BLOCK_EXPR"]);
    match build_json_tree(&config(), &"/x/lib.rs".to_string(), SOURCE, RustEdition::Edition2024) {
        Err(e) => {
            assert!(matches!(e, ProcessError::Output(_)));
            assert_eq!(e.message(), "not able to relativize /x/lib.rs under /in");
        },
        Ok(_) => panic!("expected an error"),
    }
}

#[test]
fn flat_json_tree_outside_input_directory() {
    let result = json_tree_of_tree(&config(), &"/elsewhere/lib.rs".to_string(), SOURCE, &source_tree());
    match result {
        Err(e) => assert_eq!(e.message(), "not able to relativize /elsewhere/lib.rs under /in"),
        Ok(_) => panic!("expected an error"),
    }
}
