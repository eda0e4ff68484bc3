//! The JSON representation of a source file: an envelope around its syntax
//! tree, where each node and token carries its kind and source range and
//! comments and whitespace are left out.

use vstd::prelude::*;
use crate::config::{path_join, path_strip_prefix, path_with_added_extension, strip_prefix, ConfigError, RustAstGenConfig};
use crate::line_index::{is_line_col_in, LineIndex};
use crate::syntax::{all_fit_text, check_fits_text, fits_text, is_valid_offset, parse_source, rust_syntax_tree, RustEdition, SyntaxElement};
use crate::line_index::valid_offset_in;
use vstd::string::StringExecFns;
use vstd::utf8::encode_utf8;

verus! {

/// Source location range for a node or token.
pub struct RustAstGenJsonNodeRange {
    pub start_offset: u32,
    pub end_offset: u32,
    pub start_line: u32,
    pub start_column: u32,
}

/// A single node or token in the AST.
pub struct RustAstGenJsonNode {
    pub node_kind: String,
    pub range: RustAstGenJsonNodeRange,
    pub children: Vec<RustAstGenJsonNode>,
}

/// Per-file envelope wrapping the AST.
pub struct RustAstGenJsonFile {
    pub relative_file_path: String,
    pub full_file_path: String,
    pub content: String,
    pub loc: u32,
    pub children: Vec<RustAstGenJsonNode>,
}

/// The range of an element: its offsets, and the line and column at which it
/// begins in `text`.
pub open spec fn range_of(r: RustAstGenJsonNodeRange, e: SyntaxElement, text: Seq<u8>) -> bool {
    &&& r.start_offset == e.start
    &&& r.end_offset == e.end
    &&& is_line_col_in(text, e.start as int, r.start_line as int, r.start_column as int)
}

/// `out` represents the element `e` of a syntax tree of `text`: its kind, its
/// range and, for a node, its children but comments and whitespace.
pub open spec fn represents(out: RustAstGenJsonNode, e: SyntaxElement, text: Seq<u8>) -> bool
    decreases e,
{
    &&& out.node_kind@ == e.kind@
    &&& range_of(out.range, e, text)
    &&& if e.is_token {
        out.children@.len() == 0
    } else {
        represents_all(out.children@, e.children@, text)
    }
}

/// `outs` represent, in order, the elements of `es` that are not comments or
/// whitespace.
pub open spec fn represents_all(outs: Seq<RustAstGenJsonNode>, es: Seq<SyntaxElement>, text: Seq<u8>) -> bool
    decreases es,
{
    if es.len() == 0 {
        outs.len() == 0
    } else if es.last().is_trivia {
        represents_all(outs, es.drop_last(), text)
    } else {
        &&& outs.len() > 0
        &&& represents_all(outs.drop_last(), es.drop_last(), text)
        &&& represents(outs.last(), es.last(), text)
    }
}

impl RustAstGenJsonNodeRange {
    /// The range of a node.
    pub fn from_node(node: &SyntaxElement, line_index: &LineIndex) -> (res: Self)
        requires
            line_index.wf(),
            line_index.valid_offset(node.start as int),
        ensures
            range_of(res, *node, line_index.text()),
    {
        let start_line_col = line_index.line_col(node.start);
        RustAstGenJsonNodeRange {
            start_offset: node.start,
            end_offset: node.end,
            start_line: start_line_col.line,
            start_column: start_line_col.col,
        }
    }

    /// The range of a token.
    pub fn from_token(token: &SyntaxElement, line_index: &LineIndex) -> (res: Self)
        requires
            line_index.wf(),
            line_index.valid_offset(token.start as int),
        ensures
            range_of(res, *token, line_index.text()),
    {
        let start_line_col = line_index.line_col(token.start);
        RustAstGenJsonNodeRange {
            start_offset: token.start,
            end_offset: token.end,
            start_line: start_line_col.line,
            start_column: start_line_col.col,
        }
    }
}

impl RustAstGenJsonNode {
    /// A node with its children, but comments and whitespace.
    pub fn from_node(node: &SyntaxElement, line_index: &LineIndex) -> (res: Self)
        requires
            line_index.wf(),
            fits_text(*node, line_index.text()),
        ensures
            represents(res, *node, line_index.text()),
        decreases node,
    {
        if node.is_token {
            return Self::from_token(node, line_index);
        }
        let node_kind = node.kind.clone();
        let range = RustAstGenJsonNodeRange::from_node(node, line_index);
        let children = Self::from_children(&node.children, line_index);
        RustAstGenJsonNode { node_kind, range, children }
    }

    /// A token; it has no children.
    pub fn from_token(token: &SyntaxElement, line_index: &LineIndex) -> (res: Self)
        requires
            line_index.wf(),
            line_index.valid_offset(token.start as int),
            token.is_token,
        ensures
            represents(res, *token, line_index.text()),
    {
        let node_kind = token.kind.clone();
        let range = RustAstGenJsonNodeRange::from_token(token, line_index);
        let children: Vec<RustAstGenJsonNode> = Vec::new();
        RustAstGenJsonNode { node_kind, range, children }
    }

    /// The children of a node but comments and whitespace, in order.
    fn from_children(elements: &Vec<SyntaxElement>, line_index: &LineIndex) -> (res: Vec<Self>)
        requires
            line_index.wf(),
            all_fit_text(elements@, line_index.text()),
        ensures
            represents_all(res@, elements@, line_index.text()),
        decreases elements,
    {
        let ghost text = line_index.text();
        let mut out: Vec<RustAstGenJsonNode> = Vec::new();
        let mut i: usize = 0;
        proof {
            crate::syntax::lemma_all_fit_text(elements@, text);
        }
        while i < elements.len()
            invariant
                i <= elements@.len(),
                line_index.wf(),
                text == line_index.text(),
                forall|k: int| 0 <= k < elements@.len() ==> fits_text(#[trigger] elements@[k], text),
                represents_all(out@, elements@.take(i as int), text),
            decreases elements@.len() - i,
        {
            proof {
                assert(decreases_to!(elements => elements@));
                assert(elements@.take(i + 1).drop_last() == elements@.take(i as int));
                assert(elements@.take(i + 1).last() == elements@[i as int]);
            }
            if !elements[i].is_trivia {
                let ghost before = out@;
                let child = Self::from_node(&elements[i], line_index);
                out.push(child);
                proof {
                    assert(out@.drop_last() == before);
                }
            }
            i = i + 1;
        }
        proof {
            assert(elements@.take(elements@.len() as int) == elements@);
        }
        out
    }
}

/// How std's `Debug` shows a path: quoted, with special characters escaped.
pub uninterp spec fn path_debug_text(path: Seq<char>) -> Seq<char>;

/// Formats `std::path::Path::new(path)` with `{:?}`.
/// Claimed: the result is the named `path_debug_text` of the path.
#[verifier::external_body]
fn path_debug(path: &str) -> (res: String)
    ensures
        res@ == path_debug_text(path@),
{
    format!("{:?}", std::path::Path::new(path))
}

/// Why the JSON of a source file could not be made.
#[derive(Debug)]
pub enum ProcessError {
    /// The file's path could not be made relative to the input directory.
    StripPrefix(String),
    /// The file's output path could not be made.
    Output(ConfigError),
    /// The syntax tree of the file does not fit the file's text.
    TreeOutsideText(String),
}

impl ProcessError {
    /// The text that describes the error.
    pub open spec fn spec_message(&self) -> Seq<char> {
        match self {
            ProcessError::StripPrefix(p) => "failed to strip prefix: "@ + path_debug_text(p@),
            ProcessError::Output(e) => e.spec_message(),
            ProcessError::TreeOutsideText(p) => "syntax tree does not fit the text of: "@ + p@,
        }
    }

    /// The text that describes the error.
    pub fn message(&self) -> (res: String)
        ensures
            res@ == self.spec_message(),
    {
        match self {
            ProcessError::StripPrefix(p) => {
                let mut m = "failed to strip prefix: ".to_owned();
                let shown = path_debug(p.as_str());
                m.append(shown.as_str());
                m
            },
            ProcessError::Output(e) => e.message(),
            ProcessError::TreeOutsideText(p) => {
                let mut m = "syntax tree does not fit the text of: ".to_owned();
                m.append(p.as_str());
                m
            },
        }
    }
}

/// The JSON envelope of a source file and the path to write it to.
pub struct JsonFileOutput {
    pub file: RustAstGenJsonFile,
    pub output_path: String,
}

/// `res` is the JSON envelope of the source file at `path`, whose text is
/// `content` and whose syntax tree is `root`, with the path of the file to
/// write it to; or, where the path is not under the input directory, the
/// error that says so.
pub open spec fn is_json_file_for(
    config: RustAstGenConfig,
    path: Seq<char>,
    content: Seq<char>,
    root: SyntaxElement,
    res: Result<JsonFileOutput, ProcessError>,
) -> bool {
    match path_strip_prefix(path, config.input_dir_full_path@) {
        None => res matches Err(ProcessError::StripPrefix(p)) && p@ == path,
        Some(rel) => res matches Ok(out) && {
            let text = encode_utf8(content);
            &&& out.file.relative_file_path@ == rel
            &&& out.file.full_file_path@ == path
            &&& out.file.content@ == content
            &&& exists|col: int| #[trigger] is_line_col_in(text, root.end as int, out.file.loc as int, col)
            &&& out.file.children@.len() == 1
            &&& represents(out.file.children@[0], root, text)
            &&& out.output_path@ == path_with_added_extension(
                path_join(config.output_dir_full_path@, rel),
                "json"@,
            )
        },
    }
}

/// The JSON envelope of the source file at `input_file_path`, whose text is
/// `content`, parsed in `edition`, and the path of the file to write it to.
/// The envelope holds the file's path relative to the input directory and in
/// full, its text, the line on which the text ends, and the syntax tree but
/// comments and whitespace.
pub fn build_json_file(
    config: &RustAstGenConfig,
    input_file_path: &String,
    content: String,
    edition: RustEdition,
) -> (res: Result<JsonFileOutput, ProcessError>)
    requires
        encode_utf8(content@).len() <= u32::MAX,
    ensures
        ({
            let text = encode_utf8(content@);
            let root = rust_syntax_tree(content@, edition);
            if fits_text(root, text) && valid_offset_in(text, root.end as int) {
                is_json_file_for(*config, input_file_path@, content@, root, res)
            } else {
                res matches Err(ProcessError::TreeOutsideText(p)) && p@ == input_file_path@
            }
        }),
{
    let root = parse_source(content.as_str(), edition);
    let bytes = content.as_str().as_bytes();
    if !check_fits_text(&root, bytes) || !is_valid_offset(bytes, root.end) {
        return Err(ProcessError::TreeOutsideText(input_file_path.clone()));
    }
    json_file_of_tree(config, input_file_path, content, &root)
}

/// The JSON envelope of the source file at `input_file_path`, whose text is
/// `content` and whose syntax tree is `root`, and the path of the file to
/// write it to.
pub fn json_file_of_tree(
    config: &RustAstGenConfig,
    input_file_path: &String,
    content: String,
    root: &SyntaxElement,
) -> (res: Result<JsonFileOutput, ProcessError>)
    requires
        encode_utf8(content@).len() <= u32::MAX,
        fits_text(*root, encode_utf8(content@)),
        valid_offset_in(encode_utf8(content@), root.end as int),
    ensures
        is_json_file_for(*config, input_file_path@, content@, *root, res),
{
    let line_index = LineIndex::new(content.as_str());
    let json_root = RustAstGenJsonNode::from_node(root, &line_index);
    let end_line_col = line_index.line_col(root.end);
    let loc = end_line_col.line;
    let ghost text = encode_utf8(content@);
    proof {
        assert(is_line_col_in(text, root.end as int, loc as int, end_line_col.col as int));
    }
    let relative_path = match strip_prefix(input_file_path.as_str(), config.input_dir_full_path.as_str()) {
        Some(rel) => rel,
        None => return Err(ProcessError::StripPrefix(input_file_path.clone())),
    };
    let output_path = match config.make_output_path_for_input_file(input_file_path) {
        Ok(p) => p,
        Err(e) => return Err(ProcessError::Output(e)),
    };
    let children = vec![json_root];
    let file = RustAstGenJsonFile {
        relative_file_path: relative_path,
        full_file_path: input_file_path.clone(),
        content,
        loc,
        children,
    };
    proof {
        assert(file.children@[0] == json_root);
        assert(is_line_col_in(text, root.end as int, file.loc as int, end_line_col.col as int));
    }
    Ok(JsonFileOutput { file, output_path })
}

} // verus!
