//! The flat JSON representation of a syntax tree: each node with its kind,
//! offsets and starting line and column, and its child nodes; tokens are
//! left out.

use vstd::prelude::*;
use crate::config::{path_join, path_strip_prefix, path_with_added_extension, ConfigError, RustAstGenConfig};
use crate::line_index::{is_line_col_in, LineIndex};
use crate::json_gen::ProcessError;
use crate::syntax::{all_fit_text, check_fits_text, fits_text, parse_source, rust_syntax_tree, RustEdition, SyntaxElement};
use vstd::utf8::encode_utf8;

verus! {

/// A syntax node with its source position and child nodes.
pub struct RustAstGenJsonNode {
    pub node_kind: String,
    pub start_offset: u32,
    pub end_offset: u32,
    pub start_line: u32,
    pub start_column: u32,
    pub children: Vec<RustAstGenJsonNode>,
}

/// `out` represents the node `e` of a syntax tree of `text`: its kind, its
/// offsets, the line and column at which it begins, and its child nodes.
pub open spec fn represents_node(out: RustAstGenJsonNode, e: SyntaxElement, text: Seq<u8>) -> bool
    decreases e,
{
    &&& out.node_kind@ == e.kind@
    &&& out.start_offset == e.start
    &&& out.end_offset == e.end
    &&& is_line_col_in(text, e.start as int, out.start_line as int, out.start_column as int)
    &&& represents_child_nodes(out.children@, e.children@, text)
}

/// `outs` represent, in order, the elements of `es` that are nodes.
pub open spec fn represents_child_nodes(outs: Seq<RustAstGenJsonNode>, es: Seq<SyntaxElement>, text: Seq<u8>) -> bool
    decreases es,
{
    if es.len() == 0 {
        outs.len() == 0
    } else if es.last().is_token {
        represents_child_nodes(outs, es.drop_last(), text)
    } else {
        &&& outs.len() > 0
        &&& represents_child_nodes(outs.drop_last(), es.drop_last(), text)
        &&& represents_node(outs.last(), es.last(), text)
    }
}

/// The JSON record of a node and, below it, of its child nodes.
pub fn make_json_node(node: &SyntaxElement, line_index: &LineIndex) -> (res: RustAstGenJsonNode)
    requires
        line_index.wf(),
        fits_text(*node, line_index.text()),
    ensures
        represents_node(res, *node, line_index.text()),
    decreases node,
{
    let node_kind = node.kind.clone();
    let start_line_col = line_index.line_col(node.start);
    let children = make_child_nodes(&node.children, line_index);
    RustAstGenJsonNode {
        node_kind,
        start_offset: node.start,
        end_offset: node.end,
        start_line: start_line_col.line,
        start_column: start_line_col.col,
        children,
    }
}

/// The JSON records of the elements that are nodes, in order.
fn make_child_nodes(elements: &Vec<SyntaxElement>, line_index: &LineIndex) -> (res: Vec<RustAstGenJsonNode>)
    requires
        line_index.wf(),
        all_fit_text(elements@, line_index.text()),
    ensures
        represents_child_nodes(res@, elements@, line_index.text()),
    decreases elements,
{
    let ghost text = line_index.text();
    let mut out: Vec<RustAstGenJsonNode> = Vec::new();
    let mut i: usize = 0;
    proof {
        crate::syntax::lemma_all_fit_text(elements@, text);
    }
    while i < elements.len()
        invariant
            i <= elements@.len(),
            line_index.wf(),
            text == line_index.text(),
            forall|k: int| 0 <= k < elements@.len() ==> fits_text(#[trigger] elements@[k], text),
            represents_child_nodes(out@, elements@.take(i as int), text),
        decreases elements@.len() - i,
    {
        proof {
            assert(decreases_to!(elements => elements@));
            assert(elements@.take(i + 1).drop_last() == elements@.take(i as int));
            assert(elements@.take(i + 1).last() == elements@[i as int]);
        }
        if !elements[i].is_token {
            let ghost before = out@;
            let child = make_json_node(&elements[i], line_index);
            out.push(child);
            proof {
                assert(out@.drop_last() == before);
            }
        }
        i = i + 1;
    }
    proof {
        assert(elements@.take(elements@.len() as int) == elements@);
    }
    out
}

/// The JSON tree of a source file and the path of the file to write it to.
pub struct JsonTreeOutput {
    pub root: RustAstGenJsonNode,
    pub output_path: String,
}

/// `res` is the JSON tree of the source file at `path`, whose text is
/// `content` and whose syntax tree is `root`, with the path to write it to;
/// or, where the path is not under the input directory, the error that says
/// so.
pub open spec fn is_json_tree_for(
    config: RustAstGenConfig,
    path: String,
    content: Seq<char>,
    root: SyntaxElement,
    res: Result<JsonTreeOutput, ConfigError>,
) -> bool {
    match path_strip_prefix(path@, config.input_dir_full_path@) {
        None => res == Err::<JsonTreeOutput, ConfigError>(ConfigError::NotUnderInputDir {
            file: path,
            dir: config.input_dir_full_path,
        }),
        Some(rel) => res matches Ok(out) && {
            &&& represents_node(out.root, root, encode_utf8(content))
            &&& out.output_path@ == path_with_added_extension(
                path_join(config.output_dir_full_path@, rel),
                "json"@,
            )
        },
    }
}

/// The JSON tree of the source file at `input_file_path`, whose text is
/// `content`, parsed in `edition`, and the path to write it to.
pub fn build_json_tree(
    config: &RustAstGenConfig,
    input_file_path: &String,
    content: &str,
    edition: RustEdition,
) -> (res: Result<JsonTreeOutput, ProcessError>)
    requires
        encode_utf8(content@).len() <= u32::MAX,
    ensures
        ({
            let root = rust_syntax_tree(content@, edition);
            if fits_text(root, encode_utf8(content@)) {
                match res {
                    Ok(out) => is_json_tree_for(*config, *input_file_path, content@, root, Ok(out)),
                    Err(ProcessError::Output(e)) => is_json_tree_for(*config, *input_file_path, content@, root, Err(e)),
                    Err(_) => false,
                }
            } else {
                res matches Err(ProcessError::TreeOutsideText(p)) && p@ == input_file_path@
            }
        }),
{
    let root = parse_source(content, edition);
    if !check_fits_text(&root, content.as_bytes()) {
        return Err(ProcessError::TreeOutsideText(input_file_path.clone()));
    }
    match json_tree_of_tree(config, input_file_path, content, &root) {
        Ok(out) => Ok(out),
        Err(e) => Err(ProcessError::Output(e)),
    }
}

/// The JSON tree of the source file at `input_file_path`, whose text is
/// `content` and whose syntax tree is `root`, and the path to write it to.
pub fn json_tree_of_tree(
    config: &RustAstGenConfig,
    input_file_path: &String,
    content: &str,
    root: &SyntaxElement,
) -> (res: Result<JsonTreeOutput, ConfigError>)
    requires
        encode_utf8(content@).len() <= u32::MAX,
        fits_text(*root, encode_utf8(content@)),
    ensures
        is_json_tree_for(*config, *input_file_path, content@, *root, res),
{
    let line_index = LineIndex::new(content);
    let json_root = make_json_node(root, &line_index);
    let output_path = config.make_output_path_for_input_file(input_file_path)?;
    Ok(JsonTreeOutput { root: json_root, output_path })
}

} // verus!
