//! A syntax tree held as plain values: what the JSON representation reads of
//! each node and token, and the parse of a source text by rust-analyzer's
//! parser into such a tree.

use vstd::prelude::*;
use crate::line_index::valid_offset_in;
use vstd::string::StringSliceAdditionalSpecFns;
use ::ra_ap_syntax::NodeOrToken;

verus! {

/// A node or token of a syntax tree.
pub struct SyntaxElement {
    /// The name of the element's kind, such as `FN` or `WHITESPACE`.
    pub kind: String,
    /// A token rather than a node.
    pub is_token: bool,
    /// A token of whitespace or a comment.
    pub is_trivia: bool,
    /// Where the element begins, in bytes from the start of the text.
    pub start: u32,
    /// Where the element ends, in bytes from the start of the text.
    pub end: u32,
    /// The element's children, nodes and tokens, in order; none for a token.
    pub children: Vec<SyntaxElement>,
}

/// The element and each element below it begin at an offset of the text that
/// a line and column describe, and end no earlier than they begin.
pub open spec fn fits_text(e: SyntaxElement, text: Seq<u8>) -> bool
    decreases e,
{
    &&& e.start <= e.end
    &&& valid_offset_in(text, e.start as int)
    &&& all_fit_text(e.children@, text)
}

/// Each element of the list, and each element below one, begins at an offset
/// of the text that a line and column describe, and ends no earlier.
pub open spec fn all_fit_text(es: Seq<SyntaxElement>, text: Seq<u8>) -> bool
    decreases es,
{
    if es.len() == 0 {
        true
    } else {
        all_fit_text(es.drop_last(), text) && fits_text(es.last(), text)
    }
}

/// Each element of a list that fits the text fits it.
pub proof fn lemma_all_fit_text(es: Seq<SyntaxElement>, text: Seq<u8>)
    requires
        all_fit_text(es, text),
    ensures
        forall|k: int| 0 <= k < es.len() ==> fits_text(#[trigger] es[k], text),
    decreases es.len(),
{
    if es.len() > 0 {
        lemma_all_fit_text(es.drop_last(), text);
        assert forall|k: int| 0 <= k < es.len() implies fits_text(#[trigger] es[k], text) by {
            if k < es.len() - 1 {
                assert(es[k] == es.drop_last()[k]);
            }
        }
    }
}

/// Whether an offset of the text is one that a line and column describe.
pub fn is_valid_offset(bytes: &[u8], offset: u32) -> (res: bool)
    ensures
        res == valid_offset_in(bytes@, offset as int),
{
    let o = offset as usize;
    if o > bytes.len() {
        false
    } else if o == bytes.len() {
        true
    } else {
        let b = bytes[o];
        !(0x80 <= b && b < 0xC0)
    }
}

/// Whether the element, and each element below it, fits the text.
pub fn check_fits_text(e: &SyntaxElement, bytes: &[u8]) -> (res: bool)
    ensures
        res == fits_text(*e, bytes@),
    decreases e,
{
    if e.start > e.end || !is_valid_offset(bytes, e.start) {
        return false;
    }
    let mut i: usize = 0;
    while i < e.children.len()
        invariant
            i <= e.children@.len(),
            all_fit_text(e.children@.take(i as int), bytes@),
        decreases e.children@.len() - i,
    {
        proof {
            assert(decreases_to!(e => e.children));
            assert(decreases_to!(e.children => e.children@));
            assert(e.children@.take(i + 1).drop_last() == e.children@.take(i as int));
            assert(e.children@.take(i + 1).last() == e.children@[i as int]);
        }
        if !check_fits_text(&e.children[i], bytes) {
            proof {
                if fits_text(*e, bytes@) {
                    lemma_all_fit_text_prefix(e.children@, (i + 1) as int, bytes@);
                }
            }
            return false;
        }
        i = i + 1;
    }
    proof {
        assert(e.children@.take(e.children@.len() as int) == e.children@);
    }
    true
}

/// A list fits the text only if each of its prefixes does.
proof fn lemma_all_fit_text_prefix(es: Seq<SyntaxElement>, n: int, text: Seq<u8>)
    requires
        0 <= n <= es.len(),
        all_fit_text(es, text),
    ensures
        all_fit_text(es.take(n), text),
    decreases es.len(),
{
    if n < es.len() {
        assert(es.drop_last().take(n) == es.take(n));
        lemma_all_fit_text_prefix(es.drop_last(), n, text);
    } else {
        assert(es.take(n) == es);
    }
}

/// The edition of Rust that a source text is parsed as.
#[derive(Clone, Copy, PartialEq, Eq, Structural)]
pub enum RustEdition {
    Edition2015,
    Edition2018,
    Edition2021,
    Edition2024,
}

/// The syntax tree that rust-analyzer's parser makes of a source text in an
/// edition: kinds named as `SyntaxKind`'s `Debug` shows them, trivia as
/// `SyntaxKind::is_trivia` says, offsets as its text ranges give them.
pub uninterp spec fn rust_syntax_tree(text: Seq<char>, edition: RustEdition) -> SyntaxElement;

/// A node of rust-analyzer's syntax tree. Verus cannot declare rowan's
/// `SyntaxNode<L: Language>` itself, as its bound is a trait of rowan, so the
/// node is held here, out of Verus's sight, on its way to `SyntaxElement`.
#[verifier::external_body]
struct RaNode {
    node: ::ra_ap_syntax::SyntaxNode,
}

/// A token of rust-analyzer's syntax tree, held as `RaNode` holds a node.
#[verifier::external_body]
struct RaToken {
    token: ::ra_ap_syntax::SyntaxToken,
}

/// Calls `ra_ap_syntax::SourceFile::parse` on the text in the edition and
/// copies its syntax tree into plain values.
/// Claimed: the result is the named `rust_syntax_tree` of the text and the
/// edition; the parser reads nothing but them.
#[verifier::external_body]
pub fn parse_source(text: &str, edition: RustEdition) -> (res: SyntaxElement)
    requires
        text.spec_bytes().len() <= u32::MAX,
    ensures
        res == rust_syntax_tree(text@, edition),
{
    let edition = match edition {
        RustEdition::Edition2015 => ::ra_ap_syntax::Edition::Edition2015,
        RustEdition::Edition2018 => ::ra_ap_syntax::Edition::Edition2018,
        RustEdition::Edition2021 => ::ra_ap_syntax::Edition::Edition2021,
        RustEdition::Edition2024 => ::ra_ap_syntax::Edition::Edition2024,
    };
    let parse = ::ra_ap_syntax::SourceFile::parse(text, edition);
    node_element(&RaNode { node: parse.syntax_node() })
}

/// Copies a node of rust-analyzer's syntax tree, and the nodes and tokens
/// below it, into a `SyntaxElement`.
/// Nothing is claimed of it: it serves `parse_source`, whose contract states
/// the whole copy.
#[verifier::external_body]
fn node_element(node: &RaNode) -> SyntaxElement {
    let range = node.node.text_range();
    SyntaxElement {
        kind: format!("{:?}", node.node.kind()),
        is_token: false,
        is_trivia: node.node.kind().is_trivia(),
        start: range.start().into(),
        end: range.end().into(),
        children: child_elements(node),
    }
}

/// Copies the children of a node, nodes and tokens, in order.
/// Nothing is claimed of it, as of `node_element`.
#[verifier::external_body]
fn child_elements(node: &RaNode) -> Vec<SyntaxElement> {
    node.node.children_with_tokens().map(|child| match child {
        NodeOrToken::Node(n) => node_element(&RaNode { node: n }),
        NodeOrToken::Token(t) => token_element(&RaToken { token: t }),
    }).collect()
}

/// Copies a token of rust-analyzer's syntax tree into a `SyntaxElement`.
/// Nothing is claimed of it, as of `node_element`.
#[verifier::external_body]
fn token_element(token: &RaToken) -> SyntaxElement {
    let range = token.token.text_range();
    SyntaxElement {
        kind: format!("{:?}", token.token.kind()),
        is_token: true,
        is_trivia: token.token.kind().is_trivia(),
        start: range.start().into(),
        end: range.end().into(),
        children: Vec::new(),
    }
}

} // verus!
