//! The HTML document tree, as far as the row scan reads it.
//!
//! A document is kept as the `select` crate built it from an HTML text. Its
//! nodes are addressed by their index in document order. Of the functions
//! that run, nothing in this module is proved: each states what the `select`
//! crate (or `str::trim`) is relied on to do, and only of documents that the
//! crate itself built. A page nested so deeply that walking it exhausts the stack
//! is beyond what is stated here.

use vstd::prelude::*;
use vstd::string::StringSliceAdditionalSpecFns;
use select::document::Document;
use select::predicate::{Class, Name};

verus! {

/// `select::document::Document`, carried as an opaque value.
#[verifier::external_type_specification]
#[verifier::external_body]
pub struct ExDocument(select::document::Document);

/// The document that `Document::from` builds from an HTML text.
pub uninterp spec fn parsed_html(html: Seq<char>) -> Document;

/// The number of nodes that a document holds.
pub uninterp spec fn node_count(doc: Document) -> nat;

/// The indices of the nodes that `Document::find` yields for the predicate
/// `Class(class)`, in the order in which it yields them.
pub uninterp spec fn nodes_with_class(doc: Document, class: Seq<char>) -> Seq<usize>;

/// The indices of the nodes that `Node::find` yields below the node `node`
/// for the predicate `Name(name)`, in the order in which it yields them.
pub uninterp spec fn descendants_named(doc: Document, node: usize, name: Seq<char>) -> Seq<usize>;

/// The text that `Node::text` returns for the node `node`.
pub uninterp spec fn text_of(doc: Document, node: usize) -> Seq<char>;

/// Whether `char::is_whitespace` holds of a character: the whitespace that
/// `str::trim` removes.
pub uninterp spec fn white_space(c: char) -> bool;

/// The longest text, in bytes, that the parser is handed. The parser keeps
/// text in buffers whose capacity is a power of two that must fit in 32 bits,
/// and it may write three bytes for one byte read (a replacement character
/// for a NUL), so no piece of a text of this length outgrows a buffer.
pub const MAX_TEXT_BYTES: usize = 0x2000_0000;

/// A text without the whitespace at its start.
pub open spec fn trimmed_start(text: Seq<char>) -> Seq<char>
    decreases text.len(),
{
    if text.len() > 0 && white_space(text.first()) {
        trimmed_start(text.drop_first())
    } else {
        text
    }
}

/// A text without the whitespace at its end.
pub open spec fn trimmed_end(text: Seq<char>) -> Seq<char>
    decreases text.len(),
{
    if text.len() > 0 && white_space(text.last()) {
        trimmed_end(text.drop_last())
    } else {
        text
    }
}

/// A text without the whitespace at its start and at its end.
pub open spec fn trimmed(text: Seq<char>) -> Seq<char> {
    trimmed_end(trimmed_start(text))
}

/// `out` is the part of `text` from `i` up to `j`, only whitespace lies
/// outside it, and it neither starts nor ends with whitespace.
pub open spec fn is_cut(text: Seq<char>, out: Seq<char>, i: int, j: int) -> bool {
    &&& 0 <= i <= j <= text.len()
    &&& out == text.subrange(i, j)
    &&& forall|k: int| 0 <= k < i ==> white_space(#[trigger] text[k])
    &&& forall|k: int| j <= k < text.len() ==> white_space(#[trigger] text[k])
    &&& i < j ==> !white_space(text[i]) && !white_space(text[j - 1])
}

spec fn leading(text: Seq<char>) -> nat
    decreases text.len(),
{
    if text.len() > 0 && white_space(text.first()) {
        1 + leading(text.drop_first())
    } else {
        0
    }
}

spec fn trailing(text: Seq<char>) -> nat
    decreases text.len(),
{
    if text.len() > 0 && white_space(text.last()) {
        1 + trailing(text.drop_last())
    } else {
        0
    }
}

proof fn lemma_trimmed_start(text: Seq<char>)
    ensures
        leading(text) <= text.len(),
        trimmed_start(text) == text.subrange(leading(text) as int, text.len() as int),
        forall|k: int| 0 <= k < leading(text) ==> white_space(#[trigger] text[k]),
        leading(text) < text.len() ==> !white_space(text[leading(text) as int]),
    decreases text.len(),
{
    if text.len() > 0 && white_space(text.first()) {
        let rest = text.drop_first();
        lemma_trimmed_start(rest);
        assert(rest.subrange(leading(rest) as int, rest.len() as int) =~= text.subrange(
            leading(text) as int,
            text.len() as int,
        ));
        assert forall|k: int| 0 <= k < leading(text) implies white_space(#[trigger] text[k]) by {
            if k > 0 {
                assert(text[k] == rest[k - 1]);
            }
        }
        if leading(text) < text.len() {
            assert(text[leading(text) as int] == rest[leading(rest) as int]);
        }
    } else {
        assert(text =~= text.subrange(0, text.len() as int));
    }
}

proof fn lemma_trimmed_end(text: Seq<char>)
    ensures
        trailing(text) <= text.len(),
        trimmed_end(text) == text.subrange(0, text.len() - trailing(text)),
        forall|k: int| text.len() - trailing(text) <= k < text.len() ==> white_space(#[trigger] text[k]),
        trailing(text) < text.len() ==> !white_space(text[text.len() - trailing(text) - 1]),
    decreases text.len(),
{
    if text.len() > 0 && white_space(text.last()) {
        let rest = text.drop_last();
        lemma_trimmed_end(rest);
        assert(rest.subrange(0, rest.len() - trailing(rest)) =~= text.subrange(
            0,
            text.len() - trailing(text),
        ));
        assert forall|k: int| text.len() - trailing(text) <= k < text.len() implies white_space(
            #[trigger] text[k],
        ) by {
            if k < text.len() - 1 {
                assert(text[k] == rest[k]);
            }
        }
        if trailing(text) < text.len() {
            assert(text[text.len() - trailing(text) - 1] == rest[rest.len() - trailing(rest) - 1]);
        }
    } else {
        assert(text =~= text.subrange(0, text.len() as int));
    }
}

/// What trimming leaves is one part of the text; only whitespace is cut off,
/// before and after it; and it neither starts nor ends with whitespace.
pub proof fn lemma_trimmed_is_cut(text: Seq<char>)
    ensures
        exists|i: int, j: int| is_cut(text, trimmed(text), i, j),
{
    let mid = trimmed_start(text);
    lemma_trimmed_start(text);
    lemma_trimmed_end(mid);
    let i = leading(text) as int;
    let j = text.len() - trailing(mid);
    assert(mid.subrange(0, mid.len() - trailing(mid)) =~= text.subrange(i, j));
    assert forall|k: int| j <= k < text.len() implies white_space(#[trigger] text[k]) by {
        assert(text[k] == mid[k - i]);
    }
    if i < j {
        assert(text[i] == mid[0]);
        assert(text[j - 1] == mid[mid.len() - trailing(mid) - 1]);
    }
    assert(is_cut(text, trimmed(text), i, j));
}

/// The document was built from some HTML text, so its nodes form a tree.
pub open spec fn is_parsed(doc: Document) -> bool {
    exists|html: Seq<char>| doc == #[trigger] parsed_html(html)
}

/// Every index in `nodes` addresses a node of `doc`.
pub open spec fn all_within(doc: Document, nodes: Seq<usize>) -> bool {
    forall|i: int| 0 <= i < nodes.len() ==> (#[trigger] nodes[i]) < node_count(doc)
}

/// Calls `Document::from` on a `&str`. The result depends on the text alone;
/// the contract gives it its name and claims nothing else. The call copies
/// the text into a buffer of 32-bit length and panics on a text that does
/// not fit, so `requires` keeps the text well below that.
#[verifier::external_body]
pub(crate) fn parse_html(html: &str) -> (doc: Document)
    requires
        html.spec_bytes().len() <= MAX_TEXT_BYTES,
    ensures
        doc == parsed_html(html@),
{
    Document::from(html)
}

/// Calls `Document::find` with `Class(class)` and hands out each node's index.
/// The iterator walks the document's nodes once and only yields nodes of the
/// document: each index is below the node count, and there are no more of
/// them than nodes.
#[verifier::external_body]
pub(crate) fn find_class(doc: &Document, class: &str) -> (nodes: Vec<usize>)
    requires
        is_parsed(*doc),
    ensures
        nodes@ == nodes_with_class(*doc, class@),
        nodes@.len() <= node_count(*doc),
        all_within(*doc, nodes@),
{
    doc.find(Class(class)).map(|n| n.index()).collect()
}

/// Calls `Node::find` with `Name(name)` on the node at `node` and hands out
/// each descendant's index. `Document::nth` returns the node for every index
/// below the node count, which `requires` asks for; the walk below the node
/// follows the links that the parser set.
#[verifier::external_body]
pub(crate) fn find_name(doc: &Document, node: usize, name: &str) -> (nodes: Vec<usize>)
    requires
        is_parsed(*doc),
        node < node_count(*doc),
    ensures
        nodes@ == descendants_named(*doc, node, name@),
        all_within(*doc, nodes@),
{
    doc.nth(node).unwrap().find(Name(name)).map(|n| n.index()).collect()
}

/// Calls `Node::text` on the node at `node`: the text of the node and of
/// everything below it.
#[verifier::external_body]
pub(crate) fn node_text(doc: &Document, node: usize) -> (text: String)
    requires
        is_parsed(*doc),
        node < node_count(*doc),
    ensures
        text@ == text_of(*doc, node),
{
    doc.nth(node).unwrap().text()
}

/// Calls `str::trim`, which removes leading and trailing whitespace, as
/// `char::is_whitespace` tells it: what is left neither starts nor ends with
/// whitespace.
#[verifier::external_body]
pub(crate) fn trim_text(text: &str) -> (out: String)
    ensures
        out@ == trimmed(text@),
        out@.len() > 0 ==> !white_space(out@.first()) && !white_space(out@.last()),
{
    text.trim().to_owned()
}

} // verus!
