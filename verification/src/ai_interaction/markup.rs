//! Markup trees: what a model's reply looks like once it has been parsed.

use vstd::prelude::*;

verus! {

/// `html_parser::Node`, a node of a parsed document, carried through as it is.
#[verifier::external_type_specification]
#[verifier::external_body]
pub struct ExNode(html_parser::Node);

/// One node of a markup tree.
#[derive(PartialEq, Eq, Debug)]
pub enum MarkupNode {
    /// A run of text.
    Text(String),
    /// An element: its name and its children, in order.
    Element(String, Vec<MarkupNode>),
    /// A comment.
    Comment(String),
}

/// The mathematical value of a [`MarkupNode`].
pub enum MarkupView {
    Text(Seq<char>),
    Element(Seq<char>, Seq<MarkupView>),
    Comment(Seq<char>),
}

impl View for MarkupNode {
    type V = MarkupView;

    open spec fn view(&self) -> MarkupView
        decreases self,
    {
        match self {
            MarkupNode::Text(text) => MarkupView::Text(text@),
            MarkupNode::Element(name, children) => MarkupView::Element(
                name@,
                Seq::new(
                    children@.len(),
                    |i: int|
                        if 0 <= i < children@.len() {
                            children@[i].view()
                        } else {
                            MarkupView::Comment(Seq::empty())
                        },
                ),
            ),
            MarkupNode::Comment(text) => MarkupView::Comment(text@),
        }
    }
}

/// The values of a sequence of nodes.
pub open spec fn node_views(nodes: Seq<MarkupNode>) -> Seq<MarkupView> {
    Seq::new(nodes.len(), |i: int| nodes[i]@)
}

/// The tree that stands for a node of the outside parser.
pub uninterp spec fn lifted(node: html_parser::Node) -> MarkupView;

/// The root nodes that the outside parser gives for a text, or `None` where
/// it rejects the text.
pub uninterp spec fn parsed_roots(text: Seq<char>) -> Option<Seq<MarkupView>>;

/// Parses `text` with `html_parser::Dom::parse` and hands out the root nodes
/// of the document, or `None` where the parser reports an error. The result
/// depends on the text alone.
#[verifier::external_body]
fn parse_roots(text: &str) -> (r: Option<Vec<html_parser::Node>>)
    ensures
        match r {
            Some(nodes) => parsed_roots(text@) == Some(nodes@.map_values(|n: html_parser::Node| lifted(n))),
            None => parsed_roots(text@) is None,
        },
{
    match html_parser::Dom::parse(text) {
        Ok(dom) => Some(dom.children),
        Err(_) => None,
    }
}

/// Copies a node of the outside parser, with all below it, into a tree of
/// this library: text to text, comment to comment, an element to an element
/// of the same name with its children in the same order.
#[verifier::external_body]
fn lift_node(node: &html_parser::Node) -> (r: MarkupNode)
    ensures
        r@ == lifted(*node),
{
    match node {
        html_parser::Node::Text(text) => MarkupNode::Text(text.clone()),
        html_parser::Node::Comment(text) => MarkupNode::Comment(text.clone()),
        html_parser::Node::Element(element) => MarkupNode::Element(
            element.name.clone(),
            element.children.iter().map(lift_node).collect(),
        ),
    }
}

/// Parses `text` into markup trees, or `None` where it cannot be parsed.
pub fn parse_markup(text: &str) -> (r: Option<Vec<MarkupNode>>)
    ensures
        match r {
            Some(nodes) => parsed_roots(text@) == Some(node_views(nodes@)),
            None => parsed_roots(text@) is None,
        },
{
    match parse_roots(text) {
        None => None,
        Some(roots) => {
            let mut out: Vec<MarkupNode> = Vec::new();
            let mut i: usize = 0;
            while i < roots.len()
                invariant
                    i <= roots.len(),
                    out.len() == i,
                    forall|j: int| 0 <= j < i ==> out@[j]@ == lifted(roots@[j]),
                decreases roots.len() - i,
            {
                out.push(lift_node(&roots[i]));
                i += 1;
            }
            proof {
                assert(node_views(out@) =~= roots@.map_values(|n: html_parser::Node| lifted(n)));
            }
            Some(out)
        },
    }
}

} // verus!
