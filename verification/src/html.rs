//! The visible text of an HTML fragment.
use vstd::prelude::*;
use crate::text::{is_white_space, join, trim, trim_str, join_strings, views, opt_views};

verus! {

/// Names what `scraper::Html::parse_fragment` yields for an HTML fragment: for each node of the
/// parsed tree, in the order in which `ego_tree::Tree::nodes` visits them, the node's text when
/// it is a text node and `None` when it is any other node.
pub uninterp spec fn html_fragment_text_nodes(source: Seq<char>) -> Seq<Option<Seq<char>>>;

/// Parses `source` with `scraper::Html::parse_fragment` and lists, for each node of the tree,
/// its text if it is a text node; the result is named by `html_fragment_text_nodes`.
#[verifier::external_body]
fn fragment_text_nodes(source: &str) -> (r: Vec<Option<String>>)
    ensures
        opt_views(r@) == html_fragment_text_nodes(source@),
{
    let document = scraper::Html::parse_fragment(source);
    document.tree.nodes().map(|node| node.value().as_text().map(|t| t.to_string())).collect()
}

/// The trimmed texts of the text nodes, in order, leaving out those that are empty once trimmed.
pub open spec fn text_pieces(nodes: Seq<Option<Seq<char>>>) -> Seq<Seq<char>>
    decreases nodes.len(),
{
    if nodes.len() == 0 {
        seq![]
    } else {
        let rest = text_pieces(nodes.drop_last());
        match nodes.last() {
            Some(t) => if trim(t).len() > 0 {
                rest.push(trim(t))
            } else {
                rest
            },
            None => rest,
        }
    }
}

/// The text of a fragment: its non-blank text nodes, trimmed, joined by single spaces, and the
/// whole trimmed once more.
pub open spec fn collapse_text(nodes: Seq<Option<Seq<char>>>) -> Seq<char> {
    trim(join(text_pieces(nodes), " "@))
}

/// The text of a fragment from the texts of its nodes (`None` for a node that is not text).
pub fn collapse_text_nodes(nodes: &Vec<Option<String>>) -> (r: String)
    ensures
        r@ == collapse_text(opt_views(nodes@)),
{
    let mut parts: Vec<String> = Vec::new();
    let mut i: usize = 0;
    while i < nodes.len()
        invariant
            i <= nodes@.len(),
            views(parts@) == text_pieces(opt_views(nodes@).take(i as int)),
        decreases nodes@.len() - i,
    {
        let ghost before = views(parts@);
        assert(opt_views(nodes@).take(i + 1).drop_last() =~= opt_views(nodes@).take(i as int));
        match &nodes[i] {
            Some(t) => {
                let tt = trim_str(t.as_str());
                if tt.unicode_len() > 0 {
                    parts.push(tt);
                    assert(views(parts@) =~= before.push(trim(t@)));
                }
            },
            None => {},
        }
        i = i + 1;
    }
    assert(opt_views(nodes@).take(nodes@.len() as int) =~= opt_views(nodes@));
    let joined = join_strings(&parts, " ");
    trim_str(joined.as_str())
}

/// The visible text of an HTML fragment neither starts nor ends with white space: trimming it
/// changes nothing.
pub proof fn lemma_html_text_is_trimmed(source: Seq<char>)
    ensures
        trim(html_text(source)) == html_text(source),
        html_text(source).len() > 0 ==> !is_white_space(html_text(source)[0])
            && !is_white_space(html_text(source).last()),
{
    crate::text::lemma_trim_idempotent(join(text_pieces(html_fragment_text_nodes(source)), " "@));
    crate::text::lemma_trim_ends(join(text_pieces(html_fragment_text_nodes(source)), " "@));
}

/// The visible text of the HTML fragment `source`.
pub open spec fn html_text(source: Seq<char>) -> Seq<char> {
    collapse_text(html_fragment_text_nodes(source))
}

/// The visible text of the HTML fragment `source`: the text nodes that are not blank, trimmed,
/// joined by single spaces.
pub fn parse_html(source: &str) -> (r: String)
    ensures
        r@ == html_text(source@),
{
    let nodes = fragment_text_nodes(source);
    collapse_text_nodes(&nodes)
}

} // verus!
