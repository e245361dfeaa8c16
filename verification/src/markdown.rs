//! Markdown, as the `pulldown_cmark` crate renders it.

use vstd::prelude::*;

verus! {

/// The HTML of a Markdown text.
pub uninterp spec fn markdown_html(md: Seq<char>) -> Seq<char>;

/// `pulldown_cmark::html::push_html` on the events of `pulldown_cmark::Parser::new_ext`, with all
/// of its extensions. Claimed of it: the HTML depends on the Markdown text alone.
#[verifier::external_body]
pub(crate) fn markdown_to_html(md: &str) -> (r: String)
    ensures
        r@ == markdown_html(md@),
{
    let mut html_out = String::new();
    let parser = pulldown_cmark::Parser::new_ext(md, pulldown_cmark::Options::all());
    pulldown_cmark::html::push_html(&mut html_out, parser);
    html_out
}

} // verus!
