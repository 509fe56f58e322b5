//! Markdown bodies rendered to HTML.
use vstd::prelude::*;

verus! {

/// The HTML that the markdown renderer makes of a text, with tables,
/// strikethrough and footnotes enabled.
pub uninterp spec fn html_of(markdown: Seq<char>) -> Seq<char>;

/// Relies on `pulldown_cmark::Parser::new_ext` with tables, strikethrough and
/// footnotes, and `pulldown_cmark::html::push_html` into an empty string.
#[verifier::external_body]
fn render_markdown(markdown: &str) -> (r: String)
    ensures
        r@ == html_of(markdown@),
{
    let mut options = pulldown_cmark::Options::empty();
    options.insert(pulldown_cmark::Options::ENABLE_STRIKETHROUGH);
    options.insert(pulldown_cmark::Options::ENABLE_TABLES);
    options.insert(pulldown_cmark::Options::ENABLE_FOOTNOTES);
    let mut out = String::new();
    pulldown_cmark::html::push_html(&mut out, pulldown_cmark::Parser::new_ext(markdown, options));
    out
}

/// The HTML body of a markdown text.
pub fn markdown_to_html(markdown: &str) -> (r: String)
    ensures
        r@ == html_of(markdown@),
{
    render_markdown(markdown)
}

} // verus!
