//! Markdown-to-HTML rendering.

use vstd::prelude::*;

verus! {

/// The HTML rendering of a Markdown text; it depends on the characters
/// alone.
pub uninterp spec fn html_of(s: Seq<char>) -> Seq<char>;

/// Relies on pulldown_cmark's Parser::new_ext and html::push_html: the
/// CommonMark rendering of the content with the GitHub extensions
/// switched on, a pure function of the text.
#[verifier::external_body]
pub fn render_markdown_to_html(content: &str) -> (r: String)
    ensures
        r@ == html_of(content@),
{
    let mut options = pulldown_cmark::Options::empty();
    options.insert(pulldown_cmark::Options::ENABLE_STRIKETHROUGH);
    options.insert(pulldown_cmark::Options::ENABLE_TABLES);
    options.insert(pulldown_cmark::Options::ENABLE_FOOTNOTES);
    options.insert(pulldown_cmark::Options::ENABLE_TASKLISTS);
    options.insert(pulldown_cmark::Options::ENABLE_SMART_PUNCTUATION);
    let parser = pulldown_cmark::Parser::new_ext(content, options);
    let mut html_output = String::new();
    pulldown_cmark::html::push_html(&mut html_output, parser);
    html_output
}

} // verus!
