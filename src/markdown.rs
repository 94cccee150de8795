use crate::channel::EmailChannel;
use vstd::prelude::*;

verus! {

/// The HTML that pulldown-cmark renders for a markdown text, with tables,
/// strikethrough and task lists switched on.
pub uninterp spec fn markdown_html_of(markdown: Seq<char>) -> Seq<char>;

/// Relies on `pulldown_cmark::html::push_html` over `Parser::new_ext` with the
/// table, strikethrough and task-list extensions: the HTML depends on the text
/// alone.
#[verifier::external_body]
fn render_markdown(markdown: &str) -> (r: String)
    ensures
        r@ == markdown_html_of(markdown@),
{
    let mut options = pulldown_cmark::Options::empty();
    options.insert(pulldown_cmark::Options::ENABLE_TABLES);
    options.insert(pulldown_cmark::Options::ENABLE_STRIKETHROUGH);
    options.insert(pulldown_cmark::Options::ENABLE_TASKLISTS);
    let mut out = String::new();
    pulldown_cmark::html::push_html(&mut out, pulldown_cmark::Parser::new_ext(markdown, options));
    out
}

impl EmailChannel {
    /// The HTML alternative of a markdown reply body.
    pub fn markdown_to_html(markdown: &str) -> (r: String)
        ensures
            r@ == markdown_html_of(markdown@),
    {
        render_markdown(markdown)
    }
}

} // verus!
