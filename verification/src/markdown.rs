//! The Markdown-to-HTML conversion boundary. The conversion itself is done
//! by pulldown-cmark and is treated as a pure function of the input text;
//! only the image-source rewriting that this crate adds is verified here.
use pulldown_cmark::{html, Event, Options, Parser, Tag};
use vstd::prelude::*;

use crate::text::{replace_all, spec_replace};

verus! {

/// What the Markdown converter returns for a given input text. The
/// conversion is deterministic: the output of pulldown-cmark depends on the
/// input text and the option set alone, and the option set is fixed below.
pub uninterp spec fn md_html_of(s: Seq<char>) -> Seq<char>;

/// Rewrite relative image sources to site-absolute ones, so a post page
/// finds the image directory at the output root.
pub fn rewrite_image_src(url: &str) -> (r: String)
    ensures
        r@ == spec_replace(url@, "../image"@, "/image"@),
{
    proof {
        reveal_strlit("../image");
    }
    replace_all(url, "../image", "/image")
}

/// Relies on pulldown-cmark's `Parser::new_ext` and `html::push_html`: the
/// rendered HTML is a function of the Markdown text alone, here with
/// strikethrough, task lists and smart punctuation enabled, and image
/// destinations rewritten by `rewrite_image_src`.
#[verifier::external_body]
pub fn parse_md_to_html(markdown_input: &str) -> (r: String)
    ensures
        r@ == md_html_of(markdown_input@),
{
    let options = Options::ENABLE_STRIKETHROUGH | Options::ENABLE_TASKLISTS
        | Options::ENABLE_SMART_PUNCTUATION;
    let parser = Parser::new_ext(markdown_input, options).map(|event| match event {
        Event::Start(Tag::Image(a, url, b)) => {
            Event::Start(Tag::Image(a, rewrite_image_src(&url).into(), b))
        },
        _ => event,
    });
    let mut html_output = String::new();
    html::push_html(&mut html_output, parser);
    html_output
}

} // verus!
