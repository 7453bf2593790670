//! The template rendering boundary. The templates are loaded and rendered
//! by tera; the builder hands a renderer instance in and treats the
//! rendered text as opaque. A failed render carries the renderer's own
//! diagnostic.
use vstd::prelude::*;

use crate::error::TemplateError;
use crate::page::index::IndexPage;
use crate::page::post::Post;

verus! {

/// tera's template registry, declared so that a renderer instance can
/// stand in signatures and be handed through the boundary.
#[verifier::external_type_specification]
#[verifier::external_body]
pub struct ExTera(tera::Tera);

/// Relies on tera's `Tera::render`: render the named template over a
/// context carrying the post's fields, its front matter as a nested
/// object. `render` returns `Err` when the template is missing or does
/// not fit the data; the error's display text is carried over.
#[verifier::external_body]
pub(crate) fn render_post_template(t: &tera::Tera, name: &str, post: &Post) -> Result<
    String,
    TemplateError,
> {
    let mut fm = tera::Context::new();
    fm.insert("title", &post.front_matter.title);
    fm.insert("tags", &post.front_matter.tags);
    fm.insert("date", &post.front_matter.date);
    let mut c = tera::Context::new();
    c.insert("front_matter", &fm.into_json());
    c.insert("path", &post.path);
    c.insert("url", &post.url);
    c.insert("title", &post.title);
    c.insert("content", &post.content);
    t.render(name, &c).map_err(|e| TemplateError { template: name.to_owned(), detail: e.to_string() })
}

/// Relies on tera's `Tera::render`: render the named template over a
/// context carrying the index page's title, body, and list of post
/// entries. `render` returns `Err` when the template is missing or does
/// not fit the data; the error's display text is carried over.
#[verifier::external_body]
pub(crate) fn render_index_template(t: &tera::Tera, name: &str, index: &IndexPage) -> Result<
    String,
    TemplateError,
> {
    let entries = index.post_index.as_ref().map(|v| v.iter().map(|p| {
        let mut e = tera::Context::new();
        e.insert("title", &p.title);
        e.insert("url", &p.url);
        e.insert("date", &p.date);
        e.into_json()
    }).collect::<Vec<_>>());
    let mut c = tera::Context::new();
    c.insert("title", &index.title);
    c.insert("content", &index.content);
    c.insert("post_index", &entries);
    t.render(name, &c).map_err(|e| TemplateError { template: name.to_owned(), detail: e.to_string() })
}

} // verus!
