//! A small static-site generator: content files with a front-matter
//! header are loaded into a site model, rendered through templates, and
//! laid out as an output tree; a development server model keeps browsers
//! in step with rebuilds through a reload signal bus.
pub mod builder;
pub mod config;
pub mod error;
pub mod markdown;
pub mod page;
pub mod server;
pub mod templates;
pub mod text;

pub use builder::{
    create_page_content, scaffold_page, LoadPage, OutputFile, SiteBuilder, SourceFile,
};
pub use config::Config;
pub use error::{BuildError, ContentParseError, ParseFault, TemplateError};
pub use markdown::parse_md_to_html;
pub use page::index::{strip_hash_from_title, IndexPage};
pub use page::post::{FrontMatter, Post, PostIndex};
pub use page::posts::Posts;
pub use server::{parse_u16, should_rebuild, ReloadBus, SiteServer, Subscription, WatchEvent};
