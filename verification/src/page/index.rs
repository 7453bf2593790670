//! The home index page: its source is a plain Markdown file whose first
//! line is the page title (heading markers stripped) and whose remaining
//! lines are the body.
use vstd::prelude::*;
use vstd::string::*;

use crate::builder::LoadPage;
use crate::error::{ContentParseError, ContentParseErrorV};
use crate::markdown::{md_html_of, parse_md_to_html};
use crate::page::post::{PostIndex, PostIndexV};
use crate::text::{
    seqs_of, spec_join_lines, spec_lines, spec_rfind, spec_trim, join_lines_from, rfind_char,
    split_lines, trim,
};

verus! {

/// The views of a sequence of index entries.
pub open spec fn index_views(v: Seq<PostIndex>) -> Seq<PostIndexV> {
    v.map_values(|p: PostIndex| p@)
}

/// The home page of the site: a title, a rendered body, and, once the
/// builder attaches it, the sorted list of post entries.
#[derive(Debug)]
pub struct IndexPage {
    pub title: String,
    pub content: String,
    pub post_index: Option<Vec<PostIndex>>,
}

/// Mathematical image of an `IndexPage`.
pub struct IndexPageV {
    pub title: Seq<char>,
    pub content: Seq<char>,
    pub post_index: Option<Seq<PostIndexV>>,
}

impl View for IndexPage {
    type V = IndexPageV;

    open spec fn view(&self) -> IndexPageV {
        IndexPageV {
            title: self.title@,
            content: self.content@,
            post_index: match self.post_index {
                Some(v) => Some(index_views(v@)),
                None => None,
            },
        }
    }
}

/// The title with leading Markdown heading markers removed: everything
/// after the last `#`, trimmed.
pub open spec fn spec_strip_hash(title: Seq<char>) -> Seq<char> {
    spec_trim(title.skip(spec_rfind(title, '#') + 1))
}

/// Exec stripping under `spec_strip_hash`.
pub fn strip_hash_from_title(title: &str) -> (r: String)
    ensures
        r@ == spec_strip_hash(title@),
{
    let len = title.unicode_len();
    let rest = match rfind_char(title, '#') {
        Some(i) => title.substring_char(i + 1, len),
        None => title,
    };
    proof {
        assert(rest@ =~= title@.skip(spec_rfind(title@, '#') + 1));
    }
    trim(rest).to_owned()
}

/// What loading the index source yields: the first line as stripped
/// title, the remaining lines converted to HTML, and no post entries yet.
pub open spec fn spec_index_load(raw: Seq<char>) -> IndexPageV {
    let lines = spec_lines(raw);
    IndexPageV {
        title: if lines.len() == 0 {
            Seq::empty()
        } else {
            spec_strip_hash(lines[0])
        },
        content: md_html_of(
            if lines.len() == 0 {
                Seq::empty()
            } else {
                spec_join_lines(lines.skip(1))
            },
        ),
        post_index: None,
    }
}

impl IndexPage {
    /// Assemble an index page from its parts.
    pub fn new(title: String, content: String, posts: Option<Vec<PostIndex>>) -> (r: Self)
        ensures
            r@.title == title@,
            r@.content == content@,
            r@.post_index == (match posts {
                Some(v) => Some(index_views(v@)),
                None => None::<Seq<PostIndexV>>,
            }),
    {
        Self { title, content, post_index: posts }
    }

    /// Attach the sorted post entries the home page lists.
    pub fn set_post_index(&mut self, posts: Vec<PostIndex>)
        ensures
            final(self)@.title == old(self)@.title,
            final(self)@.content == old(self)@.content,
            final(self)@.post_index == Some(index_views(posts@)),
    {
        self.post_index = Some(posts)
    }
}

impl LoadPage for IndexPage {
    type Item = IndexPage;

    /// Any source text is accepted.
    open spec fn load_req(path: Seq<char>, raw: Seq<char>) -> bool {
        true
    }

    open spec fn load_spec(path: Seq<char>, raw: Seq<char>) -> Result<
        IndexPageV,
        ContentParseErrorV,
    > {
        Ok(spec_index_load(raw))
    }

    fn load(path: &str, raw: &str) -> (r: Result<IndexPage, ContentParseError>) {
        let lines = split_lines(raw);
        let title = if lines.len() == 0 {
            String::new()
        } else {
            strip_hash_from_title(lines[0].as_str())
        };
        let body = if lines.len() == 0 {
            String::new()
        } else {
            join_lines_from(&lines, 1)
        };
        proof {
            if lines@.len() > 0 {
                assert(seqs_of(lines@)[0] == lines@[0]@);
            }
        }
        let content = parse_md_to_html(body.as_str());
        Ok(IndexPage::new(title, content, None))
    }
}

} // verus!
