//! A single post and the front-matter header grammar of a content file.
//!
//! A content file opens with a delimiter line `---`, carries `key: value`
//! header lines up to a closing `---` line, and continues with the Markdown
//! body. The header must define `title` and `date`; it may define `tags`
//! as an inline `[a, b]` list or as an indented block of `- item` lines;
//! values may be wrapped in double quotes; unknown keys are ignored.
use vstd::prelude::*;
use vstd::string::*;

use crate::builder::LoadPage;
use crate::error::{ContentParseError, ContentParseErrorV, ParseFault};
use crate::markdown::{md_html_of, parse_md_to_html};
use crate::text::{
    is_ws, is_ws_char, join_lines_from, seqs_of, spec_find, spec_join_lines, spec_lines,
    spec_rfind, spec_split_commas, spec_trim, spec_unquote, lemma_spec_find, find_char,
    rfind_char, seq_starts_with, split_commas, split_lines, str_eq, trim, unquote,
};

verus! {

/// The metadata header of a content file. An absent `tags` field is
/// distinct from an empty tag list. The `date` string has the fixed form
/// `YYYY-MM-DD HH:MM:SS`, so plain string order is chronological order.
#[derive(Debug, Clone)]
pub struct FrontMatter {
    pub title: String,
    pub tags: Option<Vec<String>>,
    pub date: String,
}

/// Mathematical image of a `FrontMatter`.
pub struct FrontMatterV {
    pub title: Seq<char>,
    pub tags: Option<Seq<Seq<char>>>,
    pub date: Seq<char>,
}

impl View for FrontMatter {
    type V = FrontMatterV;

    open spec fn view(&self) -> FrontMatterV {
        FrontMatterV {
            title: self.title@,
            tags: match self.tags {
                Some(v) => Some(seqs_of(v@)),
                None => None,
            },
            date: self.date@,
        }
    }
}

/// What an indented continuation line inside the header belongs to.
#[derive(Clone, Copy, Debug, PartialEq, Eq, Structural)]
pub enum FmCtx {
    /// No block is open: the next line must be a top-level `key: value`.
    Top,
    /// A `tags:` block is open: indented `- item` lines add tags.
    TagsBlock,
    /// An unknown key opened a block: indented lines are skipped.
    IgnoreBlock,
}

/// The parser state after some header lines have been read.
pub struct FmState {
    pub title: Option<String>,
    pub date: Option<String>,
    pub tags: Option<Vec<String>>,
    pub ctx: FmCtx,
}

/// Mathematical image of an `FmState`.
pub struct FmStateV {
    pub title: Option<Seq<char>>,
    pub date: Option<Seq<char>>,
    pub tags: Option<Seq<Seq<char>>>,
    pub ctx: FmCtx,
}

impl View for FmState {
    type V = FmStateV;

    open spec fn view(&self) -> FmStateV {
        FmStateV {
            title: self.title.deep_view(),
            date: self.date.deep_view(),
            tags: match self.tags {
                Some(v) => Some(seqs_of(v@)),
                None => None,
            },
            ctx: self.ctx,
        }
    }
}

/// The state before any header line has been read.
pub open spec fn spec_fm_init() -> FmStateV {
    FmStateV { title: None, date: None, tags: None, ctx: FmCtx::Top }
}

/// The items of an inline `[a, b]` list body: comma-separated, trimmed,
/// unquoted; a blank body is the empty list.
pub open spec fn spec_inline_list(inner: Seq<char>) -> Seq<Seq<char>> {
    if spec_trim(inner).len() == 0 {
        Seq::empty()
    } else {
        spec_split_commas(inner).map_values(|x: Seq<char>| spec_unquote(spec_trim(x)))
    }
}

/// A top-level `key: value` header line applied to the state.
pub open spec fn spec_fm_key_line(st: FmStateV, line: Seq<char>) -> Result<FmStateV, ParseFault> {
    let ci = spec_find(line, ':');
    if ci >= line.len() {
        Err(ParseFault::BadLine)
    } else {
        let key = spec_trim(line.take(ci));
        let value = spec_trim(line.skip(ci + 1));
        if key == "title"@ {
            Ok(FmStateV { title: Some(spec_unquote(value)), ctx: FmCtx::Top, ..st })
        } else if key == "date"@ {
            Ok(FmStateV { date: Some(spec_unquote(value)), ctx: FmCtx::Top, ..st })
        } else if key == "tags"@ {
            if value.len() == 0 {
                Ok(FmStateV { tags: None, ctx: FmCtx::TagsBlock, ..st })
            } else if value[0] == '[' && value.last() == ']' {
                Ok(
                    FmStateV {
                        tags: Some(spec_inline_list(value.subrange(1, value.len() - 1))),
                        ctx: FmCtx::Top,
                        ..st
                    },
                )
            } else {
                Err(ParseFault::BadLine)
            }
        } else {
            if value.len() == 0 {
                Ok(FmStateV { ctx: FmCtx::IgnoreBlock, ..st })
            } else {
                Ok(FmStateV { ctx: FmCtx::Top, ..st })
            }
        }
    }
}

/// One header line applied to the parser state: blank lines are skipped,
/// indented lines continue an open block, anything else is a `key: value`
/// line.
pub open spec fn spec_fm_step(st: FmStateV, line: Seq<char>) -> Result<FmStateV, ParseFault> {
    let t = spec_trim(line);
    if t.len() == 0 {
        Ok(st)
    } else if is_ws(line[0]) {
        match st.ctx {
            FmCtx::TagsBlock => {
                if t[0] == '-' {
                    let item = spec_unquote(spec_trim(t.drop_first()));
                    let items = match st.tags {
                        Some(v) => v,
                        None => Seq::empty(),
                    };
                    Ok(FmStateV { tags: Some(items.push(item)), ..st })
                } else {
                    Err(ParseFault::BadLine)
                }
            },
            FmCtx::IgnoreBlock => Ok(st),
            FmCtx::Top => Err(ParseFault::BadLine),
        }
    } else {
        spec_fm_key_line(st, line)
    }
}

/// All header lines applied in order, stopping at the first bad line.
pub open spec fn spec_fm_run(st: FmStateV, lines: Seq<Seq<char>>) -> Result<FmStateV, ParseFault>
    decreases lines.len(),
{
    if lines.len() == 0 {
        Ok(st)
    } else {
        match spec_fm_step(st, lines[0]) {
            Ok(st2) => spec_fm_run(st2, lines.drop_first()),
            Err(f) => Err(f),
        }
    }
}

/// The front matter a finished state denotes, if the required fields are
/// present.
pub open spec fn spec_fm_finalize(st: FmStateV) -> Result<FrontMatterV, ParseFault> {
    if st.title is None {
        Err(ParseFault::MissingTitle)
    } else if st.date is None {
        Err(ParseFault::MissingDate)
    } else {
        Ok(FrontMatterV { title: st.title->0, tags: st.tags, date: st.date->0 })
    }
}

/// Exec mirror of `spec_fm_step`, consuming and returning the state.
pub fn fm_step(st: FmState, line: &str) -> (r: Result<FmState, ParseFault>)
    ensures
        (match r {
            Ok(st2) => spec_fm_step(st@, line@) == Ok::<FmStateV, ParseFault>(st2@),
            Err(f) => spec_fm_step(st@, line@) == Err::<FmStateV, ParseFault>(f),
        }),
{
    let t = trim(line);
    let t_len = t.unicode_len();
    if t_len == 0 {
        return Ok(st);
    }
    proof {
        if line@.len() == 0 {
            assert(spec_trim(line@).len() == 0);
        }
    }
    let c0 = line.get_char(0);
    if is_ws_char(c0) {
        match st.ctx {
            FmCtx::TagsBlock => {
                if t.get_char(0) == '-' {
                    let item_part = t.substring_char(1, t_len);
                    proof {
                        assert(item_part@ =~= t@.drop_first());
                    }
                    let item = unquote(trim(item_part)).to_owned();
                    let mut items: Vec<String> = match st.tags {
                        Some(v) => v,
                        None => Vec::new(),
                    };
                    let ghost old_items = seqs_of(items@);
                    items.push(item);
                    proof {
                        assert(seqs_of(items@) =~= old_items.push(
                            spec_unquote(spec_trim(t@.drop_first())),
                        ));
                        if st.tags is None {
                            assert(old_items =~= Seq::<Seq<char>>::empty());
                        }
                    }
                    Ok(FmState { tags: Some(items), ..st })
                } else {
                    Err(ParseFault::BadLine)
                }
            },
            FmCtx::IgnoreBlock => Ok(st),
            FmCtx::Top => Err(ParseFault::BadLine),
        }
    } else {
        fm_key_line(st, line)
    }
}

/// Exec mirror of `spec_fm_key_line`.
fn fm_key_line(st: FmState, line: &str) -> (r: Result<FmState, ParseFault>)
    requires
        spec_trim(line@).len() > 0,
        line@.len() > 0,
        !is_ws(line@[0]),
    ensures
        (match r {
            Ok(st2) => spec_fm_key_line(st@, line@) == Ok::<FmStateV, ParseFault>(st2@),
            Err(f) => spec_fm_key_line(st@, line@) == Err::<FmStateV, ParseFault>(f),
        }),
{
    let line_len = line.unicode_len();
    proof {
        lemma_spec_find(line@, ':');
    }
    let ci = match find_char(line, ':') {
        Some(i) => i,
        None => {
            proof {
                if spec_find(line@, ':') < line@.len() {
                    assert(line@[spec_find(line@, ':')] == ':');
                }
            }
            return Err(ParseFault::BadLine);
        },
    };
    proof {
        let sf = spec_find(line@, ':');
        if sf < ci {
            assert(line@[sf] == ':');
        }
        if ci < sf {
            assert(line@[ci as int] != ':');
        }
        assert(ci == sf);
    }
    let key_part = line.substring_char(0, ci);
    let value_part = line.substring_char(ci + 1, line_len);
    proof {
        assert(key_part@ =~= line@.take(ci as int));
        assert(value_part@ =~= line@.skip(ci + 1));
    }
    let key = trim(key_part);
    let value = trim(value_part);
    let value_len = value.unicode_len();
    let ghost stv = st@;
    let ghost sv = spec_trim(line@.skip(spec_find(line@, ':') + 1));
    if str_eq(key, "title") {
        let title = unquote(value).to_owned();
        let st2 = FmState { title: Some(title), ctx: FmCtx::Top, ..st };
        proof {
            assert(st2@ == FmStateV { title: Some(spec_unquote(sv)), ctx: FmCtx::Top, ..stv });
        }
        Ok(st2)
    } else if str_eq(key, "date") {
        let date = unquote(value).to_owned();
        let st2 = FmState { date: Some(date), ctx: FmCtx::Top, ..st };
        proof {
            assert(st2@ == FmStateV { date: Some(spec_unquote(sv)), ctx: FmCtx::Top, ..stv });
        }
        Ok(st2)
    } else if str_eq(key, "tags") {
        if value_len == 0 {
            let st2 = FmState { tags: None, ctx: FmCtx::TagsBlock, ..st };
            proof {
                assert(st2@ == FmStateV { tags: None, ctx: FmCtx::TagsBlock, ..stv });
            }
            Ok(st2)
        } else if value.get_char(0) == '[' && value.get_char(value_len - 1) == ']' {
            let inner = value.substring_char(1, value_len - 1);
            proof {
                assert(inner@ =~= value@.subrange(1, value@.len() - 1));
            }
            let items = inline_list(inner);
            let st2 = FmState { tags: Some(items), ctx: FmCtx::Top, ..st };
            proof {
                assert(st2@ == FmStateV {
                    tags: Some(spec_inline_list(sv.subrange(1, sv.len() - 1))),
                    ctx: FmCtx::Top,
                    ..stv
                });
            }
            Ok(st2)
        } else {
            Err(ParseFault::BadLine)
        }
    } else {
        if value_len == 0 {
            let st2 = FmState { ctx: FmCtx::IgnoreBlock, ..st };
            proof {
                assert(st2@ == FmStateV { ctx: FmCtx::IgnoreBlock, ..stv });
            }
            Ok(st2)
        } else {
            let st2 = FmState { ctx: FmCtx::Top, ..st };
            proof {
                assert(st2@ == FmStateV { ctx: FmCtx::Top, ..stv });
            }
            Ok(st2)
        }
    }
}

/// Exec mirror of `spec_inline_list`.
fn inline_list(inner: &str) -> (r: Vec<String>)
    ensures
        seqs_of(r@) == spec_inline_list(inner@),
{
    let t = trim(inner);
    if t.unicode_len() == 0 {
        let empty: Vec<String> = Vec::new();
        proof {
            assert(seqs_of(empty@) =~= Seq::<Seq<char>>::empty());
        }
        return empty;
    }
    let segs = split_commas(inner);
    let ghost mapped = spec_split_commas(inner@).map_values(
        |x: Seq<char>| spec_unquote(spec_trim(x)),
    );
    let mut out: Vec<String> = Vec::new();
    let mut i: usize = 0;
    proof {
        assert(seqs_of(out@) =~= mapped.take(0));
    }
    while i < segs.len()
        invariant
            i <= segs@.len(),
            seqs_of(segs@) == spec_split_commas(inner@),
            mapped == spec_split_commas(inner@).map_values(
                |x: Seq<char>| spec_unquote(spec_trim(x)),
            ),
            seqs_of(out@) == mapped.take(i as int),
        decreases segs@.len() - i,
    {
        let item = unquote(trim(segs[i].as_str())).to_owned();
        let ghost prev = out@;
        out.push(item);
        proof {
            assert(mapped.len() == segs@.len());
            assert(seqs_of(prev) == mapped.take(i as int));
            assert(mapped.take(i as int).len() == i as int);
            assert(seqs_of(prev).len() == prev.len());
            assert(prev.len() == i as int);
            assert(out@ == prev.push(out@[i as int]));
            assert(segs@[i as int]@ == seqs_of(segs@)[i as int]);
            assert(mapped[i as int] == spec_unquote(spec_trim(seqs_of(segs@)[i as int])));
            assert(seqs_of(out@).len() == i + 1);
            assert forall|j: int| 0 <= j < i + 1 implies seqs_of(out@)[j] == mapped.take(i + 1)[j]
            by {
                if j < i {
                    assert(seqs_of(prev)[j] == mapped.take(i as int)[j]);
                }
            }
            assert(seqs_of(out@) =~= mapped.take(i + 1));
        }
        i = i + 1;
    }
    proof {
        assert(mapped.take(segs@.len() as int) =~= mapped);
    }
    out
}

/// The first delimiter line `---` at or after `i`, or `lines.len()` if
/// there is none.
pub open spec fn spec_find_delim(lines: Seq<Seq<char>>, i: int) -> int
    decreases lines.len() - i,
{
    if i < 0 || i >= lines.len() {
        lines.len() as int
    } else if lines[i] == "---"@ {
        i
    } else {
        spec_find_delim(lines, i + 1)
    }
}

/// What parsing a whole content file yields: the front matter and the
/// Markdown body, or the first fault. The file must open with a `---`
/// line; the body is the lines after the closing `---`, joined with `\n`.
pub open spec fn spec_parse_front_matter(raw: Seq<char>) -> Result<
    (FrontMatterV, Seq<char>),
    ParseFault,
> {
    let lines = spec_lines(raw);
    if lines.len() == 0 || lines[0] != "---"@ {
        Err(ParseFault::MissingFrontMatter)
    } else {
        let close = spec_find_delim(lines, 1);
        if close >= lines.len() {
            Err(ParseFault::MissingFrontMatter)
        } else {
            match spec_fm_run(spec_fm_init(), lines.subrange(1, close)) {
                Ok(st) => match spec_fm_finalize(st) {
                    Ok(fm) => Ok((fm, spec_join_lines(lines.skip(close + 1)))),
                    Err(f) => Err(f),
                },
                Err(f) => Err(f),
            }
        }
    }
}

/// A single rendered post of the site, created once per content file while
/// loading and immutable afterwards.
#[derive(Debug, Clone)]
pub struct Post {
    /// The parsed metadata header.
    pub front_matter: FrontMatter,
    /// The content-root-relative source path, e.g. `posts/hello.md`.
    pub path: String,
    /// The absolute site path of the rendered page, e.g. `/posts/hello.html`.
    pub url: String,
    /// The title, copied from the front matter.
    pub title: String,
    /// The rendered HTML body.
    pub content: String,
}

/// Mathematical image of a `Post`.
pub struct PostV {
    pub front_matter: FrontMatterV,
    pub path: Seq<char>,
    pub url: Seq<char>,
    pub title: Seq<char>,
    pub content: Seq<char>,
}

impl View for Post {
    type V = PostV;

    open spec fn view(&self) -> PostV {
        PostV {
            front_matter: self.front_matter@,
            path: self.path@,
            url: self.url@,
            title: self.title@,
            content: self.content@,
        }
    }
}

/// The lightweight projection of a post that the index page lists.
#[derive(Debug, Clone)]
pub struct PostIndex {
    pub title: String,
    pub url: String,
    pub date: String,
}

/// Mathematical image of a `PostIndex`.
pub struct PostIndexV {
    pub title: Seq<char>,
    pub url: Seq<char>,
    pub date: Seq<char>,
}

impl View for PostIndex {
    type V = PostIndexV;

    open spec fn view(&self) -> PostIndexV {
        PostIndexV { title: self.title@, url: self.url@, date: self.date@ }
    }
}

/// The index entry a post projects to.
pub open spec fn spec_post_index_of(p: PostV) -> PostIndexV {
    PostIndexV { title: p.title, url: p.url, date: p.front_matter.date }
}

impl PostIndex {
    /// Project a post to its index entry.
    pub fn from_post(post: &Post) -> (r: PostIndex)
        ensures
            r@ == spec_post_index_of(post@),
    {
        PostIndex {
            title: post.title.clone(),
            url: post.url.clone(),
            date: post.front_matter.date.clone(),
        }
    }
}

/// Relies on chrono's `Local::now` and `DateTime::format`: the current
/// local wall-clock time, written as `YYYY-MM-DD HH:MM:SS`. The result
/// depends on the clock, so nothing is promised of it.
#[verifier::external_body]
pub(crate) fn now_timestamp() -> String {
    chrono::Local::now().format("%Y-%m-%d %H:%M:%S").to_string()
}

impl Default for FrontMatter {
    /// The placeholder header a fresh page starts from: a stand-in title,
    /// no tags, and the current local time as the date.
    fn default() -> (r: Self)
        ensures
            r@.title == "Undefined Title"@,
            r@.tags is None,
    {
        FrontMatter {
            title: "Undefined Title".to_owned(),
            tags: None,
            date: now_timestamp(),
        }
    }
}

/// The source path with its extension replaced by `.html`. The extension
/// is the part of the last path component after its last `.`, not counting
/// a leading `.` of the component; without one, `.html` is appended.
pub open spec fn spec_html_path(p: Seq<char>) -> Seq<char> {
    let slash = spec_rfind(p, '/');
    let dot = spec_rfind(p, '.');
    if dot > slash + 1 {
        p.take(dot) + ".html"@
    } else {
        p + ".html"@
    }
}

/// The absolute site url a content-root-relative path renders to: a `/`
/// followed by the path with its extension replaced by `.html`.
pub open spec fn spec_url_of(rel: Seq<char>) -> Seq<char> {
    seq!['/'] + spec_html_path(rel)
}

/// Exec extension replacement under `spec_html_path`.
pub fn html_path(p: &str) -> (r: String)
    ensures
        r@ == spec_html_path(p@),
{
    let len = p.unicode_len();
    let slash = rfind_char(p, '/');
    let dot = rfind_char(p, '.');
    let cut: usize = match (dot, slash) {
        (Some(d), Some(sl)) => if d > sl + 1 {
            d
        } else {
            len
        },
        (Some(d), None) => if d > 0 {
            d
        } else {
            len
        },
        (None, _) => len,
    };
    let mut out = p.substring_char(0, cut).to_owned();
    out.append(".html");
    proof {
        if spec_rfind(p@, '.') > spec_rfind(p@, '/') + 1 {
            assert(p@.take(spec_rfind(p@, '.')) == p@.take(cut as int));
        } else {
            assert(p@.take(cut as int) =~= p@);
        }
    }
    out
}

/// Exec url derivation under `spec_url_of`.
pub fn url_of(rel: &str) -> (r: String)
    ensures
        r@ == spec_url_of(rel@),
{
    let mut out = "/".to_owned();
    let html = html_path(rel);
    out.append(html.as_str());
    proof {
        reveal_strlit("/");
        assert("/"@ =~= seq!['/']);
    }
    out
}

/// What loading a post from a content file yields: the path is made
/// content-root-relative by dropping the `pages/` prefix, the url is
/// derived from that relative path, and the body is converted to HTML.
pub open spec fn spec_post_load(path: Seq<char>, raw: Seq<char>) -> Result<
    PostV,
    ContentParseErrorV,
> {
    match spec_parse_front_matter(raw) {
        Ok(p) => {
            let rel = path.skip("pages/"@.len() as int);
            Ok(
                PostV {
                    front_matter: p.0,
                    path: rel,
                    url: spec_url_of(rel),
                    title: p.0.title,
                    content: md_html_of(p.1),
                },
            )
        },
        Err(f) => Err(ContentParseErrorV { path: path, fault: f }),
    }
}

/// Url derivation: a loaded post's url comes from its source path alone,
/// never from the front matter: a file at `pages/<rel>` always yields the
/// url `/<rel>` with its extension replaced by `.html`.
pub proof fn lemma_url_from_path(path: Seq<char>, raw1: Seq<char>, raw2: Seq<char>)
    requires
        spec_post_load(path, raw1) is Ok,
        spec_post_load(path, raw2) is Ok,
    ensures
        (spec_post_load(path, raw1)->Ok_0).url == (spec_post_load(path, raw2)->Ok_0).url,
        (spec_post_load(path, raw1)->Ok_0).url == spec_url_of(path.skip("pages/"@.len() as int)),
{
}

impl LoadPage for Post {
    type Item = Post;

    /// A post source lives under the content root `pages/`.
    open spec fn load_req(path: Seq<char>, raw: Seq<char>) -> bool {
        seq_starts_with(path, "pages/"@)
    }

    open spec fn load_spec(path: Seq<char>, raw: Seq<char>) -> Result<PostV, ContentParseErrorV> {
        spec_post_load(path, raw)
    }

    fn load(path: &str, raw: &str) -> (r: Result<Post, ContentParseError>) {
        let parsed = Post::read_front_matter(raw, path);
        let (fm, md) = match parsed {
            Ok(p) => p,
            Err(e) => {
                proof {
                    assert(e@ == ContentParseErrorV { path: path@, fault: e@.fault });
                }
                return Err(e);
            },
        };
        let content = parse_md_to_html(md.as_str());
        let title = fm.title.clone();
        let path_len = path.unicode_len();
        proof {
            reveal_strlit("pages/");
        }
        let rel = path.substring_char(6, path_len).to_owned();
        proof {
            assert(rel@ =~= path@.skip("pages/"@.len() as int));
        }
        let url = url_of(rel.as_str());
        Ok(Post { front_matter: fm, path: rel, url, title, content })
    }
}

impl Post {
    /// Split a content file into its parsed front matter and its Markdown
    /// body, under the header grammar of this crate. A failure names the
    /// file the content came from.
    pub fn read_front_matter(content: &str, path: &str) -> (r: Result<
        (FrontMatter, String),
        ContentParseError,
    >)
        ensures
            match r {
                Ok(p) => spec_parse_front_matter(content@) == Ok::<
                    (FrontMatterV, Seq<char>),
                    ParseFault,
                >((p.0@, p.1@)),
                Err(e) => spec_parse_front_matter(content@) == Err::<
                    (FrontMatterV, Seq<char>),
                    ParseFault,
                >(e@.fault) && e@.path == path@,
            },
    {
        let lines = split_lines(content);
        let ghost l = seqs_of(lines@);
        if lines.len() == 0 {
            return Err(
                ContentParseError { path: path.to_owned(), fault: ParseFault::MissingFrontMatter },
            );
        }
        if !str_eq(lines[0].as_str(), "---") {
            proof {
                assert(l[0] == lines@[0]@);
            }
            return Err(
                ContentParseError { path: path.to_owned(), fault: ParseFault::MissingFrontMatter },
            );
        }
        proof {
            assert(l[0] == lines@[0]@);
        }
        let n = lines.len();
        let mut close: usize = 1;
        while close < n && !str_eq(lines[close].as_str(), "---")
            invariant
                1 <= close <= n,
                n == lines@.len(),
                l == seqs_of(lines@),
                spec_find_delim(l, 1) == spec_find_delim(l, close as int),
            decreases n - close,
        {
            proof {
                assert(l[close as int] == lines@[close as int]@);
            }
            close = close + 1;
        }
        if close == n {
            return Err(
                ContentParseError { path: path.to_owned(), fault: ParseFault::MissingFrontMatter },
            );
        }
        proof {
            assert(l[close as int] == lines@[close as int]@);
            assert(spec_find_delim(l, 1) == close as int);
        }
        let mut st = FmState { title: None, date: None, tags: None, ctx: FmCtx::Top };
        let ghost fm_lines = l.subrange(1, close as int);
        let mut k: usize = 1;
        proof {
            assert(fm_lines.skip(0) =~= fm_lines);
            assert(st@ == spec_fm_init());
        }
        while k < close
            invariant
                1 <= k <= close,
                close < n,
                n == lines@.len(),
                l == seqs_of(lines@),
                l == spec_lines(content@),
                l.len() > 0,
                l[0] == "---"@,
                spec_find_delim(l, 1) == close as int,
                fm_lines == l.subrange(1, close as int),
                spec_fm_run(spec_fm_init(), fm_lines) == spec_fm_run(st@, fm_lines.skip(k - 1)),
            decreases close - k,
        {
            let ghost pre = st@;
            let stepped = fm_step(st, lines[k].as_str());
            proof {
                assert(fm_lines.skip(k - 1).len() > 0);
                assert(fm_lines.skip(k - 1)[0] == l[k as int]);
                assert(l[k as int] == lines@[k as int]@);
                assert(fm_lines.skip(k - 1).drop_first() =~= fm_lines.skip(k as int));
            }
            match stepped {
                Ok(st2) => {
                    st = st2;
                },
                Err(f) => {
                    proof {
                        assert(spec_fm_run(pre, fm_lines.skip(k - 1)) == Err::<
                            FmStateV,
                            ParseFault,
                        >(f));
                        assert(spec_fm_run(spec_fm_init(), fm_lines) == Err::<
                            FmStateV,
                            ParseFault,
                        >(f));
                        assert(spec_parse_front_matter(content@) == Err::<
                            (FrontMatterV, Seq<char>),
                            ParseFault,
                        >(f));
                    }
                    return Err(ContentParseError { path: path.to_owned(), fault: f });
                },
            }
            k = k + 1;
        }
        proof {
            assert(fm_lines.skip(close - 1) =~= Seq::<Seq<char>>::empty());
            assert(spec_fm_run(spec_fm_init(), fm_lines) == Ok::<FmStateV, ParseFault>(st@));
        }
        let ghost stv = st@;
        let FmState { title, date, tags, ctx: _ } = st;
        let title = match title {
            Some(t) => t,
            None => {
                return Err(
                    ContentParseError { path: path.to_owned(), fault: ParseFault::MissingTitle },
                );
            },
        };
        let date = match date {
            Some(d) => d,
            None => {
                return Err(
                    ContentParseError { path: path.to_owned(), fault: ParseFault::MissingDate },
                );
            },
        };
        let fm = FrontMatter { title, tags, date };
        let body = join_lines_from(&lines, close + 1);
        proof {
            assert(fm@ == spec_fm_finalize(stv)->Ok_0);
        }
        Ok((fm, body))
    }
}

} // verus!
