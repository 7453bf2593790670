//! The site builder: the orchestration that turns the in-memory site model
//! into the output tree, and the loading interface that the page entities
//! implement.
use vstd::prelude::*;
use vstd::string::*;

use crate::config::{spec_path_join, Config, ConfigV};
use crate::error::{BuildError, ContentParseError, ContentParseErrorV, TemplateError};
use crate::page::index::{IndexPage, IndexPageV, spec_index_load};
use crate::page::post::{
    now_timestamp, spec_html_path, Post, PostV,
};
use crate::page::posts::{
    post_views, source_views, spec_index_of_posts, spec_load_posts, spec_sort_desc, Posts,
};
use crate::templates::{render_index_template, render_post_template};
use crate::text::{replace_all, seq_starts_with, spec_replace};

verus! {

/// One content file, already read from disk: its path as the walker found
/// it, and its text.
#[derive(Debug, Clone)]
pub struct SourceFile {
    pub path: String,
    pub content: String,
}

/// Mathematical image of a `SourceFile`.
pub struct SourceFileV {
    pub path: Seq<char>,
    pub content: Seq<char>,
}

impl View for SourceFile {
    type V = SourceFileV;

    open spec fn view(&self) -> SourceFileV {
        SourceFileV { path: self.path@, content: self.content@ }
    }
}

/// One file of the output tree: where it goes and what it holds.
#[derive(Debug, Clone)]
pub struct OutputFile {
    pub path: String,
    pub content: String,
}

/// Mathematical image of an `OutputFile`.
pub struct OutputFileV {
    pub path: Seq<char>,
    pub content: Seq<char>,
}

impl View for OutputFile {
    type V = OutputFileV;

    open spec fn view(&self) -> OutputFileV {
        OutputFileV { path: self.path@, content: self.content@ }
    }
}

/// The loading interface of the page entities: parse one source file into
/// an entity, or reject it with a `ContentParseError`.
pub trait LoadPage: Sized {
    /// The entity a source file loads into.
    type Item: View;

    /// Which source files the loader accepts.
    spec fn load_req(path: Seq<char>, raw: Seq<char>) -> bool;

    /// What loading yields on accepted input: the entity, or the error
    /// that rejects the file.
    spec fn load_spec(path: Seq<char>, raw: Seq<char>) -> Result<
        <Self::Item as View>::V,
        ContentParseErrorV,
    >;

    /// Parse the text of one content file, read from `path`, into an
    /// entity.
    fn load(path: &str, raw: &str) -> (r: Result<Self::Item, ContentParseError>)
        requires
            Self::load_req(path@, raw@),
        ensures
            (match r {
                Ok(v) => Self::load_spec(path@, raw@) == Ok::<
                    <Self::Item as View>::V,
                    ContentParseErrorV,
                >(v@),
                Err(e) => Self::load_spec(path@, raw@) == Err::<
                    <Self::Item as View>::V,
                    ContentParseErrorV,
                >(e@),
            }),
    ;
}

/// The site builder: the directory layout, the home page, and the loaded
/// posts, with the full-rebuild orchestration over them.
#[derive(Debug)]
pub struct SiteBuilder {
    pub config: Config,
    pub index: IndexPage,
    pub posts: Posts,
}

/// Mathematical image of a `SiteBuilder`.
pub struct SiteBuilderV {
    pub config: ConfigV,
    pub index: IndexPageV,
    pub posts: Seq<PostV>,
}

impl View for SiteBuilder {
    type V = SiteBuilderV;

    open spec fn view(&self) -> SiteBuilderV {
        SiteBuilderV { config: self.config@, index: self.index@, posts: self.posts@ }
    }
}

/// The output path a post's rendered page is written to.
pub open spec fn spec_post_output_path(cfg: ConfigV, p: PostV) -> Seq<char> {
    spec_path_join(cfg.output_dir, spec_html_path(p.path))
}

/// The output path of the rendered home page.
pub open spec fn spec_index_output_path(cfg: ConfigV) -> Seq<char> {
    spec_path_join(cfg.output_dir, "index.html"@)
}

/// Pair a post's rendered page with its place in the output tree.
pub fn post_output_file(config: &Config, post: &Post, rendered: String) -> (r: OutputFile)
    ensures
        r@.path == spec_post_output_path(config@, post@),
        r@.content == rendered@,
{
    let rel = crate::page::post::html_path(post.path.as_str());
    let path = crate::config::path_join(config.output_dir.as_str(), rel.as_str());
    OutputFile { path, content: rendered }
}

impl Default for SiteBuilder {
    /// A builder over the conventional layout, with nothing loaded yet.
    fn default() -> (r: Self)
        ensures
            r@.config.page_dir == "pages"@,
            r@.config.static_dir == "static"@,
            r@.config.output_dir == "dist"@,
            r@.index.title == Seq::<char>::empty(),
            r@.index.content == Seq::<char>::empty(),
            r@.index.post_index is None,
            r@.posts == Seq::<PostV>::empty(),
    {
        let posts = Posts::new(Vec::new());
        proof {
            assert(post_views(Seq::<Post>::empty()) =~= Seq::<PostV>::empty());
        }
        SiteBuilder {
            config: Config::default(),
            index: IndexPage::new(String::new(), String::new(), None),
            posts,
        }
    }
}

impl SiteBuilder {
    /// A builder over the conventional layout, with nothing loaded yet.
    pub fn new() -> (r: Self)
        ensures
            r@.config.page_dir == "pages"@,
            r@.config.static_dir == "static"@,
            r@.config.output_dir == "dist"@,
            r@.index.title == Seq::<char>::empty(),
            r@.index.content == Seq::<char>::empty(),
            r@.index.post_index is None,
            r@.posts == Seq::<PostV>::empty(),
    {
        Self::default()
    }

    /// Render every post through the `post.html` template, pairing each
    /// rendered page with its output path. The first failed render aborts
    /// the build.
    fn build_posts(&self, t: &tera::Tera) -> (r: Result<Vec<OutputFile>, TemplateError>)
        ensures
            match r {
                Ok(files) => files@.len() == self@.posts.len() && forall|i: int|
                    0 <= i < files@.len() ==> (#[trigger] files@[i])@.path
                        == spec_post_output_path(self@.config, self@.posts[i]),
                Err(_) => true,
            },
    {
        let posts = self.posts.inner();
        let mut files: Vec<OutputFile> = Vec::new();
        let mut i: usize = 0;
        while i < posts.len()
            invariant
                i <= posts@.len(),
                post_views(posts@) == self@.posts,
                files@.len() == i,
                forall|m: int|
                    0 <= m < i ==> (#[trigger] files@[m])@.path == spec_post_output_path(
                        self@.config,
                        self@.posts[m],
                    ),
            decreases posts@.len() - i,
        {
            let post = &posts[i];
            let rendered = match render_post_template(t, "post.html", post) {
                Ok(s) => s,
                Err(e) => {
                    return Err(e);
                },
            };
            let file = post_output_file(&self.config, post, rendered);
            proof {
                assert(post_views(posts@)[i as int] == posts@[i as int]@);
            }
            files.push(file);
            i = i + 1;
        }
        Ok(files)
    }

    /// Sort the post entries onto the home page and render it through the
    /// `index.html` template.
    fn build_index(&mut self, t: &tera::Tera) -> (r: Result<OutputFile, TemplateError>)
        ensures
            final(self)@.config == old(self)@.config,
            final(self)@.posts == old(self)@.posts,
            final(self)@.index.title == old(self)@.index.title,
            final(self)@.index.content == old(self)@.index.content,
            final(self)@.index.post_index == Some(
                spec_sort_desc(spec_index_of_posts(old(self)@.posts)),
            ),
            match r {
                Ok(f) => f@.path == spec_index_output_path(old(self)@.config),
                Err(_) => true,
            },
    {
        let entries = self.posts.get_post_index();
        self.index.set_post_index(entries);
        let rendered = match render_index_template(t, "index.html", &self.index) {
            Ok(s) => s,
            Err(e) => {
                return Err(e);
            },
        };
        let path = crate::config::path_join(self.config.output_dir.as_str(), "index.html");
        Ok(OutputFile { path, content: rendered })
    }

    /// Render the whole site: one output file per post, then the home
    /// page last. The first failed render aborts the build and its output
    /// must not be trusted; on success the home page carries the post
    /// entries sorted by date, newest first.
    pub fn build(&mut self, t: &tera::Tera) -> (r: Result<Vec<OutputFile>, TemplateError>)
        ensures
            final(self)@.config == old(self)@.config,
            final(self)@.posts == old(self)@.posts,
            final(self)@.index.title == old(self)@.index.title,
            final(self)@.index.content == old(self)@.index.content,
            final(self)@.index.post_index == old(self)@.index.post_index || final(self)@.index.post_index
                == Some(spec_sort_desc(spec_index_of_posts(old(self)@.posts))),
            match r {
                Ok(files) => {
                    &&& files@.len() == old(self)@.posts.len() + 1
                    &&& forall|i: int|
                        0 <= i < old(self)@.posts.len() ==> (#[trigger] files@[i])@.path
                            == spec_post_output_path(old(self)@.config, old(self)@.posts[i])
                    &&& files@.last()@.path == spec_index_output_path(old(self)@.config)
                    &&& final(self)@.index.post_index == Some(
                        spec_sort_desc(spec_index_of_posts(old(self)@.posts)),
                    )
                },
                Err(_) => true,
            },
    {
        let mut files = match self.build_posts(t) {
            Ok(fs) => fs,
            Err(e) => {
                return Err(e);
            },
        };
        let index_file = match self.build_index(t) {
            Ok(f) => f,
            Err(e) => {
                return Err(e);
            },
        };
        files.push(index_file);
        Ok(files)
    }

    /// Refresh the site model from the given sources, then render the
    /// whole site. A source that fails to parse aborts the rebuild before
    /// anything is replaced.
    pub fn rebuild(&mut self, t: &tera::Tera, sources: Vec<SourceFile>, index_raw: &str) -> (r:
        Result<Vec<OutputFile>, BuildError>)
        requires
            forall|i: int|
                0 <= i < sources@.len() ==> seq_starts_with(
                    (#[trigger] sources@[i]).path@,
                    "pages/"@,
                ),
        ensures
            final(self)@.config == old(self)@.config,
            match r {
                Ok(files) => {
                    &&& spec_load_posts(source_views(sources@)) == Ok::<
                        Seq<PostV>,
                        ContentParseErrorV,
                    >(final(self)@.posts)
                    &&& final(self)@.index.title == spec_index_load(index_raw@).title
                    &&& final(self)@.index.content == spec_index_load(index_raw@).content
                    &&& final(self)@.index.post_index == Some(
                        spec_sort_desc(spec_index_of_posts(final(self)@.posts)),
                    )
                    &&& files@.len() == final(self)@.posts.len() + 1
                    &&& forall|i: int|
                        0 <= i < final(self)@.posts.len() ==> (#[trigger] files@[i])@.path
                            == spec_post_output_path(old(self)@.config, final(self)@.posts[i])
                    &&& files@.last()@.path == spec_index_output_path(old(self)@.config)
                },
                Err(BuildError::Parse(e)) => spec_load_posts(source_views(sources@)) == Err::<
                    Seq<PostV>,
                    ContentParseErrorV,
                >(e@) && final(self)@ == old(self)@,
                Err(BuildError::Template(_)) => spec_load_posts(source_views(sources@)) == Ok::<
                    Seq<PostV>,
                    ContentParseErrorV,
                >(final(self)@.posts),
            },
    {
        let posts = match Posts::load(sources) {
            Ok(ps) => ps,
            Err(e) => {
                return Err(BuildError::Parse(e));
            },
        };
        let index_path = self.config.get_page_index_path();
        let index = match IndexPage::load(index_path.as_str(), index_raw) {
            Ok(ix) => ix,
            Err(e) => {
                return Err(BuildError::Parse(e));
            },
        };
        self.posts = posts;
        self.index = index;
        match self.build(t) {
            Ok(files) => Ok(files),
            Err(e) => Err(BuildError::Template(e)),
        }
    }

    /// The three recursive copies that complete a build, source first,
    /// destination second: the content image directory, the static
    /// assets, and the favicon files, which land at the output root.
    pub fn copy_plan(&self) -> (r: Vec<(String, String)>)
        ensures
            r@.len() == 3,
            r@[0].0@ == spec_path_join(self@.config.page_dir, "image"@),
            r@[0].1@ == spec_path_join(self@.config.output_dir, "image"@),
            r@[1].0@ == spec_path_join(self@.config.static_dir, "assets"@),
            r@[1].1@ == spec_path_join(self@.config.output_dir, "assets"@),
            r@[2].0@ == spec_path_join(self@.config.static_dir, "favicon"@),
            r@[2].1@ == self@.config.output_dir,
    {
        let image_src = self.config.get_page_image_path();
        proof {
            reveal_strlit("image");
            let pd = self.config.page_dir@;
            assert(image_src@.take(pd.len() + 1 as int) =~= pd + seq!['/']);
            assert(seq_starts_with(image_src@, pd + seq!['/']));
            assert(image_src@.skip(pd.len() + 1 as int) =~= "image"@);
        }
        let image_dst = self.config.get_output_image_path(image_src.as_str());
        let assets_src = crate::config::path_join(self.config.static_dir.as_str(), "assets");
        proof {
            reveal_strlit("assets");
            let sd = self.config.static_dir@;
            assert(assets_src@.take(sd.len() + 1 as int) =~= sd + seq!['/']);
            assert(seq_starts_with(assets_src@, sd + seq!['/']));
            assert(assets_src@.skip(sd.len() + 1 as int) =~= "assets"@);
        }
        let assets_dst = self.config.get_output_assets_path(assets_src.as_str());
        let favicon_src = crate::config::path_join(self.config.static_dir.as_str(), "favicon");
        let favicon_dst = self.config.output_dir.clone();
        let mut out: Vec<(String, String)> = Vec::new();
        out.push((image_src, image_dst));
        out.push((assets_src, assets_dst));
        out.push((favicon_src, favicon_dst));
        out
    }
}

/// The scaffold text of a fresh page: a front-matter block carrying the
/// page title and a date, one draft tag, and a placeholder body.
pub open spec fn spec_scaffold(title: Seq<char>, date: Seq<char>) -> Seq<char> {
    "---\ntitle: "@ + title + "\ndate: "@ + date
        + "\ntags: \n    - draft\n---\n\n# Write your post here.\n\n"@
}

/// Compose the scaffold for a page named `name`: the title is the name
/// without its `.md` extension.
pub fn scaffold_page(name: &str, date: &str) -> (r: String)
    ensures
        r@ == spec_scaffold(spec_replace(name@, ".md"@, ""@), date@),
{
    proof {
        reveal_strlit(".md");
        reveal_strlit("");
    }
    let title = replace_all(name, ".md", "");
    let mut out = "---\ntitle: ".to_owned();
    out.append(title.as_str());
    out.append("\ndate: ");
    out.append(date);
    out.append("\ntags: \n    - draft\n---\n\n# Write your post here.\n\n");
    out
}

/// Compose a fresh page's scaffold with the current local time as its
/// date.
pub fn create_page_content(name: &str) -> (r: String)
    ensures
        exists|date: Seq<char>| r@ == spec_scaffold(spec_replace(name@, ".md"@, ""@), date),
{
    let date = now_timestamp();
    let r = scaffold_page(name, date.as_str());
    proof {
        assert(r@ == spec_scaffold(spec_replace(name@, ".md"@, ""@), date@));
    }
    r
}

/// The full output tree of one build: each post's page at its derived
/// path in walk order, then the home page, each holding what the renderer
/// returned for it.
pub open spec fn spec_output_tree(
    cfg: ConfigV,
    posts: Seq<PostV>,
    rendered_posts: Seq<Seq<char>>,
    rendered_index: Seq<char>,
) -> Seq<OutputFileV> {
    Seq::new(
        posts.len(),
        |i: int| OutputFileV { path: spec_post_output_path(cfg, posts[i]), content: rendered_posts[i] },
    ).push(OutputFileV { path: spec_index_output_path(cfg), content: rendered_index })
}

/// Idempotence: building twice over unchanged sources, with a renderer
/// that returns the same text for the same request, produces
/// byte-identical output trees. Loading is a function of the source text,
/// so both builds render the same posts, and equal rendered text then
/// gives equal trees.
pub proof fn lemma_build_idempotent(
    cfg: ConfigV,
    s1: Seq<SourceFileV>,
    s2: Seq<SourceFileV>,
    rp1: Seq<Seq<char>>,
    rp2: Seq<Seq<char>>,
    ri1: Seq<char>,
    ri2: Seq<char>,
)
    requires
        s1 == s2,
        rp1 == rp2,
        ri1 == ri2,
        spec_load_posts(s1) is Ok,
    ensures
        spec_load_posts(s1) == spec_load_posts(s2),
        spec_output_tree(cfg, spec_load_posts(s1)->Ok_0, rp1, ri1) == spec_output_tree(
            cfg,
            spec_load_posts(s2)->Ok_0,
            rp2,
            ri2,
        ),
{
}

} // verus!
