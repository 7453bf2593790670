//! The directory layout a site is built from and into. Paths are kept as
//! plain relative path strings with `/` separators.
use vstd::prelude::*;
use vstd::string::*;

use crate::text::seq_starts_with;

verus! {

/// Where content is read from and output is written to.
#[derive(Debug, Clone)]
pub struct Config {
    /// The content root holding the Markdown sources.
    pub page_dir: String,
    /// The static file root holding assets and favicons.
    pub static_dir: String,
    /// The output root, regenerated wholesale on every build.
    pub output_dir: String,
}

/// Mathematical image of a `Config`.
pub struct ConfigV {
    pub page_dir: Seq<char>,
    pub static_dir: Seq<char>,
    pub output_dir: Seq<char>,
}

impl View for Config {
    type V = ConfigV;

    open spec fn view(&self) -> ConfigV {
        ConfigV {
            page_dir: self.page_dir@,
            static_dir: self.static_dir@,
            output_dir: self.output_dir@,
        }
    }
}

/// `a` and `b` joined with a path separator.
pub open spec fn spec_path_join(a: Seq<char>, b: Seq<char>) -> Seq<char> {
    a + seq!['/'] + b
}

/// Exec path join under `spec_path_join`.
pub fn path_join(a: &str, b: &str) -> (r: String)
    ensures
        r@ == spec_path_join(a@, b@),
{
    let mut out = a.to_owned();
    out.append("/");
    out.append(b);
    proof {
        reveal_strlit("/");
        assert("/"@ =~= seq!['/']);
    }
    out
}

impl Default for Config {
    /// The conventional layout: content under `pages`, static files under
    /// `static`, output under `dist`.
    fn default() -> (r: Self)
        ensures
            r.page_dir@ == "pages"@,
            r.static_dir@ == "static"@,
            r.output_dir@ == "dist"@,
    {
        Config {
            page_dir: "pages".to_owned(),
            static_dir: "static".to_owned(),
            output_dir: "dist".to_owned(),
        }
    }
}

impl Config {
    /// The directory the post sources live in.
    pub fn get_page_posts_path(&self) -> (r: String)
        ensures
            r@ == spec_path_join(self.page_dir@, "posts"@),
    {
        path_join(self.page_dir.as_str(), "posts")
    }

    /// The directory the rendered post pages are written to.
    pub fn get_output_posts_path(&self) -> (r: String)
        ensures
            r@ == spec_path_join(self.output_dir@, "posts"@),
    {
        path_join(self.output_dir.as_str(), "posts")
    }

    /// The index page source file.
    pub fn get_page_index_path(&self) -> (r: String)
        ensures
            r@ == spec_path_join(self.page_dir@, "index.md"@),
    {
        path_join(self.page_dir.as_str(), "index.md")
    }

    /// The image directory under the content root.
    pub fn get_page_image_path(&self) -> (r: String)
        ensures
            r@ == spec_path_join(self.page_dir@, "image"@),
    {
        path_join(self.page_dir.as_str(), "image")
    }

    /// Map a path under the content root to the same path under the output
    /// root, e.g. `pages/image/x.png` to `dist/image/x.png`.
    pub fn get_output_image_path(&self, input: &str) -> (r: String)
        requires
            seq_starts_with(input@, self.page_dir@ + seq!['/']),
        ensures
            r@ == spec_path_join(self.output_dir@, input@.skip(self.page_dir@.len() + 1 as int)),
    {
        let input_len = input.unicode_len();
        let page_len = self.page_dir.as_str().unicode_len();
        proof {
            assert(self.page_dir@.len() + 1 <= input@.len());
        }
        let start = page_len + 1;
        let rest = input.substring_char(start, input_len);
        proof {
            assert(rest@ =~= input@.skip(self.page_dir@.len() + 1 as int));
        }
        path_join(self.output_dir.as_str(), rest)
    }

    /// Map a path under the static root to the same path under the output
    /// root, e.g. `static/assets/site.css` to `dist/assets/site.css`.
    pub fn get_output_assets_path(&self, input: &str) -> (r: String)
        requires
            seq_starts_with(input@, self.static_dir@ + seq!['/']),
        ensures
            r@ == spec_path_join(self.output_dir@, input@.skip(self.static_dir@.len() + 1 as int)),
    {
        let input_len = input.unicode_len();
        let static_len = self.static_dir.as_str().unicode_len();
        proof {
            assert(self.static_dir@.len() + 1 <= input@.len());
        }
        let start = static_len + 1;
        let rest = input.substring_char(start, input_len);
        proof {
            assert(rest@ =~= input@.skip(self.static_dir@.len() + 1 as int));
        }
        path_join(self.output_dir.as_str(), rest)
    }

    /// Map a path under the favicon directory straight to the output root,
    /// e.g. `static/favicon/favicon.ico` to `dist/favicon.ico`.
    pub fn get_output_favicon_path(&self, input: &str) -> (r: String)
        requires
            seq_starts_with(
                input@,
                spec_path_join(self.static_dir@, "favicon"@) + seq!['/'],
            ),
        ensures
            r@ == spec_path_join(
                self.output_dir@,
                input@.skip(self.static_dir@.len() + "favicon"@.len() + 2 as int),
            ),
    {
        let input_len = input.unicode_len();
        let static_len = self.static_dir.as_str().unicode_len();
        proof {
            reveal_strlit("favicon");
            assert(self.static_dir@.len() + 9 <= input@.len());
        }
        let start = static_len + 9;
        let rest = input.substring_char(start, input_len);
        proof {
            assert(rest@ =~= input@.skip(self.static_dir@.len() + "favicon"@.len() + 2 as int));
        }
        path_join(self.output_dir.as_str(), rest)
    }
}

} // verus!
