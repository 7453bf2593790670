//! The error taxonomy of the build pipeline: content files that fail to
//! parse, templates that fail to render, and the union of both that a build
//! can report.
use vstd::prelude::*;
use vstd::string::*;

verus! {

/// Why a content file was rejected.
#[derive(Clone, Copy, Debug, PartialEq, Eq, Structural)]
pub enum ParseFault {
    /// The file does not open with a front-matter block, or the block is
    /// never closed by a delimiter line.
    MissingFrontMatter,
    /// A line inside the front-matter block fits no form of the header
    /// grammar.
    BadLine,
    /// The required `title` field is absent.
    MissingTitle,
    /// The required `date` field is absent.
    MissingDate,
}

/// A content file that could not be parsed, named by its path.
#[derive(Debug, Clone)]
pub struct ContentParseError {
    pub path: String,
    pub fault: ParseFault,
}

/// Mathematical image of a `ContentParseError`.
pub struct ContentParseErrorV {
    pub path: Seq<char>,
    pub fault: ParseFault,
}

impl View for ContentParseError {
    type V = ContentParseErrorV;

    open spec fn view(&self) -> ContentParseErrorV {
        ContentParseErrorV { path: self.path@, fault: self.fault }
    }
}

/// The diagnostic wording for each parse fault.
pub open spec fn spec_fault_text(f: ParseFault) -> Seq<char> {
    match f {
        ParseFault::MissingFrontMatter => "missing front matter block"@,
        ParseFault::BadLine => "malformed front matter line"@,
        ParseFault::MissingTitle => "missing title field"@,
        ParseFault::MissingDate => "missing date field"@,
    }
}

/// Exec wording for each parse fault.
pub fn fault_text(f: &ParseFault) -> (r: &'static str)
    ensures
        r@ == spec_fault_text(*f),
{
    match f {
        ParseFault::MissingFrontMatter => "missing front matter block",
        ParseFault::BadLine => "malformed front matter line",
        ParseFault::MissingTitle => "missing title field",
        ParseFault::MissingDate => "missing date field",
    }
}

impl ContentParseError {
    /// A diagnostic line naming the offending file.
    pub fn message(&self) -> (r: String)
        ensures
            r@ == "invalid front matter found in "@ + self.path@ + ": "@ + spec_fault_text(
                self.fault,
            ),
    {
        let mut out = "invalid front matter found in ".to_owned();
        out.append(self.path.as_str());
        out.append(": ");
        out.append(fault_text(&self.fault));
        out
    }
}

/// A template that could not be rendered: its name and what the renderer
/// reported.
#[derive(Debug, Clone)]
pub struct TemplateError {
    pub template: String,
    pub detail: String,
}

/// Mathematical image of a `TemplateError`.
pub struct TemplateErrorV {
    pub template: Seq<char>,
    pub detail: Seq<char>,
}

impl View for TemplateError {
    type V = TemplateErrorV;

    open spec fn view(&self) -> TemplateErrorV {
        TemplateErrorV { template: self.template@, detail: self.detail@ }
    }
}

impl TemplateError {
    /// A diagnostic line naming the template.
    pub fn message(&self) -> (r: String)
        ensures
            r@ == "failed to render template "@ + self.template@ + ": "@ + self.detail@,
    {
        let mut out = "failed to render template ".to_owned();
        out.append(self.template.as_str());
        out.append(": ");
        out.append(self.detail.as_str());
        out
    }
}

/// Everything that can abort a build.
#[derive(Debug, Clone)]
pub enum BuildError {
    /// A content file failed to parse while the site model was loaded.
    Parse(ContentParseError),
    /// A page failed to render.
    Template(TemplateError),
}

/// Mathematical image of a `BuildError`.
pub enum BuildErrorV {
    Parse(ContentParseErrorV),
    Template(TemplateErrorV),
}

impl View for BuildError {
    type V = BuildErrorV;

    open spec fn view(&self) -> BuildErrorV {
        match self {
            BuildError::Parse(e) => BuildErrorV::Parse(e@),
            BuildError::Template(e) => BuildErrorV::Template(e@),
        }
    }
}

impl BuildError {
    /// The diagnostic line of whichever failure occurred.
    pub fn message(&self) -> (r: String)
        ensures
            match self@ {
                BuildErrorV::Parse(e) => r@ == "invalid front matter found in "@ + e.path + ": "@
                    + spec_fault_text(e.fault),
                BuildErrorV::Template(e) => r@ == "failed to render template "@ + e.template + ": "@
                    + e.detail,
            },
    {
        match self {
            BuildError::Parse(e) => e.message(),
            BuildError::Template(e) => e.message(),
        }
    }
}

} // verus!
