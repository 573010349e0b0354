//! The kinds of template files, by extension.

use crate::path::{extension, extension_x};
use crate::text::{str_eq, string_from_chars};
use vstd::prelude::*;

verus! {

/// The kind of a template file.
#[derive(Debug, PartialEq, Eq)]
pub enum TemplateKind {
    Markdown,
    Html,
    Other(String),
}

/// The kind of a file of a site.
#[derive(Debug, Clone, Copy, PartialEq, Eq, Structural)]
pub enum FileKind {
    /// The article content, usually in markdown format
    Article,
    /// The article wrapper template, like `page.html`
    Wrapper,
    /// The general page template, like `index.html`
    Custom,
    /// A static file, like CSS, JS, images, etc.
    Static,
}

/// The kind of a template, with its extension as characters.
pub enum KindV {
    Markdown,
    Html,
    Other(Seq<char>),
}

impl TemplateKind {
    pub open spec fn view(&self) -> KindV {
        match self {
            TemplateKind::Markdown => KindV::Markdown,
            TemplateKind::Html => KindV::Html,
            TemplateKind::Other(e) => KindV::Other(e@),
        }
    }
}

/// The kind of a template with extension `e`: `md` is markdown, `html` and
/// `htm` are HTML.
pub open spec fn kind_of_ext(e: Seq<char>) -> KindV {
    if e == seq!['m', 'd'] {
        KindV::Markdown
    } else if e == seq!['h', 't', 'm', 'l'] || e == seq!['h', 't', 'm'] {
        KindV::Html
    } else {
        KindV::Other(e)
    }
}

/// The kind of a template file: by its extension, or `Other` with an empty
/// extension when it has none.
pub open spec fn kind_of_file(f: Seq<char>) -> KindV {
    match extension(f) {
        Some(e) => kind_of_ext(e),
        None => KindV::Other(Seq::empty()),
    }
}

/// The extension of a kind of template.
pub open spec fn ext_of_kind(k: KindV) -> Seq<char> {
    match k {
        KindV::Markdown => seq!['m', 'd'],
        KindV::Html => seq!['h', 't', 'm', 'l'],
        KindV::Other(e) => e,
    }
}

impl Default for TemplateKind {
    fn default() -> (r: TemplateKind)
        ensures
            r.view() == KindV::Other(Seq::empty()),
    {
        TemplateKind::Other(String::new())
    }
}

impl TemplateKind {
    pub fn is_md(&self) -> (r: bool)
        ensures
            r == (self is Markdown),
    {
        matches!(self, TemplateKind::Markdown)
    }

    pub fn is_html(&self) -> (r: bool)
        ensures
            r == (self is Html),
    {
        matches!(self, TemplateKind::Html)
    }

    /// Whether the file is a template: markdown or HTML.
    pub fn is_template(&self) -> (r: bool)
        ensures
            r == (self is Markdown || self is Html),
    {
        self.is_md() || self.is_html()
    }

    /// The kind of a template with the given extension.
    pub fn from_extension(ext: &str) -> (r: TemplateKind)
        ensures
            r.view() == kind_of_ext(ext@),
    {
        proof {
            reveal_strlit("md");
            reveal_strlit("html");
            reveal_strlit("htm");
            assert("md"@ =~= seq!['m', 'd']);
            assert("html"@ =~= seq!['h', 't', 'm', 'l']);
            assert("htm"@ =~= seq!['h', 't', 'm']);
        }
        if str_eq(ext, "md") {
            TemplateKind::Markdown
        } else if str_eq(ext, "html") || str_eq(ext, "htm") {
            TemplateKind::Html
        } else {
            TemplateKind::Other(ext.to_string())
        }
    }

    /// The kind of a template file, by the extension of its name.
    pub fn from_filename(filename: &str) -> (r: TemplateKind)
        ensures
            r.view() == kind_of_file(filename@),
    {
        match extension_x(filename) {
            Some(e) => {
                let e = string_from_chars(e.as_slice());
                TemplateKind::from_extension(e.as_str())
            },
            None => TemplateKind::default(),
        }
    }

    /// The extension of files of this kind.
    pub fn extension(&self) -> (r: &str)
        ensures
            r@ == ext_of_kind(self.view()),
    {
        proof {
            reveal_strlit("md");
            reveal_strlit("html");
            assert("md"@ =~= seq!['m', 'd']);
            assert("html"@ =~= seq!['h', 't', 'm', 'l']);
        }
        match self {
            TemplateKind::Markdown => "md",
            TemplateKind::Html => "html",
            TemplateKind::Other(e) => e.as_str(),
        }
    }
}

} // verus!
