//! Markdown to HTML, by pulldown-cmark, and the markdown parser front end.

use vstd::prelude::*;

verus! {

/// The HTML that pulldown-cmark renders for markdown `text` with its
/// default options.
pub uninterp spec fn markdown_html(text: Seq<char>) -> Seq<char>;

/// The HTML that pulldown-cmark renders for markdown `text` with tables,
/// footnotes, strikethrough, GitHub extensions and metadata blocks enabled.
pub uninterp spec fn markdown_html_ext(text: Seq<char>) -> Seq<char>;

/// Renders markdown as HTML with `pulldown_cmark::Parser::new` and
/// `pulldown_cmark::html::push_html` into an empty string. The contract
/// claims only that the result is a function of the text, named
/// `markdown_html`; what that HTML is, is not stated.
#[verifier::external_body]
pub(crate) fn markdown_to_html(text: &str) -> (r: String)
    ensures
        r@ == markdown_html(text@),
{
    let mut out = String::new();
    pulldown_cmark::html::push_html(&mut out, pulldown_cmark::Parser::new(text));
    out
}

/// Renders markdown as HTML with `pulldown_cmark::Parser::new_ext`, with the
/// options for tables, footnotes, strikethrough, GitHub extensions and YAML
/// and `+++` metadata blocks, and `pulldown_cmark::html::push_html` into an
/// empty string. The contract claims only that the result is a function of
/// the text, named `markdown_html_ext`.
#[verifier::external_body]
pub(crate) fn markdown_to_html_ext(text: &str) -> (r: String)
    ensures
        r@ == markdown_html_ext(text@),
{
    let mut options = pulldown_cmark::Options::empty();
    options.insert(pulldown_cmark::Options::ENABLE_TABLES);
    options.insert(pulldown_cmark::Options::ENABLE_FOOTNOTES);
    options.insert(pulldown_cmark::Options::ENABLE_STRIKETHROUGH);
    options.insert(pulldown_cmark::Options::ENABLE_GFM);
    options.insert(pulldown_cmark::Options::ENABLE_YAML_STYLE_METADATA_BLOCKS);
    options.insert(pulldown_cmark::Options::ENABLE_PLUSES_DELIMITED_METADATA_BLOCKS);
    let mut out = String::new();
    pulldown_cmark::html::push_html(&mut out, pulldown_cmark::Parser::new_ext(text, options));
    out
}

/// Renders the text of a raw article as HTML: markdown with tables,
/// footnotes, strikethrough, GitHub extensions and metadata blocks.
pub fn convert_to_html(text: &str) -> (r: String)
    ensures
        r@ == markdown_html_ext(text@),
{
    markdown_to_html_ext(text)
}

/// The main struct for the markdown parser.
#[derive(Debug, Clone, Default)]
pub struct AllayMdParser {}

impl AllayMdParser {
    /// Parses markdown and gives its HTML.
    pub fn parse(self, md: &str) -> (r: String)
        ensures
            r@ == markdown_html(md@),
    {
        markdown_to_html(md)
    }
}

/// A shortcode: its name and its template.
#[derive(Debug, Clone)]
pub struct Shortcode {
    name: String,
    template: String,
}

impl Shortcode {
    pub closed spec fn name_view(&self) -> Seq<char> {
        self.name@
    }

    pub closed spec fn template_view(&self) -> Seq<char> {
        self.template@
    }

    /// A new shortcode.
    pub fn new(name: String, template: String) -> (r: Shortcode)
        ensures
            r.name_view() == name@,
            r.template_view() == template@,
    {
        Shortcode { name, template }
    }
}

/// The metadata of a markdown file, usually in YAML or TOML format.
#[derive(Debug, Clone)]
pub struct MarkdownMeta {}

/// The variable scope of a template.
#[derive(Debug, Clone)]
pub struct TemplateScope {}

/// The commands of the template language.
#[derive(Debug, Clone, Copy, PartialEq, Eq, Structural)]
pub enum TemplateCommand {
    /// Create a variable in the current scope
    SET,
    /// Give a variable of the current scope
    GET,
    /// Iterate a list
    FOR,
    /// Enter a child scope
    WITH,
    /// Render content on a condition
    IF,
    /// The alternative content of an if block
    ELSE,
    /// End a command block
    END,
    /// A parameter passed to the scope
    PARAM,
    /// Include another template file
    INCLUDE,
}

/// A template variable.
#[derive(Debug)]
pub enum TemplateVariable {
    String(String),
    Integer(i64),
    Boolean(bool),
    List(Vec<TemplateVariable>),
    Table(Vec<(String, TemplateVariable)>),
    Null,
}

} // verus!
