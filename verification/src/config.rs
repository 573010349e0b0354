//! Configuration of the site generator: the tool's directories, the theme's
//! files, the command line and the preview server.

use crate::data::{AllayData, AllayDataError, AllayObject, DataView, lookup};
use crate::path::{join, join_x};
use vstd::prelude::*;

verus! {

/// The directories the tool works with, relative to the site root.
#[derive(Debug, Clone)]
pub struct AllayConfig {
    pub content_dir: String,
    pub publish_dir: String,
    pub statics_dir: String,
    pub plugin_dir: String,
    pub shortcode_dir: String,
    pub theme_dir: String,
    pub log_dir: String,
}

impl Default for AllayConfig {
    fn default() -> (r: AllayConfig)
        ensures
            r.content_dir@ == "contents"@,
            r.publish_dir@ == "public"@,
            r.statics_dir@ == "static"@,
            r.plugin_dir@ == "plugins"@,
            r.shortcode_dir@ == "shortcodes"@,
            r.theme_dir@ == "themes"@,
            r.log_dir@ == "logs"@,
    {
        AllayConfig {
            content_dir: "contents".to_string(),
            publish_dir: "public".to_string(),
            statics_dir: "static".to_string(),
            plugin_dir: "plugins".to_string(),
            shortcode_dir: "shortcodes".to_string(),
            theme_dir: "themes".to_string(),
            log_dir: "logs".to_string(),
        }
    }
}

/// The environment the tool runs in.
#[derive(Debug, Clone, Copy, PartialEq, Eq, Structural)]
pub enum Environment {
    Development,
    Production,
}

/// Whether `a` equals `b` when ASCII letters of `a` are taken in lower case.
pub open spec fn lower_eq(a: Seq<char>, b: Seq<char>) -> bool {
    a.len() == b.len() && forall|i: int| 0 <= i < a.len() ==> #[trigger] ascii_lower(a[i]) == b[i]
}

/// An ASCII letter in lower case; any other character as it is.
pub open spec fn ascii_lower(c: char) -> char {
    if 'A' <= c && c <= 'Z' {
        ((c as u32) + 32) as char
    } else {
        c
    }
}

fn ascii_lower_x(c: char) -> (r: char)
    ensures
        r == ascii_lower(c),
{
    if 'A' <= c && c <= 'Z' {
        let b = c as u8;
        assert(b == c as u32);
        (b + 32) as char
    } else {
        c
    }
}

fn lower_eq_x(a: &str, b: &str) -> (r: bool)
    ensures
        r == lower_eq(a@, b@),
{
    let av = crate::text::chars_of(a);
    let bv = crate::text::chars_of(b);
    if av.len() != bv.len() {
        return false;
    }
    let mut i: usize = 0;
    while i < av.len()
        invariant
            av@ == a@,
            bv@ == b@,
            av@.len() == bv@.len(),
            i <= av@.len(),
            forall|j: int| 0 <= j < i ==> #[trigger] ascii_lower(av@[j]) == bv@[j],
        decreases av.len() - i,
    {
        if ascii_lower_x(av[i]) != bv[i] {
            return false;
        }
        i += 1;
    }
    true
}

/// The environment named by `name`, in any case of letters: `dev` and
/// `development` name development, anything else production.
pub open spec fn env_of(name: Seq<char>) -> Environment {
    if lower_eq(name, "dev"@) || lower_eq(name, "development"@) {
        Environment::Development
    } else {
        Environment::Production
    }
}

impl Environment {
    /// Check if the environment is development
    pub fn is_dev(&self) -> (r: bool)
        ensures
            r == (*self == Environment::Development),
    {
        matches!(self, Environment::Development)
    }

    /// Check if the environment is production
    pub fn is_prod(&self) -> (r: bool)
        ensures
            r == (*self == Environment::Production),
    {
        matches!(self, Environment::Production)
    }

    /// The environment named by `name` (the `ALLAY_ENV` setting; production
    /// when it is not set).
    pub fn from_name(name: Option<&str>) -> (r: Environment)
        ensures
            r == match name {
                Some(n) => env_of(n@),
                None => Environment::Production,
            },
    {
        match name {
            Some(n) => {
                if lower_eq_x(n, "dev") || lower_eq_x(n, "development") {
                    Environment::Development
                } else {
                    Environment::Production
                }
            },
            None => Environment::Production,
        }
    }
}

/// The description of a theme.
#[derive(Debug, Clone)]
pub struct ThemeMeta {
    pub name: String,
    pub version: String,
    pub author: String,
    pub description: Option<String>,
    pub license: Option<String>,
}

/// The files of a theme.
#[derive(Debug, Clone)]
pub struct FileConfig {
    pub custom_dir: String,
    pub static_dir: String,
    pub templates: TemplateConfig,
}

impl Default for FileConfig {
    fn default() -> (r: FileConfig)
        ensures
            r.custom_dir@ == "custom"@,
            r.static_dir@ == "static"@,
            r.templates.dir@ == "templates"@,
            r.templates.index@ == "index.html"@,
            r.templates.content@ == "page.html"@,
            r.templates.not_found@ == "404.html"@,
    {
        FileConfig {
            custom_dir: "custom".to_string(),
            static_dir: "static".to_string(),
            templates: TemplateConfig::default(),
        }
    }
}

/// The plugins a theme depends on, with their versions.
#[derive(Debug, Clone)]
pub struct Dependencies {
    pub plugins: Vec<(String, String)>,
}

impl Default for Dependencies {
    fn default() -> (r: Dependencies)
        ensures
            r.plugins@.len() == 0,
    {
        Dependencies { plugins: Vec::new() }
    }
}

/// The templates of a theme.
#[derive(Debug, Clone)]
pub struct TemplateConfig {
    pub dir: String,
    pub index: String,
    pub content: String,
    pub not_found: String,
}

impl Default for TemplateConfig {
    fn default() -> (r: TemplateConfig)
        ensures
            r.dir@ == "templates"@,
            r.index@ == "index.html"@,
            r.content@ == "page.html"@,
            r.not_found@ == "404.html"@,
    {
        TemplateConfig {
            dir: "templates".to_string(),
            index: "index.html".to_string(),
            content: "page.html".to_string(),
            not_found: "404.html".to_string(),
        }
    }
}

/// The configuration of a theme.
#[derive(Debug, Clone)]
pub struct ThemeConfig {
    pub meta: ThemeMeta,
    pub config: FileConfig,
    pub dependencies: Dependencies,
}

/// The theme chosen by a site configuration: the value of `theme`, or
/// `Axolotl`; `None` when `theme` is not a string.
pub open spec fn theme_name(site: Seq<(Seq<char>, DataView)>) -> Option<Seq<char>> {
    match lookup(site, "theme"@) {
        Some(DataView::Str(s)) => Some(s),
        Some(_) => None,
        None => Some("Axolotl"@),
    }
}

/// The directory of the chosen theme: the theme directory joined with the
/// theme's name, `Axolotl` when the site names none. (A `theme` that is not
/// a string stops the tool with an error before any page.)
pub fn get_theme_path(theme_dir: &str, site: &AllayObject) -> (r: String)
    requires
        theme_name(site.view()) is Some,
    ensures
        r@ == join(theme_dir@, theme_name(site.view()).unwrap()),
{
    match site.get("theme") {
        Some(AllayData::String(s)) => join_x(theme_dir, s.as_str()),
        _ => join_x(theme_dir, "Axolotl"),
    }
}

/// The command line of the tool.
#[derive(Debug)]
pub struct AllayCLI {
    /// Increase output verbosity (use -vv for more, up to -vvv)
    pub verbose: u8,
    /// The root directory of the site (default: current directory)
    pub root: Option<String>,
    /// Serve the site in online mode, with the base URL of its configuration
    pub online: bool,
    /// The subcommand
    pub command: CLICommand,
}

/// A subcommand of the tool.
#[derive(Debug)]
pub enum CLICommand {
    /// Create a new site in the specified directory
    New(NewArgs),
    /// Initialize a new site in the current directory
    Init(InitArgs),
    /// Build all the contents and publish them to the output directory
    Build(BuildArgs),
    /// Start the embedded server to preview the site
    Serve(ServeArgs),
}

#[derive(Debug)]
pub struct NewArgs {
    /// Directory to create the new site in
    pub dir: String,
    /// Skip cloning the default theme
    pub skip_theme: bool,
}

#[derive(Debug)]
pub struct InitArgs {
    /// Skip cloning the default theme
    pub skip_theme: bool,
}

#[derive(Debug)]
pub struct BuildArgs {}

#[derive(Debug)]
pub struct ServeArgs {
    /// Port to listen on
    pub port: u16,
    /// Address to bind to
    pub address: String,
    /// Use the base URL of the configuration
    pub base_url: bool,
    /// Open the site in the browser
    pub open: bool,
}

/// Configuration of the backend server.
#[derive(Debug, Clone)]
pub struct BackendConfig {
    /// Server port
    pub port: u16,
    /// Server host
    pub host: String,
    /// Path to static files
    pub static_files_path: String,
}

impl Default for BackendConfig {
    fn default() -> (r: BackendConfig)
        ensures
            r.port == 3000,
            r.host@ == "127.0.0.1"@,
            r.static_files_path@ == "./static"@,
    {
        BackendConfig {
            port: 3000,
            host: "127.0.0.1".to_string(),
            static_files_path: "./static".to_string(),
        }
    }
}

} // verus!
