//! Standard URL paths of a site.

use crate::path::{extension, extension_x, file_name, file_name_x, join, join_x, parent, parent_x, with_extension, with_extension_x};
use crate::template::{kind_of_ext, KindV, TemplateKind};
use crate::text::{chars_of, str_eq, string_from_chars};
use vstd::prelude::*;

verus! {

/// A standardized URL path. The path is normalized to handle common cases
/// such as directory paths and HTML files.
#[derive(Debug, PartialEq, Eq)]
pub enum AllayUrlPath {
    /// a directory path ending with '/'
    Index(String),
    /// an HTML file without extension
    Html(String),
    /// other file types
    Other(String),
}

/// A URL path, as characters.
pub enum UrlV {
    Index(Seq<char>),
    Html(Seq<char>),
    Other(Seq<char>),
}

impl AllayUrlPath {
    pub open spec fn view(&self) -> UrlV {
        match self {
            AllayUrlPath::Index(p) => UrlV::Index(p@),
            AllayUrlPath::Html(p) => UrlV::Html(p@),
            AllayUrlPath::Other(p) => UrlV::Other(p@),
        }
    }
}

/// Whether a path names a directory: it ends with `/`.
pub open spec fn is_dir_path(p: Seq<char>) -> bool {
    p.len() > 0 && p.last() == '/'
}

/// The path as a directory: with a `/` at its end.
pub open spec fn dir_path(p: Seq<char>) -> Seq<char> {
    if is_dir_path(p) {
        p
    } else {
        p + seq!['/']
    }
}

/// The standard URL path of a path, given the name of index pages.
pub open spec fn url_of(p: Seq<char>, index: Seq<char>) -> UrlV {
    if is_dir_path(p) {
        UrlV::Index(p)
    } else if extension(p) is Some && kind_of_ext(extension(p).unwrap()) is Html {
        if file_name(p) == Some(index) {
            UrlV::Index(dir_path(parent(p)))
        } else {
            UrlV::Html(with_extension(p, Seq::empty()))
        }
    } else {
        UrlV::Other(p)
    }
}

/// The path of a URL.
pub open spec fn url_text(u: UrlV) -> Seq<char> {
    match u {
        UrlV::Index(p) => p,
        UrlV::Html(p) => p,
        UrlV::Other(p) => p,
    }
}

/// The files that may serve a URL path.
pub open spec fn possible_paths_of(u: UrlV, index: Seq<char>) -> Seq<Seq<char>> {
    match u {
        UrlV::Index(p) => seq![join(p, index)],
        UrlV::Html(p) => seq![p, with_extension(p, seq!['h', 't', 'm', 'l'])],
        UrlV::Other(p) => seq![p, p + seq!['.', 'h', 't', 'm', 'l']],
    }
}

impl AllayUrlPath {
    /// The standard URL path of `path`:
    ///
    /// 1. A directory path, ending with `/`, stays as it is.
    /// 2. An HTML file named `index` becomes the directory path of its parent.
    /// 3. Another HTML file loses its extension.
    /// 4. Any other path stays as it is.
    pub fn from(path: &str, index: &str) -> (r: AllayUrlPath)
        ensures
            r.view() == url_of(path@, index@),
    {
        if Self::is_dir(path) {
            return AllayUrlPath::Index(path.to_string());
        }
        let is_html = match extension_x(path) {
            Some(e) => {
                let e = string_from_chars(e.as_slice());
                TemplateKind::from_extension(e.as_str()).is_html()
            },
            None => false,
        };
        if is_html {
            let same = match file_name_x(path) {
                Some(n) => {
                    let n = string_from_chars(n.as_slice());
                    str_eq(n.as_str(), index)
                },
                None => false,
            };
            if same {
                let p = parent_x(path);
                AllayUrlPath::Index(Self::to_dir(p.as_str()))
            } else {
                proof {
                    reveal_strlit("");
                    assert(""@ =~= Seq::<char>::empty());
                }
                AllayUrlPath::Html(with_extension_x(path, ""))
            }
        } else {
            AllayUrlPath::Other(path.to_string())
        }
    }

    /// The files that may serve this URL path: for a directory, its index
    /// page; for an HTML path, the path and the path with extension `html`;
    /// for another path, the path and the path with `.html` added.
    pub fn possible_paths(&self, index: &str) -> (r: Vec<String>)
        ensures
            r@.len() == possible_paths_of(self.view(), index@).len(),
            forall|i: int| 0 <= i < r@.len() ==> #[trigger] r@[i]@ == possible_paths_of(self.view(), index@)[i],
    {
        proof {
            reveal_strlit("html");
            reveal_strlit(".html");
            assert("html"@ =~= seq!['h', 't', 'm', 'l']);
            assert(".html"@ =~= seq!['.', 'h', 't', 'm', 'l']);
        }
        match self {
            AllayUrlPath::Index(p) => vec![join_x(p.as_str(), index)],
            AllayUrlPath::Html(p) => vec![p.clone(), with_extension_x(p.as_str(), "html")],
            AllayUrlPath::Other(p) => {
                let mut v = chars_of(p.as_str());
                let ghost head = v@;
                v.push('.');
                v.push('h');
                v.push('t');
                v.push('m');
                v.push('l');
                assert(v@ =~= head + seq!['.', 'h', 't', 'm', 'l']);
                vec![p.clone(), string_from_chars(v.as_slice())]
            },
        }
    }

    /// The path of the URL.
    pub fn as_str(&self) -> (r: &str)
        ensures
            r@ == url_text(self.view()),
    {
        match self {
            AllayUrlPath::Index(p) => p.as_str(),
            AllayUrlPath::Html(p) => p.as_str(),
            AllayUrlPath::Other(p) => p.as_str(),
        }
    }

    /// Whether a path names a directory: it ends with `/`.
    pub fn is_dir(path: &str) -> (r: bool)
        ensures
            r == is_dir_path(path@),
    {
        let v = chars_of(path);
        v.len() > 0 && v[v.len() - 1] == '/'
    }

    /// The path as a directory: with a `/` at its end.
    pub fn to_dir(path: &str) -> (r: String)
        ensures
            r@ == dir_path(path@),
    {
        let mut v = chars_of(path);
        if !(v.len() > 0 && v[v.len() - 1] == '/') {
            v.push('/');
        }
        string_from_chars(v.as_slice())
    }
}

/// The file a content file's page is published to: the content file with
/// extension `html` taken as a URL path, served from its index page for a
/// directory, from the path with extension `html` for an HTML page, and
/// from the path itself otherwise.
pub open spec fn publish_path(rel: Seq<char>, index: Seq<char>) -> Seq<char> {
    let u = url_of(with_extension(rel, seq!['h', 't', 'm', 'l']), index);
    match u {
        UrlV::Html(_) => possible_paths_of(u, index)[1],
        _ => possible_paths_of(u, index)[0],
    }
}

/// The file the page of the content file `rel` is published to.
pub fn publish_file(rel: &str, index: &str) -> (r: String)
    ensures
        r@ == publish_path(rel@, index@),
{
    proof {
        reveal_strlit("html");
        assert("html"@ =~= seq!['h', 't', 'm', 'l']);
    }
    let html = with_extension_x(rel, "html");
    let url = AllayUrlPath::from(html.as_str(), index);
    let paths = url.possible_paths(index);
    match url {
        AllayUrlPath::Html(_) => paths[1].clone(),
        _ => paths[0].clone(),
    }
}

} // verus!
