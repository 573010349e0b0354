//! The front matter of a source file, and the metadata every page gets.

use crate::data::{lookup, put, AllayData, AllayObject, DataView};
use crate::path::{with_extension, with_extension_x};
use crate::prefix::{strip_prefix, strip_prefix_x};
use crate::text::{chars_of, string_from_chars};
use crate::url::{url_of, url_text, AllayUrlPath};
use vstd::prelude::*;

verus! {

/// Whitespace in the sense of Unicode's `White_Space` property.
pub open spec fn is_space(c: char) -> bool {
    c == '\t' || c == '\n' || c == '\u{0B}' || c == '\u{0C}' || c == '\r' || c == ' ' || c == '\u{85}'
        || c == '\u{A0}' || c == '\u{1680}' || ('\u{2000}' <= c && c <= '\u{200A}') || c == '\u{2028}'
        || c == '\u{2029}' || c == '\u{202F}' || c == '\u{205F}' || c == '\u{3000}'
}

fn is_space_x(c: char) -> (r: bool)
    ensures
        r == is_space(c),
{
    c == '\t' || c == '\n' || c == '\u{0B}' || c == '\u{0C}' || c == '\r' || c == ' ' || c == '\u{85}'
        || c == '\u{A0}' || c == '\u{1680}' || ('\u{2000}' <= c && c <= '\u{200A}') || c == '\u{2028}'
        || c == '\u{2029}' || c == '\u{202F}' || c == '\u{205F}' || c == '\u{3000}'
}

/// The first position at or after `p` that is not whitespace.
pub open spec fn skip_space(s: Seq<char>, p: int) -> int
    decreases s.len() - p,
{
    if 0 <= p < s.len() && is_space(s[p]) {
        skip_space(s, p + 1)
    } else {
        p
    }
}

/// Whether the fence `ddd` stands at `p`.
pub open spec fn fence_at(s: Seq<char>, p: int, d: char) -> bool {
    0 <= p && p + 3 <= s.len() && s[p] == d && s[p + 1] == d && s[p + 2] == d
}

/// The first position at or after `e` from which, past whitespace, the
/// closing fence stands.
pub open spec fn close_from(s: Seq<char>, e: int, d: char) -> Option<int>
    decreases s.len() + 1 - e,
{
    if e < 0 || e > s.len() {
        None
    } else if fence_at(s, skip_space(s, e), d) {
        Some(e)
    } else {
        close_from(s, e + 1, d)
    }
}

/// A fenced block at the start of `s` (the fence is three `d`): where its
/// content starts, where it ends, and the position after the closing fence.
/// The content has no whitespace at either end.
pub open spec fn fenced(s: Seq<char>, d: char) -> Option<(int, int, int)> {
    if fence_at(s, 0, d) {
        let p = skip_space(s, 3);
        match close_from(s, p, d) {
            Some(e) => Some((p, e, skip_space(s, e) + 3)),
            None => None,
        }
    } else {
        None
    }
}

/// The front matter of a source file.
#[derive(Debug)]
pub enum FrontMatter {
    /// Between `---` fences.
    Yaml(String),
    /// Between `+++` fences.
    Toml(String),
}

/// The front matter as characters: `true` for YAML.
pub open spec fn fm_view(f: Option<FrontMatter>) -> Option<(bool, Seq<char>)> {
    match f {
        Some(FrontMatter::Yaml(t)) => Some((true, t@)),
        Some(FrontMatter::Toml(t)) => Some((false, t@)),
        None => None,
    }
}

/// The front matter of `s`, and where its body starts: a YAML block
/// fenced by `---`, or else a TOML block fenced by `+++`, at the very start.
pub open spec fn front_matter(s: Seq<char>) -> (Option<(bool, Seq<char>)>, int) {
    match fenced(s, '-') {
        Some((p, e, after)) => (Some((true, s.subrange(p, e))), after),
        None => match fenced(s, '+') {
            Some((p, e, after)) => (Some((false, s.subrange(p, e))), after),
            None => (None, 0),
        },
    }
}

fn skip_space_x(s: &Vec<char>, p: usize) -> (r: usize)
    requires
        p <= s@.len(),
    ensures
        r == skip_space(s@, p as int),
        p <= r <= s@.len(),
{
    let mut q = p;
    while q < s.len() && is_space_x(s[q])
        invariant
            p <= q <= s@.len(),
            skip_space(s@, p as int) == skip_space(s@, q as int),
        decreases s@.len() - q,
    {
        q += 1;
    }
    q
}

fn fence_at_x(s: &Vec<char>, p: usize, d: char) -> (r: bool)
    requires
        p <= s@.len(),
    ensures
        r == fence_at(s@, p as int, d),
{
    p < s.len() && s.len() - p >= 3 && s[p] == d && s[p + 1] == d && s[p + 2] == d
}

fn fenced_x(s: &Vec<char>, d: char) -> (r: Option<(usize, usize, usize)>)
    ensures
        match r {
            Some((p, e, a)) => fenced(s@, d) == Some((p as int, e as int, a as int)) && p <= e <= a <= s@.len(),
            None => fenced(s@, d) is None,
        },
{
    if !fence_at_x(s, 0, d) {
        return None;
    }
    let p = skip_space_x(s, 3);
    let mut e = p;
    loop
        invariant
            p <= e <= s@.len(),
            p == skip_space(s@, 3),
            fence_at(s@, 0, d),
            close_from(s@, p as int, d) == close_from(s@, e as int, d),
        ensures
            close_from(s@, p as int, d) is None,
        decreases s@.len() + 1 - e,
    {
        let z = skip_space_x(s, e);
        let n = s.len();
        if fence_at_x(s, z, d) {
            assert(z + 3 <= n);
            return Some((p, e, z + 3));
        }
        if e == s.len() {
            assert(close_from(s@, e + 1, d) is None);
            break;
        }
        e += 1;
    }
    None
}

/// Splits the front matter off a source file: the front matter, if any,
/// and the body after it.
pub fn split_front_matter(content: &str) -> (r: (Option<FrontMatter>, String))
    ensures
        fm_view(r.0) == front_matter(content@).0,
        r.1@ == content@.subrange(front_matter(content@).1, content@.len() as int),
{
    let s = chars_of(content);
    match fenced_x(&s, '-') {
        Some((p, e, a)) => {
            let meta = string_from_chars(crate::text::slice_chars(&s, p, e).as_slice());
            let body = string_from_chars(crate::text::slice_chars(&s, a, s.len()).as_slice());
            (Some(FrontMatter::Yaml(meta)), body)
        },
        None => match fenced_x(&s, '+') {
            Some((p, e, a)) => {
                let meta = string_from_chars(crate::text::slice_chars(&s, p, e).as_slice());
                let body = string_from_chars(crate::text::slice_chars(&s, a, s.len()).as_slice());
                (Some(FrontMatter::Toml(meta)), body)
            },
            None => {
                assert(s@.subrange(0, s@.len() as int) =~= s@);
                (None, content.to_string())
            },
        },
    }
}

/// The URL of a source under the content directory: the path below the
/// content directory, taken component by component, with extension
/// `html`, as a standard URL path; null for a source elsewhere.
pub open spec fn source_url(source: Seq<char>, content: Seq<char>, index: Seq<char>) -> DataView {
    match strip_prefix(source, content) {
        Some(rel) => DataView::Str(url_text(url_of(with_extension(rel, seq!['h', 't', 'm', 'l']), index))),
        None => DataView::Null,
    }
}

/// The metadata of a source with its URL: a `url` key is added, unless the
/// metadata has one, for the source's path under the content directory.
pub fn meta_preprocess(source: &str, content_dir: &str, index: &str, meta: AllayObject) -> (r: AllayObject)
    ensures
        lookup(meta.view(), "url"@) is Some ==> r.view() == meta.view(),
        lookup(meta.view(), "url"@) is None ==> r.view() == put(meta.view(), "url"@, source_url(source@, content_dir@, index@)),
{
    let mut meta = meta;
    if meta.get("url").is_some() {
        return meta;
    }
    let url = match strip_prefix_x(source, content_dir) {
        Some(rel) => {
            proof {
                reveal_strlit("html");
                assert("html"@ =~= seq!['h', 't', 'm', 'l']);
            }
            let entry = with_extension_x(rel.as_str(), "html");
            let u = AllayUrlPath::from(entry.as_str(), index);
            AllayData::String(u.as_str().to_string())
        },
        None => AllayData::Null,
    };
    meta.insert("url".to_string(), url);
    meta
}

} // verus!
