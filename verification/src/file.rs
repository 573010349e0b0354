//! Files of the site: the root directory every path of the site is taken
//! under, and what is known of a file once it has been read.

use crate::path::{join, join_x};
use vstd::prelude::*;

verus! {

/// Why a file operation failed.
#[derive(Debug)]
pub enum FileError {
    /// The operating system reported an error, given as text.
    Io(String),
    /// There is no file or directory at the path.
    FileNotFound(String),
}

/// The number of lines of a text, as `str::lines` counts them: the number
/// of characters that start a line, that is the first one and each one
/// after a line feed.
pub open spec fn line_count(text: Seq<char>) -> nat
    decreases text.len(),
{
    if text.len() == 0 {
        0
    } else {
        let i = text.len() - 1;
        line_count(text.drop_last()) + if i == 0 || text[i - 1] == '\n' {
            1nat
        } else {
            0nat
        }
    }
}

/// A file that has been read: its path, its text, the size of the text in
/// bytes, and its number of lines.
#[derive(Debug)]
pub struct FileContent {
    pub path: String,
    pub content: String,
    pub size: usize,
    pub line_count: usize,
}

impl FileContent {
    /// What is known of the file at `path` whose text is `content`.
    pub fn from_text(path: String, content: String) -> (r: FileContent)
        ensures
            r.path@ == path@,
            r.content@ == content@,
            r.size == vstd::utf8::encode_utf8(content@).len() as usize,
            r.line_count == line_count(content@),
    {
        let size = content.as_str().len();
        let chars = crate::text::chars_of(content.as_str());
        let mut count: usize = 0;
        let mut i: usize = 0;
        while i < chars.len()
            invariant
                i <= chars@.len(),
                chars@ == content@,
                count == line_count(chars@.subrange(0, i as int)),
                count <= i,
            decreases chars.len() - i,
        {
            let ghost sub = chars@.subrange(0, i + 1);
            assert(sub.drop_last() =~= chars@.subrange(0, i as int));
            if i == 0 || chars[i - 1] == '\n' {
                count += 1;
            }
            i += 1;
        }
        assert(chars@.subrange(0, chars@.len() as int) =~= chars@);
        FileContent { path, content, size, line_count: count }
    }
}

/// The root directory of the site. It is set once: a later setting is
/// ignored, and asking for it before it is set fixes it to `.`.
#[derive(Debug)]
pub struct SiteRoot {
    root: Option<String>,
}

impl SiteRoot {
    /// The root, if it is fixed.
    pub closed spec fn view(&self) -> Option<Seq<char>> {
        match self.root {
            Some(r) => Some(r@),
            None => None,
        }
    }

    /// No root yet.
    pub fn new() -> (r: SiteRoot)
        ensures
            r.view() is None,
    {
        SiteRoot { root: None }
    }

    /// Sets the root, unless it is already fixed.
    pub fn set_root(&mut self, path: String)
        ensures
            final(self).view() == match old(self).view() {
                Some(r) => Some(r),
                None => Some(path@),
            },
    {
        if self.root.is_none() {
            self.root = Some(path);
        }
    }

    /// The root; `.` when it was not set, which fixes it.
    pub fn root(&mut self) -> (r: String)
        ensures
            final(self).view() == Some(r@),
            r@ == match old(self).view() {
                Some(p) => p,
                None => seq!['.'],
            },
    {
        proof {
            reveal_strlit(".");
            assert("."@ =~= seq!['.']);
        }
        match &self.root {
            Some(r) => r.clone(),
            None => {
                self.root = Some(".".to_string());
                ".".to_string()
            },
        }
    }

    /// The path of `path` in the site: under the root.
    pub fn workspace(&mut self, path: &str) -> (r: String)
        ensures
            final(self).view() == Some(match old(self).view() {
                Some(p) => p,
                None => seq!['.'],
            }),
            r@ == join(
                match old(self).view() {
                    Some(p) => p,
                    None => seq!['.'],
                },
                path@,
            ),
    {
        let root = self.root();
        join_x(root.as_str(), path)
    }
}

} // verus!
