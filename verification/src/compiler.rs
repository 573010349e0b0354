//! Compiling pages: where subpages are looked for, and how a page's output
//! becomes its HTML.

use crate::data::{lookup, AllayData, AllayObject, DataView};
use crate::env::{lemma_spread_keeps, spread_dirty, PageFlags, PageTree};
use crate::interpreter::strs_view;
use crate::keyed::KeyedMap;
use crate::markdown::{markdown_html, markdown_to_html};
use crate::path::{join, join_x, with_extension, with_extension_x};
use crate::semantics::SubKind;
use crate::text::{chars_of, str_eq, string_from_chars};
use vstd::prelude::*;

verus! {

/// The global interpreter context: the directories where included
/// templates and shortcodes are looked for.
#[derive(Debug)]
pub struct Interpreter {
    pub include_dir: String,
    pub shortcode_dir: String,
}

/// The files that may hold a subpage, in the order they are tried: its name
/// under its directory with extension `md`, then `html`.
pub open spec fn candidates_of(dir: Seq<char>, name: Seq<char>) -> Seq<Seq<char>> {
    seq![
        with_extension(join(dir, name), seq!['m', 'd']),
        with_extension(join(dir, name), seq!['h', 't', 'm', 'l']),
    ]
}

impl Interpreter {
    /// A new interpreter with the given include and shortcode directories.
    pub fn new(include_dir: String, shortcode_dir: String) -> (r: Interpreter)
        ensures
            r.include_dir@ == include_dir@,
            r.shortcode_dir@ == shortcode_dir@,
    {
        Interpreter { include_dir, shortcode_dir }
    }

    /// The files that may hold a subpage: includes are looked for in the
    /// include directory, shortcodes in the shortcode directory.
    pub fn candidates(&self, kind: SubKind, name: &str) -> (r: Vec<String>)
        ensures
            r@.len() == 2,
            r@[0]@ == candidates_of(
                if kind == SubKind::Include {
                    self.include_dir@
                } else {
                    self.shortcode_dir@
                },
                name@,
            )[0],
            r@[1]@ == candidates_of(
                if kind == SubKind::Include {
                    self.include_dir@
                } else {
                    self.shortcode_dir@
                },
                name@,
            )[1],
    {
        proof {
            reveal_strlit("md");
            reveal_strlit("html");
            assert("md"@ =~= seq!['m', 'd']);
            assert("html"@ =~= seq!['h', 't', 'm', 'l']);
        }
        let dir = match kind {
            SubKind::Include => self.include_dir.as_str(),
            SubKind::ShortCode => self.shortcode_dir.as_str(),
        };
        let base = join_x(dir, name);
        vec![with_extension_x(base.as_str(), "md"), with_extension_x(base.as_str(), "html")]
    }
}

/// The parts of a page's output, each after a space.
pub open spec fn joined(parts: Seq<Seq<char>>) -> Seq<char>
    decreases parts.len(),
{
    if parts.len() == 0 {
        Seq::empty()
    } else {
        joined(parts.drop_last()) + seq![' '] + parts.last()
    }
}

/// The HTML of a page: the parts of its output, each after a space,
/// rendered from markdown when the page is markdown.
pub open spec fn page_html(parts: Seq<Seq<char>>, is_md: bool) -> Seq<char> {
    if is_md {
        markdown_html(joined(parts))
    } else {
        joined(parts)
    }
}

/// The HTML of a page from the parts of its output: texts and the HTML of
/// its subpages, in order.
pub fn gen_result_str(parts: &Vec<String>, is_md: bool) -> (r: String)
    ensures
        r@ == page_html(Seq::new(parts@.len(), |i: int| parts@[i]@), is_md),
{
    let ghost ps = Seq::new(parts@.len(), |i: int| parts@[i]@);
    let mut out: Vec<char> = Vec::new();
    let mut i: usize = 0;
    while i < parts.len()
        invariant
            i <= parts@.len(),
            ps == Seq::new(parts@.len(), |i: int| parts@[i]@),
            out@ == joined(ps.subrange(0, i as int)),
        decreases parts.len() - i,
    {
        let ghost before = out@;
        out.push(' ');
        let cs = crate::text::chars_of(parts[i].as_str());
        let mut k: usize = 0;
        while k < cs.len()
            invariant
                k <= cs@.len(),
                out@ == before + seq![' '] + cs@.subrange(0, k as int),
            decreases cs.len() - k,
        {
            out.push(cs[k]);
            k += 1;
            assert(out@ =~= before + seq![' '] + cs@.subrange(0, k as int));
        }
        assert(cs@.subrange(0, cs@.len() as int) =~= cs@);
        assert(ps.subrange(0, i + 1).drop_last() =~= ps.subrange(0, i as int));
        i += 1;
    }
    assert(ps.subrange(0, parts@.len() as int) =~= ps);
    let text = string_from_chars(out.as_slice());
    if is_md {
        markdown_to_html(text.as_str())
    } else {
        text
    }
}

/// The flags after page `id` is cleared for recompiling.
pub open spec fn cleared(f: Seq<PageFlags>, id: int) -> Seq<PageFlags> {
    spread_dirty(f.update(id, PageFlags { ready: false, ..f[id] }), id)
}

/// The flags after each page of `ids` is cleared in turn.
pub open spec fn clear_all(f: Seq<PageFlags>, ids: Seq<usize>) -> Seq<PageFlags>
    decreases ids.len(),
{
    if ids.len() == 0 {
        f
    } else {
        cleared(clear_all(f, ids.drop_last()), ids.last() as int)
    }
}

/// The cached pages of `keys`, in order; keys without a page are skipped.
pub open spec fn cached_pages(keys: Seq<Seq<char>>, cached: Map<Seq<char>, usize>) -> Seq<usize>
    decreases keys.len(),
{
    if keys.len() == 0 {
        Seq::empty()
    } else if cached.contains_key(keys.last()) {
        cached_pages(keys.drop_last(), cached).push(cached[keys.last()])
    } else {
        cached_pages(keys.drop_last(), cached)
    }
}

/// `m` without the entries of `keys`.
pub open spec fn without_keys<V>(m: Map<Seq<char>, V>, keys: Seq<Seq<char>>) -> Map<Seq<char>, V>
    decreases keys.len(),
{
    if keys.len() == 0 {
        m
    } else {
        without_keys(m, keys.drop_last()).remove(keys.last())
    }
}

/// The keys listening to `source`, or none.
pub open spec fn listeners(m: Map<Seq<char>, Seq<Seq<char>>>, source: Seq<char>) -> Seq<Seq<char>> {
    if m.contains_key(source) {
        m[source]
    } else {
        Seq::empty()
    }
}

/// `keys` with `key` added at the end, unless it is there.
pub open spec fn with_key(keys: Seq<Seq<char>>, key: Seq<char>) -> Seq<Seq<char>> {
    if keys.contains(key) {
        keys
    } else {
        keys.push(key)
    }
}

/// Whether a page's output may have changed.
pub open spec fn is_changed(f: PageFlags) -> bool {
    !f.cachable || f.dirty
}

/// The published sources, taken in the order of `sources`, whose page is
/// cached and changed, each with its page.
pub open spec fn to_refresh(
    sources: Seq<Seq<char>>,
    published: Map<Seq<char>, Seq<char>>,
    cached: Map<Seq<char>, usize>,
    f: Seq<PageFlags>,
) -> Seq<(Seq<char>, usize)>
    decreases sources.len(),
{
    if sources.len() == 0 {
        Seq::empty()
    } else {
        let rest = to_refresh(sources.drop_last(), published, cached, f);
        let src = sources.last();
        if published.contains_key(src) && cached.contains_key(published[src])
            && is_changed(f[cached[published[src]] as int]) {
            rest.push((src, cached[published[src]]))
        } else {
            rest
        }
    }
}

/// The sources and pages of a list of pairs, as characters.
pub open spec fn pairs_view(s: Seq<(String, usize)>) -> Seq<(Seq<char>, usize)> {
    Seq::new(s.len(), |i: int| (s[i].0@, s[i].1))
}

fn has_str(v: &Vec<String>, s: &str) -> (r: bool)
    ensures
        r == strs_view(v@).contains(s@),
{
    let mut i: usize = 0;
    while i < v.len()
        invariant
            i <= v@.len(),
            forall|j: int| 0 <= j < i ==> v@[j]@ != s@,
        decreases v.len() - i,
    {
        if str_eq(v[i].as_str(), s) {
            assert(strs_view(v@)[i as int] == s@);
            return true;
        }
        i += 1;
    }
    proof {
        if strs_view(v@).contains(s@) {
            let j = choose|j: int| 0 <= j < strs_view(v@).len() && strs_view(v@)[j] == s@;
            assert(v@[j]@ == s@);
        }
    }
    false
}

/// The bookkeeping of incremental compiling: which compiled pages each
/// source file influences, which page each published source gives, and
/// the compiled pages by key.
pub struct Compiler {
    influenced: KeyedMap<Vec<String>>,
    published: KeyedMap<String>,
    cached: KeyedMap<usize>,
    /// The pages of the compilation.
    pub pages: PageTree,
}

impl Compiler {
    /// Each source mapped to the keys of the pages it influences.
    pub closed spec fn influenced(&self) -> Map<Seq<char>, Seq<Seq<char>>> {
        self.influenced.view().map_values(|v: Vec<String>| strs_view(v@))
    }

    /// Each published source mapped to the key of its page.
    pub closed spec fn published(&self) -> Map<Seq<char>, Seq<char>> {
        self.published.view().map_values(|v: String| v@)
    }

    /// The published sources, each once, in the order they are kept.
    pub closed spec fn sources(&self) -> Seq<Seq<char>> {
        self.published.keys()
    }

    /// The pages of the compilation.
    pub closed spec fn tree(&self) -> PageTree {
        self.pages
    }

    /// Each key mapped to its compiled page.
    pub closed spec fn cached(&self) -> Map<Seq<char>, usize> {
        self.cached.view()
    }

    /// The well-formedness of the bookkeeping: the maps are well formed,
    /// each source's keys occur once, the pages form a tree, and every
    /// cached page is one of them.
    pub closed spec fn wf(&self) -> bool {
        &&& self.influenced.wf()
        &&& self.published.wf()
        &&& self.cached.wf()
        &&& self.pages.wf()
        &&& forall|s: Seq<char>| #[trigger] self.influenced().contains_key(s) ==> self.influenced()[s].no_duplicates()
        &&& forall|k: Seq<char>| #[trigger] self.cached.view().contains_key(k) ==> self.cached.view()[k] < self.pages.len()
    }

    /// The published sources are those of the map, each once.
    pub proof fn lemma_sources(&self)
        requires
            self.wf(),
        ensures
            self.sources().no_duplicates(),
            forall|s: Seq<char>| self.published().contains_key(s) <==> self.sources().contains(s),
    {
        self.published.lemma_keys();
    }

    /// Nothing compiled yet.
    pub fn new() -> (r: Compiler)
        ensures
            r.wf(),
            r.influenced() == Map::<Seq<char>, Seq<Seq<char>>>::empty(),
            r.published() == Map::<Seq<char>, Seq<char>>::empty(),
            r.cached() == Map::<Seq<char>, usize>::empty(),
            r.tree().len() == 0,
    {
        let r = Compiler {
            influenced: KeyedMap::new(),
            published: KeyedMap::new(),
            cached: KeyedMap::new(),
            pages: PageTree::new(),
        };
        assert(r.influenced() =~= Map::<Seq<char>, Seq<Seq<char>>>::empty());
        assert(r.published() =~= Map::<Seq<char>, Seq<char>>::empty());
        r
    }

    /// The compiled page of `key`, if there is one.
    pub fn cache(&self, key: &str) -> (r: Option<usize>)
        requires
            self.wf(),
        ensures
            r == (if self.cached().contains_key(key@) {
                Some(self.cached()[key@])
            } else {
                None
            }),
    {
        match self.cached.get(key) {
            Some(p) => Some(*p),
            None => None,
        }
    }

    /// Remembers `page` as the compiled page of `key`.
    pub fn remember(&mut self, key: String, page: usize)
        requires
            old(self).wf(),
            page < old(self).tree().len(),
        ensures
            final(self).wf(),
            final(self).cached() == old(self).cached().insert(key@, page),
            final(self).influenced() == old(self).influenced(),
            final(self).published() == old(self).published(),
            final(self).sources() == old(self).sources(),
            final(self).tree() == old(self).tree(),
    {
        self.cached.insert(key, page);
        assert(self.influenced() == old(self).influenced());
        assert forall|k: Seq<char>| #[trigger] self.cached.view().contains_key(k) implies self.cached.view()[k] < self.pages.len() by {
            if k != key@ {
                assert(old(self).cached.view().contains_key(k));
            }
        }
    }

    /// Records that the page of `key` depends on `source`, so that a change
    /// of `source` clears it.
    pub fn listen(&mut self, source: String, key: String)
        requires
            old(self).wf(),
        ensures
            final(self).wf(),
            final(self).influenced() == old(self).influenced().insert(
                source@,
                with_key(listeners(old(self).influenced(), source@), key@),
            ),
            final(self).cached() == old(self).cached(),
            final(self).published() == old(self).published(),
            final(self).sources() == old(self).sources(),
            final(self).tree() == old(self).tree(),
    {
        let ghost m0 = self.influenced();
        let mut list = match self.influenced.remove(source.as_str()) {
            Some(l) => l,
            None => Vec::new(),
        };
        assert(strs_view(list@) =~= listeners(m0, source@));
        if !has_str(&list, key.as_str()) {
            let ghost before = list@;
            list.push(key);
            assert(strs_view(list@) =~= strs_view(before).push(key@));
        }
        proof {
            let l = strs_view(list@);
            assert(l == with_key(listeners(m0, source@), key@));
            if !m0.contains_key(source@) {
                assert(listeners(m0, source@).no_duplicates());
            }
        }
        self.influenced.insert(source, list);
        assert(self.influenced() =~= m0.insert(source@, with_key(listeners(m0, source@), key@)));
    }

    /// Publishes `source` as the page of `key`, which listens to it.
    pub fn publish(&mut self, source: String, key: String)
        requires
            old(self).wf(),
        ensures
            final(self).wf(),
            final(self).influenced() == old(self).influenced().insert(
                source@,
                with_key(listeners(old(self).influenced(), source@), key@),
            ),
            final(self).published() == old(self).published().insert(source@, key@),
            final(self).cached() == old(self).cached(),
            final(self).tree() == old(self).tree(),
    {
        self.listen(source.clone(), key.clone());
        let ghost m0 = self.published();
        self.published.insert(source, key);
        assert(self.published() =~= m0.insert(source@, key@));
    }

    /// The published sources whose compiled page has changed, each with its
    /// page, to be compiled again.
    pub fn refresh_pages(&self) -> (r: Vec<(String, usize)>)
        requires
            self.wf(),
        ensures
            pairs_view(r@) == to_refresh(self.sources(), self.published(), self.cached(), self.tree().flags()),
    {
        let mut out: Vec<(String, usize)> = Vec::new();
        let mut i: usize = 0;
        let ghost srcs = self.sources();
        while i < self.published.len()
            invariant
                self.wf(),
                i <= srcs.len(),
                srcs == self.sources(),
                srcs.len() == self.published.keys().len(),
                pairs_view(out@) == to_refresh(srcs.subrange(0, i as int), self.published(), self.cached(), self.pages.flags()),
            decreases srcs.len() - i,
        {
            let src = self.published.key_at(i);
            let ghost before = out@;
            assert(srcs.subrange(0, i + 1).drop_last() =~= srcs.subrange(0, i as int));
            match self.published.get(src.as_str()) {
                Some(key) => {
                    match self.cached.get(key.as_str()) {
                        Some(id) => {
                            let id = *id;
                            let page = self.pages.get(id);
                            if !page.cachable || page.dirty {
                                out.push((src.clone(), id));
                                assert(pairs_view(out@) =~= pairs_view(before).push((src@, id)));
                            }
                        },
                        None => {},
                    }
                },
                None => {},
            }
            i += 1;
        }
        assert(srcs.subrange(0, srcs.len() as int) =~= srcs);
        out
    }

    /// The cached pages that `source` influences, in the order of its keys.
    fn pages_of(&self, source: &str) -> (r: Vec<usize>)
        requires
            self.wf(),
        ensures
            r@ == cached_pages(listeners(self.influenced(), source@), self.cached()),
            forall|j: int| 0 <= j < r@.len() ==> r@[j] < self.pages.len(),
    {
        let ghost deps = listeners(self.influenced(), source@);
        let mut out: Vec<usize> = Vec::new();
        match self.influenced.get(source) {
            Some(list) => {
                let mut i: usize = 0;
                assert(strs_view(list@) == deps);
                while i < list.len()
                    invariant
                        self.wf(),
                        i <= list@.len(),
                        strs_view(list@) == deps,
                        out@ == cached_pages(deps.subrange(0, i as int), self.cached()),
                        forall|j: int| 0 <= j < out@.len() ==> out@[j] < self.pages.len(),
                    decreases list.len() - i,
                {
                    assert(deps.subrange(0, i + 1).drop_last() =~= deps.subrange(0, i as int));
                    assert(deps[i as int] == list@[i as int]@);
                    match self.cached.get(list[i].as_str()) {
                        Some(id) => {
                            out.push(*id);
                        },
                        None => {},
                    }
                    i += 1;
                }
                assert(deps.subrange(0, deps.len() as int) =~= deps);
            },
            None => {},
        }
        out
    }

    /// Clears, for recompiling, every cached page that `source` influences.
    pub fn modify(&mut self, source: &str)
        requires
            old(self).wf(),
        ensures
            final(self).wf(),
            final(self).influenced() == old(self).influenced(),
            final(self).published() == old(self).published(),
            final(self).sources() == old(self).sources(),
            final(self).cached() == old(self).cached(),
            final(self).tree().len() == old(self).tree().len(),
            final(self).tree().flags() == clear_all(
                old(self).tree().flags(),
                cached_pages(listeners(old(self).influenced(), source@), old(self).cached()),
            ),
    {
        let ids = self.pages_of(source);
        let ghost f0 = self.pages.flags();
        let mut i: usize = 0;
        while i < ids.len()
            invariant
                self.pages.wf(),
                self.pages.len() == old(self).pages.len(),
                self.influenced == old(self).influenced,
                self.published == old(self).published,
                self.cached == old(self).cached,
                i <= ids@.len(),
                forall|j: int| 0 <= j < ids@.len() ==> ids@[j] < old(self).pages.len(),
                self.pages.flags() == clear_all(f0, ids@.subrange(0, i as int)),
            decreases ids.len() - i,
        {
            assert(ids@.subrange(0, i + 1).drop_last() =~= ids@.subrange(0, i as int));
            self.pages.clear(ids[i]);
            i += 1;
        }
        assert(ids@.subrange(0, ids@.len() as int) =~= ids@);
        assert(self.influenced() == old(self).influenced());
        assert(self.published() == old(self).published());
        assert forall|k: Seq<char>| #[trigger] self.cached.view().contains_key(k) implies self.cached.view()[k] < self.pages.len() by {
            assert(old(self).cached.view().contains_key(k));
        }
    }

    /// Forgets `source`: when it influences pages, it is no longer
    /// published, and the pages it influences are no longer cached.
    pub fn remove(&mut self, source: &str)
        requires
            old(self).wf(),
        ensures
            final(self).wf(),
            final(self).tree() == old(self).tree(),
            old(self).influenced().contains_key(source@) ==> {
                &&& final(self).influenced() == old(self).influenced().remove(source@)
                &&& final(self).published() == old(self).published().remove(source@)
                &&& final(self).cached() == without_keys(old(self).cached(), old(self).influenced()[source@])
            },
            !old(self).influenced().contains_key(source@) ==> {
                &&& final(self).influenced() == old(self).influenced()
                &&& final(self).published() == old(self).published()
                &&& final(self).cached() == old(self).cached()
            },
    {
        let ghost m0 = self.influenced();
        let ghost p0 = self.published();
        let ghost c0 = self.cached();
        match self.influenced.remove(source) {
            Some(list) => {
                assert(self.influenced() =~= m0.remove(source@));
                let _ = self.published.remove(source);
                assert(self.published() =~= p0.remove(source@));
                let ghost deps = strs_view(list@);
                let ghost inf1 = self.influenced;
                let ghost pub1 = self.published;
                assert forall|s: Seq<char>| #[trigger] self.influenced().contains_key(s) implies self.influenced()[s].no_duplicates() by {
                    assert(m0.contains_key(s));
                }
                let mut i: usize = 0;
                while i < list.len()
                    invariant
                        self.cached.wf(),
                        self.influenced == inf1,
                        self.published == pub1,
                        self.pages == old(self).pages,
                        forall|k: Seq<char>| #[trigger] self.cached.view().contains_key(k) ==> self.cached.view()[k] < self.pages.len(),
                        i <= list@.len(),
                        deps == strs_view(list@),
                        self.cached() == without_keys(c0, deps.subrange(0, i as int)),
                    decreases list.len() - i,
                {
                    assert(deps.subrange(0, i + 1).drop_last() =~= deps.subrange(0, i as int));
                    let _ = self.cached.remove(list[i].as_str());
                    i += 1;
                }
                assert(deps.subrange(0, deps.len() as int) =~= deps);
                proof {
                    lemma_without_keys_sub(c0, deps);
                    assert(self.influenced() == m0.remove(source@));
                    assert forall|s: Seq<char>| #[trigger] self.influenced().contains_key(s) implies self.influenced()[s].no_duplicates() by {
                        assert(m0.contains_key(s));
                    }
                }
            },
            None => {
                assert(self.influenced() =~= m0);
                assert forall|s: Seq<char>| #[trigger] self.influenced().contains_key(s) implies self.influenced()[s].no_duplicates() by {
                    assert(m0.contains_key(s));
                }
            },
        }
    }

    /// The key a source's compiled page is cached under: its path.
    pub fn default_key(path: &str) -> (r: String)
        ensures
            r@ == path@,
    {
        path.to_string()
    }

    /// The key of an article compiled in its wrapper: the two paths joined
    /// by `|`.
    pub fn wrapper_article_key(wrapper: &str, article: &str) -> (r: String)
        ensures
            r@ == wrapper@ + seq!['|'] + article@,
    {
        let mut v = chars_of(wrapper);
        let ghost w = v@;
        v.push('|');
        let a = chars_of(article);
        let mut i: usize = 0;
        while i < a.len()
            invariant
                i <= a@.len(),
                v@ == w + seq!['|'] + a@.subrange(0, i as int),
            decreases a.len() - i,
        {
            v.push(a[i]);
            i += 1;
            assert(v@ =~= w + seq!['|'] + a@.subrange(0, i as int));
        }
        assert(a@.subrange(0, a@.len() as int) =~= a@);
        string_from_chars(v.as_slice())
    }

    /// The wrapper template of an article: the `template` of its metadata
    /// when that is a string, else `default`, under the templates directory.
    pub fn get_article_wrapper(meta: &AllayObject, default: &str, templates_dir: &str) -> (r: String)
        ensures
            r@ == join(templates_dir@, article_template(meta.view(), default@)),
    {
        proof {
            reveal_strlit("template");
        }
        match meta.get("template") {
            Some(AllayData::String(t)) => join_x(templates_dir, t.as_str()),
            _ => join_x(templates_dir, default),
        }
    }

    /// Whether an article is raw: its metadata has `raw` set to true. A raw
    /// article's text is rendered as markdown, not compiled as a template.
    pub fn is_raw(meta: &AllayObject) -> (r: bool)
        ensures
            r == (lookup(meta.view(), "raw"@) == Some(DataView::Bool(true))),
    {
        match meta.get("raw") {
            Some(AllayData::Bool(b)) => *b,
            _ => false,
        }
    }
}

/// Modifying a source leaves every cached page it influences to be
/// interpreted again and dirty, so that it changes; no page's parent, and
/// no page that is not cleared, loses its interpretation.
pub proof fn law_modified_pages_recompile(f: Seq<PageFlags>, ids: Seq<usize>)
    requires
        forall|j: int| 0 <= j < ids.len() ==> ids[j] < f.len(),
    ensures
        clear_all(f, ids).len() == f.len(),
        forall|j: int| 0 <= j < ids.len() ==> !(#[trigger] clear_all(f, ids)[ids[j] as int]).ready
            && clear_all(f, ids)[ids[j] as int].dirty && is_changed(clear_all(f, ids)[ids[j] as int]),
        forall|x: int| 0 <= x < f.len() ==> (#[trigger] clear_all(f, ids)[x]).parent == f[x].parent
            && clear_all(f, ids)[x].cachable == f[x].cachable
            && (f[x].dirty ==> clear_all(f, ids)[x].dirty)
            && (!ids.contains(x as usize) ==> clear_all(f, ids)[x].ready == f[x].ready),
    decreases ids.len(),
{
    if ids.len() > 0 {
        let d = ids.drop_last();
        let id = ids.last() as int;
        law_modified_pages_recompile(f, d);
        let g = clear_all(f, d);
        let h = g.update(id, PageFlags { ready: false, ..g[id] });
        lemma_spread_keeps(h, id);
        assert forall|j: int| 0 <= j < ids.len() implies !(#[trigger] clear_all(f, ids)[ids[j] as int]).ready
            && clear_all(f, ids)[ids[j] as int].dirty by {
            if j < ids.len() - 1 {
                assert(d[j] == ids[j]);
            }
        }
        assert forall|x: int| 0 <= x < f.len() implies (#[trigger] clear_all(f, ids)[x]).parent == f[x].parent
            && clear_all(f, ids)[x].cachable == f[x].cachable
            && (f[x].dirty ==> clear_all(f, ids)[x].dirty)
            && (!ids.contains(x as usize) ==> clear_all(f, ids)[x].ready == f[x].ready) by {
            if !ids.contains(x as usize) {
                assert(x != id);
                if d.contains(x as usize) {
                    let k = choose|k: int| 0 <= k < d.len() && d[k] == x as usize;
                    assert(ids[k] == x as usize);
                }
            }
        }
    }
}

/// Removing a source leaves none of the keys it influenced cached.
pub proof fn law_removed_keys_uncached<V>(m: Map<Seq<char>, V>, keys: Seq<Seq<char>>)
    ensures
        forall|k: Seq<char>| keys.contains(k) ==> !(#[trigger] without_keys(m, keys).contains_key(k)),
        forall|k: Seq<char>| !keys.contains(k) && m.contains_key(k) ==> #[trigger] without_keys(m, keys).contains_key(k)
            && without_keys(m, keys)[k] == m[k],
    decreases keys.len(),
{
    if keys.len() > 0 {
        let d = keys.drop_last();
        law_removed_keys_uncached(m, d);
        assert(without_keys(m, keys) == without_keys(m, d).remove(keys.last()));
        assert forall|k: Seq<char>| keys.contains(k) implies !(#[trigger] without_keys(m, keys).contains_key(k)) by {
            if k != keys.last() {
                let j = choose|j: int| 0 <= j < keys.len() && keys[j] == k;
                assert(d[j] == k);
            }
        }
        assert forall|k: Seq<char>| !keys.contains(k) && m.contains_key(k) implies #[trigger] without_keys(m, keys).contains_key(k)
            && without_keys(m, keys)[k] == m[k] by {
            assert(keys[keys.len() - 1] == keys.last());
            if d.contains(k) {
                let j = choose|j: int| 0 <= j < d.len() && d[j] == k;
                assert(keys[j] == k);
            }
        }
    }
}

/// The template an article names in its metadata, or `default`.
pub open spec fn article_template(meta: Seq<(Seq<char>, DataView)>, default: Seq<char>) -> Seq<char> {
    match lookup(meta, "template"@) {
        Some(DataView::Str(t)) => t,
        _ => default,
    }
}

proof fn lemma_without_keys_sub<V>(m: Map<Seq<char>, V>, keys: Seq<Seq<char>>)
    ensures
        without_keys(m, keys.subrange(0, keys.len() as int)) == without_keys(m, keys),
{
    assert(keys.subrange(0, keys.len() as int) =~= keys);
}

} // verus!
