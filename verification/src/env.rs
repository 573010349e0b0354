//! The pages of a compilation and their state, kept for incremental
//! compiling: a page that cannot be cached makes its ancestors uncachable,
//! and a page cleared for recompiling marks its ancestors dirty.
//!
//! Pages live in a tree whose nodes are numbered; a page's parent always
//! has a smaller number than the page.

use crate::data::{AllayObject, DataView};
use crate::scope::{PageScope, ScopeV};
use vstd::prelude::*;

verus! {

/// The result of compiling a page: its HTML and the metadata of its source.
#[derive(Debug)]
pub struct CompileOutput {
    pub html: String,
    pub meta: AllayObject,
}

impl CompileOutput {
    pub fn new() -> (r: CompileOutput)
        ensures
            r.html@.len() == 0,
            r.meta.view().len() == 0,
    {
        CompileOutput { html: String::new(), meta: AllayObject::new() }
    }

    /// A deep copy.
    pub fn duplicate(&self) -> (r: CompileOutput)
        ensures
            r.html@ == self.html@,
            r.meta.view() == self.meta.view(),
    {
        CompileOutput { html: self.html.clone(), meta: self.meta.duplicate() }
    }
}

/// What a page writes out: text, or a subpage by its number.
#[derive(Debug)]
pub enum PageToken {
    Text(String),
    Page(usize),
}

/// A page being compiled.
#[derive(Debug)]
pub struct Page {
    /// The parent page, if any.
    pub parent: Option<usize>,
    /// The path of the page's source.
    pub path: String,
    /// The interpretation scope of the page.
    pub scope: PageScope,
    /// Pages stashed under keys, written out where the template names the key.
    pub stash: Vec<(String, usize)>,
    /// What the page writes out.
    pub output: Vec<PageToken>,
    /// Whether the page's output may be cached.
    pub cachable: bool,
    /// Whether the page itself has been interpreted.
    pub ready: bool,
    /// The last result of compiling the page.
    pub cache: CompileOutput,
    /// Whether the page or what it depends on needs recompiling.
    pub dirty: bool,
}

impl Page {
    /// A new top-level page for the source at `path`.
    pub fn new(path: String) -> (r: Page)
        ensures
            r.parent is None,
            r.path@ == path@,
            r.scope.view() == (ScopeV {
                owned: Seq::empty(),
                inherited: None,
                subs: Seq::empty(),
                locals: Seq::empty(),
                param: DataView::Null,
            }),
            r.stash@.len() == 0,
            r.output@.len() == 0,
            r.cachable,
            !r.ready,
            r.dirty,
            r.cache.html@.len() == 0,
            r.cache.meta.view().len() == 0,
    {
        Page {
            parent: None,
            path,
            scope: PageScope::new(),
            stash: Vec::new(),
            output: Vec::new(),
            cachable: true,
            ready: false,
            cache: CompileOutput::new(),
            dirty: true,
        }
    }

    /// The scope of the page.
    pub fn scope(&self) -> (r: &PageScope)
        ensures
            r.view() == self.scope.view(),
    {
        &self.scope
    }

    /// The scope of the page, to change it.
    pub fn scope_mut(&mut self) -> (r: &mut PageScope)
        ensures
            *r == old(self).scope,
            final(self).scope == *final(r),
            final(self).parent == old(self).parent,
            final(self).path == old(self).path,
            final(self).stash == old(self).stash,
            final(self).output == old(self).output,
            final(self).cachable == old(self).cachable,
            final(self).ready == old(self).ready,
            final(self).cache == old(self).cache,
            final(self).dirty == old(self).dirty,
    {
        &mut self.scope
    }

    /// Whether the page's output may have changed and needs recompiling:
    /// it cannot be cached, or it is dirty.
    pub fn changed(&self) -> (r: bool)
        ensures
            r == (!self.cachable || self.dirty),
    {
        !self.cachable || self.dirty
    }

    /// A copy of the page without parent, output or compiled state.
    pub fn clone_detached(&self) -> (r: Page)
        ensures
            r.parent is None,
            r.path@ == self.path@,
            r.scope.view() == self.scope.view(),
            stash_view(r.stash@) == stash_view(self.stash@),
            r.output@.len() == 0,
            r.cachable == self.cachable,
            !r.ready,
            r.dirty,
            r.cache.html@.len() == 0,
            r.cache.meta.view().len() == 0,
    {
        let mut stash: Vec<(String, usize)> = Vec::new();
        let mut i: usize = 0;
        while i < self.stash.len()
            invariant
                i <= self.stash@.len(),
                stash_view(stash@) == stash_view(self.stash@).subrange(0, i as int),
            decreases self.stash.len() - i,
        {
            let k = self.stash[i].0.clone();
            assert(k@ == self.stash@[i as int].0@);
            let ghost before = stash@;
            stash.push((k, self.stash[i].1));
            assert(stash_view(stash@) =~= stash_view(before).push((self.stash@[i as int].0@, self.stash@[i as int].1)));
            i += 1;
            assert(stash_view(stash@) =~= stash_view(self.stash@).subrange(0, i as int));
        }
        assert(stash_view(self.stash@).subrange(0, self.stash@.len() as int) =~= stash_view(self.stash@));
        Page {
            parent: None,
            path: self.path.clone(),
            scope: self.scope.duplicate(),
            stash,
            output: Vec::new(),
            cachable: self.cachable,
            ready: false,
            cache: CompileOutput::new(),
            dirty: true,
        }
    }

    /// Stashes the page numbered `page` under `key`.
    pub fn add_stash(&mut self, key: String, page: usize)
        ensures
            final(self).stash@.len() == old(self).stash@.len() + 1,
            forall|i: int| 0 <= i < old(self).stash@.len() ==> #[trigger] final(self).stash@[i] == old(self).stash@[i],
            final(self).stash@.last().0@ == key@,
            final(self).stash@.last().1 == page,
            final(self).parent == old(self).parent,
            final(self).scope == old(self).scope,
            final(self).output == old(self).output,
            final(self).cachable == old(self).cachable,
            final(self).ready == old(self).ready,
            final(self).dirty == old(self).dirty,
    {
        self.stash.push((key, page));
    }
}

/// The stashed pages, with keys as characters.
pub open spec fn stash_view(s: Seq<(String, usize)>) -> Seq<(Seq<char>, usize)> {
    Seq::new(s.len(), |i: int| (s[i].0@, s[i].1))
}

/// What compiling a page does next.
#[derive(Debug, PartialEq, Eq, Structural)]
pub enum CompileStep {
    /// Read the page's source and interpret it, then mark it interpreted.
    Interpret,
    /// Give back the last result: nothing changed since.
    UseCache,
    /// Render the page's output, compiling its subpages, and keep it.
    Render,
}

/// The state of a page that decides its recompiling.
pub struct PageFlags {
    pub parent: Option<usize>,
    pub cachable: bool,
    pub ready: bool,
    pub dirty: bool,
}

/// The pages of a compilation.
pub struct PageTree {
    pages: Vec<Page>,
}

/// Whether two pages have the same source, scope, stash and last result.
pub open spec fn same_content(p: Page, q: Page) -> bool {
    p.path == q.path && p.scope == q.scope && p.stash == q.stash && p.cache == q.cache
}

/// The flags of each page.
pub open spec fn flags_of(pages: Seq<Page>) -> Seq<PageFlags> {
    Seq::new(pages.len(), |i: int| PageFlags {
        parent: pages[i].parent,
        cachable: pages[i].cachable,
        ready: pages[i].ready,
        dirty: pages[i].dirty,
    })
}

/// Every page's parent comes before it.
pub open spec fn parents_first(f: Seq<PageFlags>) -> bool {
    forall|i: int| 0 <= i < f.len() ==> match (#[trigger] f[i]).parent {
        Some(p) => p < i,
        None => true,
    }
}

/// Whether `a` is `i` or one of its ancestors.
pub open spec fn on_path(f: Seq<PageFlags>, i: int, a: int) -> bool
    decreases i,
{
    if i == a {
        true
    } else if 0 <= i < f.len() {
        match f[i].parent {
            Some(p) => if p < i {
                on_path(f, p as int, a)
            } else {
                false
            },
            None => false,
        }
    } else {
        false
    }
}

/// The flags after page `i` and, up to the first one that already is,
/// its ancestors are made uncachable.
pub open spec fn uncache(f: Seq<PageFlags>, i: int) -> Seq<PageFlags>
    decreases i,
{
    if 0 <= i < f.len() {
        let g = f.update(i, PageFlags { parent: f[i].parent, cachable: false, ready: false, dirty: true });
        match f[i].parent {
            Some(p) => if p < i && g[p as int].cachable {
                uncache(g, p as int)
            } else {
                g
            },
            None => g,
        }
    } else {
        f
    }
}

/// The flags after page `i` and, up to the first one that already is,
/// its ancestors are marked dirty.
pub open spec fn spread_dirty(f: Seq<PageFlags>, i: int) -> Seq<PageFlags>
    decreases i,
{
    if 0 <= i < f.len() {
        let g = f.update(i, PageFlags { dirty: true, ..f[i] });
        match f[i].parent {
            Some(p) => if p < i && !g[p as int].dirty {
                spread_dirty(g, p as int)
            } else {
                g
            },
            None => g,
        }
    } else {
        f
    }
}

impl PageTree {
    pub closed spec fn flags(&self) -> Seq<PageFlags> {
        flags_of(self.pages@)
    }

    /// The well-formedness of the tree: parents come first.
    pub closed spec fn wf(&self) -> bool {
        parents_first(self.flags())
    }

    /// A well-formed tree has every page's parent numbered before it, so the
    /// laws on flags that need this apply to its flags.
    pub proof fn lemma_parents_first(&self)
        requires
            self.wf(),
        ensures
            parents_first(self.flags()),
            self.flags().len() == self.len(),
    {
    }

    /// The number of pages.
    pub closed spec fn len(&self) -> nat {
        self.pages@.len()
    }

    /// An empty tree.
    pub fn new() -> (r: PageTree)
        ensures
            r.wf(),
            r.len() == 0,
    {
        PageTree { pages: Vec::new() }
    }

    /// The number of pages.
    pub fn size(&self) -> (r: usize)
        ensures
            r == self.len(),
    {
        self.pages.len()
    }

    /// The page numbered `id`.
    pub fn get(&self, id: usize) -> (r: &Page)
        requires
            id < self.len(),
        ensures
            *r == self.page(id as int),
            r.output@ == self.output(id as int),
            r.parent == self.flags()[id as int].parent,
            r.cachable == self.flags()[id as int].cachable,
            r.ready == self.flags()[id as int].ready,
            r.dirty == self.flags()[id as int].dirty,
    {
        &self.pages[id]
    }

    /// Adds a page under `parent` (or at the top), giving its number.
    pub fn add(&mut self, page: Page, parent: Option<usize>) -> (r: usize)
        requires
            old(self).wf(),
            parent matches Some(p) ==> p < old(self).len(),
        ensures
            final(self).wf(),
            r == old(self).len(),
            final(self).len() == old(self).len() + 1,
            final(self).flags() == old(self).flags().push(
                PageFlags { parent, cachable: page.cachable, ready: page.ready, dirty: page.dirty },
            ),
            final(self).page(r as int).path == page.path,
            final(self).page(r as int).scope == page.scope,
            final(self).output(r as int) == page.output@,
            forall|j: int| 0 <= j < old(self).len() ==> final(self).output(j) == old(self).output(j),
            final(self).page(r as int).stash == page.stash,
            final(self).page(r as int).cache == page.cache,
            forall|j: int| 0 <= j < old(self).len() ==> same_content(#[trigger] final(self).page(j), old(self).page(j)),
    {
        let mut page = page;
        page.parent = parent;
        let ghost old_pages = self.pages@;
        self.pages.push(page);
        assert(flags_of(self.pages@) =~= flags_of(old_pages).push(
            PageFlags { parent, cachable: page.cachable, ready: page.ready, dirty: page.dirty },
        ));
        self.pages.len() - 1
    }

    /// Sets whether page `id` may be cached. Either way the page is to be
    /// interpreted again and is dirty; a page that may not be cached makes
    /// its ancestors uncachable too.
    pub fn set_cachable(&mut self, id: usize, cachable: bool)
        requires
            old(self).wf(),
            id < old(self).len(),
        ensures
            final(self).wf(),
            final(self).len() == old(self).len(),
            cachable ==> final(self).flags() == old(self).flags().update(
                id as int,
                PageFlags { parent: old(self).flags()[id as int].parent, cachable: true, ready: false, dirty: true },
            ),
            !cachable ==> final(self).flags() == uncache(old(self).flags(), id as int),
            forall|j: int| 0 <= j < old(self).len() ==> same_content(#[trigger] final(self).page(j), old(self).page(j))
                && final(self).output(j) == old(self).output(j),
    {
        if cachable {
            let ghost f0 = self.flags();
            let ghost pg0 = self.pages@;
            let mut p = self.pages.remove(id);
            p.cachable = true;
            p.ready = false;
            p.dirty = true;
            self.pages.insert(id, p);
            assert(self.flags() =~= f0.update(id as int, PageFlags { parent: f0[id as int].parent, cachable: true, ready: false, dirty: true }));
            assert forall|j: int| 0 <= j < pg0.len() implies same_content(self.pages@[j], pg0[j]) && self.pages@[j].output == pg0[j].output by {
                if j != id {
                    assert(self.pages@[j] == pg0[j]);
                }
            }
            return;
        }
        let mut cur = id;
        let ghost target = uncache(self.flags(), id as int);
        loop
            invariant
                self.wf(),
                cur < self.len(),
                self.len() == old(self).len(),
                uncache(self.flags(), cur as int) == target,
                forall|j: int| 0 <= j < old(self).len() ==> same_content(#[trigger] self.page(j), old(self).page(j))
                    && self.output(j) == old(self).output(j),
            ensures
                self.wf(),
                self.flags() == target,
                self.len() == old(self).len(),
                forall|j: int| 0 <= j < old(self).len() ==> same_content(#[trigger] self.page(j), old(self).page(j))
                    && self.output(j) == old(self).output(j),
            decreases cur,
        {
            let ghost f0 = self.flags();
            let ghost pg0 = self.pages@;
            let ghost t0 = *self;
            let mut p = self.pages.remove(cur);
            p.cachable = false;
            p.ready = false;
            p.dirty = true;
            let parent = p.parent;
            self.pages.insert(cur, p);
            let ghost g = f0.update(cur as int, PageFlags { parent: f0[cur as int].parent, cachable: false, ready: false, dirty: true });
            assert(self.flags() =~= g);
            assert forall|j: int| 0 <= j < old(self).len() implies same_content(#[trigger] self.page(j), old(self).page(j))
                && self.output(j) == old(self).output(j) by {
                if j != cur {
                    assert(self.pages@[j] == pg0[j]);
                }
                assert(same_content(t0.page(j), old(self).page(j)) && t0.output(j) == old(self).output(j));
                assert(t0.page(j) == pg0[j]);
            }
            match parent {
                Some(q) => {
                    if q < cur && self.pages[q].cachable {
                        cur = q;
                    } else {
                        break;
                    }
                },
                None => break,
            }
        }
    }

    /// The page numbered `id`.
    pub closed spec fn page(&self, id: int) -> Page {
        self.pages@[id]
    }

    /// What page `id` writes out.
    pub closed spec fn output(&self, id: int) -> Seq<PageToken> {
        self.pages@[id].output@
    }

    /// Writes `text` at the end of page `id`'s output.
    pub fn insert_text(&mut self, id: usize, text: String)
        requires
            old(self).wf(),
            id < old(self).len(),
        ensures
            final(self).wf(),
            final(self).len() == old(self).len(),
            final(self).flags() == old(self).flags(),
            final(self).output(id as int) == old(self).output(id as int).push(PageToken::Text(text)),
            forall|j: int| 0 <= j < old(self).len() && j != id ==> final(self).output(j) == old(self).output(j),
            forall|j: int| 0 <= j < old(self).len() ==> same_content(#[trigger] final(self).page(j), old(self).page(j)),
    {
        let ghost f0 = self.flags();
        let mut p = self.pages.remove(id);
        p.output.push(PageToken::Text(text));
        self.pages.insert(id, p);
        assert(self.flags() =~= f0);
    }

    /// Adds a subpage of page `id` for the source at `path`, compiled in
    /// `scope`, and writes it at the end of page `id`'s output; gives the
    /// subpage's number.
    pub fn insert_subpage(&mut self, id: usize, path: String, scope: PageScope) -> (r: usize)
        requires
            old(self).wf(),
            id < old(self).len(),
        ensures
            final(self).wf(),
            r == old(self).len(),
            final(self).len() == old(self).len() + 1,
            final(self).flags() == old(self).flags().push(
                PageFlags { parent: Some(id), cachable: true, ready: false, dirty: true },
            ),
            final(self).page(r as int).path@ == path@,
            final(self).page(r as int).scope.view() == scope.view(),
            final(self).output(r as int).len() == 0,
            final(self).output(id as int) == old(self).output(id as int).push(PageToken::Page(r)),
            forall|j: int| 0 <= j < old(self).len() && j != id ==> final(self).output(j) == old(self).output(j),
            forall|j: int| 0 <= j < old(self).len() ==> same_content(#[trigger] final(self).page(j), old(self).page(j)),
            final(self).page(r as int).stash@.len() == 0,
    {
        let mut page = Page::new(path);
        page.scope = scope;
        let r = self.add(page, Some(id));
        let ghost mid = self.pages@;
        assert forall|j: int| 0 <= j < old(self).len() implies same_content(mid[j], old(self).page(j)) by {
            assert(self.page(j) == mid[j]);
        }
        let ghost f1 = self.flags();
        let ghost before = self.pages@;
        let mut p = self.pages.remove(id);
        p.output.push(PageToken::Page(r));
        self.pages.insert(id, p);
        assert(self.flags() =~= f1);
        assert(self.pages@[r as int] == before[r as int]);
        assert forall|j: int| 0 <= j < old(self).len() implies same_content(#[trigger] self.page(j), old(self).page(j)) by {
            if j != id {
                assert(self.pages@[j] == before[j]);
            }
            assert(same_content(before[j], old(self).page(j)));
        }
        r
    }

    /// Gives page `id` the scope `scope`.
    pub fn set_scope(&mut self, id: usize, scope: PageScope)
        requires
            old(self).wf(),
            id < old(self).len(),
        ensures
            final(self).wf(),
            final(self).len() == old(self).len(),
            final(self).flags() == old(self).flags(),
            final(self).page(id as int).scope == scope,
            final(self).page(id as int).path == old(self).page(id as int).path,
            forall|j: int| 0 <= j < old(self).len() ==> final(self).output(j) == old(self).output(j),
            final(self).page(id as int).stash == old(self).page(id as int).stash,
            final(self).page(id as int).cache == old(self).page(id as int).cache,
            forall|j: int| 0 <= j < old(self).len() && j != id ==> same_content(#[trigger] final(self).page(j), old(self).page(j)),
    {
        let ghost f0 = self.flags();
        let mut p = self.pages.remove(id);
        p.scope = scope;
        self.pages.insert(id, p);
        assert(self.flags() =~= f0);
    }

    /// The next step of compiling page `id`, once it has been interpreted
    /// in this compiling (`interpreted`) or not: a page that cannot be
    /// cached or was never interpreted is interpreted first; then a page
    /// that is not dirty gives back its last result; else it is rendered.
    pub fn compile_step(&self, id: usize, interpreted: bool) -> (r: CompileStep)
        requires
            id < self.len(),
        ensures
            r == (if !interpreted && (!self.flags()[id as int].cachable || !self.flags()[id as int].ready) {
                CompileStep::Interpret
            } else if !self.flags()[id as int].dirty {
                CompileStep::UseCache
            } else {
                CompileStep::Render
            }),
    {
        if !interpreted && self.needs_interpret(id) {
            CompileStep::Interpret
        } else if !self.pages[id].dirty {
            CompileStep::UseCache
        } else {
            CompileStep::Render
        }
    }

    /// Whether page `id` is to be interpreted before its output is
    /// rendered: it cannot be cached, or it has not been interpreted.
    pub fn needs_interpret(&self, id: usize) -> (r: bool)
        requires
            id < self.len(),
        ensures
            r == (!self.flags()[id as int].cachable || !self.flags()[id as int].ready),
    {
        !self.pages[id].cachable || !self.pages[id].ready
    }

    /// Starts interpreting page `id` again: its output is emptied.
    pub fn reset_output(&mut self, id: usize)
        requires
            old(self).wf(),
            id < old(self).len(),
        ensures
            final(self).wf(),
            final(self).len() == old(self).len(),
            final(self).flags() == old(self).flags(),
            final(self).output(id as int).len() == 0,
            forall|j: int| 0 <= j < old(self).len() && j != id ==> final(self).output(j) == old(self).output(j),
            forall|j: int| 0 <= j < old(self).len() ==> same_content(#[trigger] final(self).page(j), old(self).page(j)),
    {
        let ghost f0 = self.flags();
        let mut p = self.pages.remove(id);
        p.output = Vec::new();
        self.pages.insert(id, p);
        assert(self.flags() =~= f0);
    }

    /// Marks page `id` as interpreted.
    pub fn mark_ready(&mut self, id: usize)
        requires
            old(self).wf(),
            id < old(self).len(),
        ensures
            final(self).wf(),
            final(self).len() == old(self).len(),
            final(self).flags() == old(self).flags().update(id as int, PageFlags { ready: true, ..old(self).flags()[id as int] }),
            forall|j: int| 0 <= j < old(self).len() ==> final(self).output(j) == old(self).output(j),
            forall|j: int| 0 <= j < old(self).len() ==> same_content(#[trigger] final(self).page(j), old(self).page(j)),
    {
        let ghost f0 = self.flags();
        let mut p = self.pages.remove(id);
        p.ready = true;
        self.pages.insert(id, p);
        assert(self.flags() =~= f0.update(id as int, PageFlags { ready: true, ..f0[id as int] }));
    }

    /// The last result of compiling page `id`, when it is still good: the
    /// page is not dirty.
    pub fn cached_output(&self, id: usize) -> (r: Option<&CompileOutput>)
        requires
            id < self.len(),
        ensures
            r is Some <==> !self.flags()[id as int].dirty,
            r matches Some(o) ==> *o == self.page(id as int).cache,
    {
        if self.pages[id].dirty {
            None
        } else {
            Some(&self.pages[id].cache)
        }
    }

    /// Keeps `out` as the result of compiling page `id`, which is then no
    /// longer dirty.
    pub fn store_output(&mut self, id: usize, out: CompileOutput)
        requires
            old(self).wf(),
            id < old(self).len(),
        ensures
            final(self).wf(),
            final(self).len() == old(self).len(),
            final(self).flags() == old(self).flags().update(id as int, PageFlags { dirty: false, ..old(self).flags()[id as int] }),
            final(self).page(id as int).cache == out,
            forall|j: int| 0 <= j < old(self).len() ==> final(self).output(j) == old(self).output(j),
            final(self).page(id as int).path == old(self).page(id as int).path,
            final(self).page(id as int).scope == old(self).page(id as int).scope,
            final(self).page(id as int).stash == old(self).page(id as int).stash,
            forall|j: int| 0 <= j < old(self).len() && j != id ==> same_content(#[trigger] final(self).page(j), old(self).page(j)),
    {
        let ghost f0 = self.flags();
        let mut p = self.pages.remove(id);
        p.dirty = false;
        p.cache = out;
        self.pages.insert(id, p);
        assert(self.flags() =~= f0.update(id as int, PageFlags { dirty: false, ..f0[id as int] }));
    }

    /// Clears page `id` for recompiling: it is to be interpreted again, and
    /// it and, up to the first one that already is, its ancestors are dirty.
    pub fn clear(&mut self, id: usize)
        requires
            old(self).wf(),
            id < old(self).len(),
        ensures
            final(self).wf(),
            final(self).len() == old(self).len(),
            final(self).flags() == spread_dirty(
                old(self).flags().update(id as int, PageFlags { ready: false, ..old(self).flags()[id as int] }),
                id as int,
            ),
            forall|j: int| 0 <= j < old(self).len() ==> same_content(#[trigger] final(self).page(j), old(self).page(j)),
            forall|j: int| 0 <= j < old(self).len() && (j == id || (!old(self).flags()[j].dirty && final(self).flags()[j].dirty))
                ==> (#[trigger] final(self).output(j)).len() == 0,
            forall|j: int| 0 <= j < old(self).len() && !(j == id || (!old(self).flags()[j].dirty && final(self).flags()[j].dirty))
                ==> #[trigger] final(self).output(j) == old(self).output(j),
    {
        let ghost f0 = self.flags();
        let ghost pg0 = self.pages@;
        let mut p = self.pages.remove(id);
        p.ready = false;
        p.output = Vec::new();
        self.pages.insert(id, p);
        assert forall|j: int| 0 <= j < pg0.len() && j != id implies self.pages@[j] == pg0[j] by {}
        assert(self.flags() =~= f0.update(id as int, PageFlags { ready: false, ..f0[id as int] }));
        let mut cur = id;
        let ghost target = spread_dirty(self.flags(), id as int);
        loop
            invariant
                self.wf(),
                cur < self.len(),
                self.len() == old(self).len(),
                spread_dirty(self.flags(), cur as int) == target,
                cur == id || !f0[cur as int].dirty,
                f0.len() == old(self).len(),
                self.flags().len() == self.len(),
                forall|j: int| 0 <= j < f0.len() ==> (#[trigger] f0[j]).dirty ==> self.flags()[j].dirty,
                forall|j: int| 0 <= j < old(self).len() ==> same_content(#[trigger] self.page(j), old(self).page(j)),
                forall|j: int| 0 <= j < old(self).len() && (j == id || (!f0[j].dirty && self.flags()[j].dirty))
                    ==> (#[trigger] self.output(j)).len() == 0,
                forall|j: int| 0 <= j < old(self).len() && !(j == id || (!f0[j].dirty && self.flags()[j].dirty))
                    ==> #[trigger] self.output(j) == old(self).output(j),
            ensures
                self.wf(),
                self.flags() == target,
                self.len() == old(self).len(),
                forall|j: int| 0 <= j < old(self).len() ==> same_content(#[trigger] self.page(j), old(self).page(j)),
                forall|j: int| 0 <= j < old(self).len() && (j == id || (!f0[j].dirty && self.flags()[j].dirty))
                    ==> (#[trigger] self.output(j)).len() == 0,
                forall|j: int| 0 <= j < old(self).len() && !(j == id || (!f0[j].dirty && self.flags()[j].dirty))
                    ==> #[trigger] self.output(j) == old(self).output(j),
            decreases cur,
        {
            let ghost f1 = self.flags();
            let ghost pg1 = self.pages@;
            let ghost t1 = *self;
            assert(f1.len() == f0.len());
            let mut p = self.pages.remove(cur);
            p.dirty = true;
            p.output = Vec::new();
            let parent = p.parent;
            self.pages.insert(cur, p);
            assert(self.flags() =~= f1.update(cur as int, PageFlags { dirty: true, ..f1[cur as int] }));
            assert forall|j: int| 0 <= j < pg1.len() && j != cur implies self.pages@[j] == pg1[j] by {}
            assert forall|j: int| 0 <= j < old(self).len() implies same_content(#[trigger] self.page(j), old(self).page(j)) by {
                assert(same_content(t1.page(j), old(self).page(j)));
                assert(t1.page(j) == pg1[j]);
            }
            assert forall|j: int| 0 <= j < old(self).len() implies
                ((j == id || (!f0[j].dirty && self.flags()[j].dirty)) ==> (#[trigger] self.output(j)).len() == 0)
                && (!(j == id || (!f0[j].dirty && self.flags()[j].dirty)) ==> self.output(j) == old(self).output(j)) by {
                if j != cur {
                    assert(self.output(j) == t1.output(j));
                    assert(self.flags()[j] == f1[j]);
                    assert(t1.flags()[j] == f1[j]);
                } else {
                    assert(self.output(j).len() == 0);
                }
            }
            assert forall|j: int| 0 <= j < f0.len() implies ((#[trigger] f0[j]).dirty ==> self.flags()[j].dirty) by {
                assert(f0[j].dirty ==> f1[j].dirty);
                assert(self.flags()[j].dirty == (j == cur || f1[j].dirty));
            }
            match parent {
                Some(q) => {
                    if q < cur && !self.pages[q].dirty {
                        assert(!self.flags()[q as int].dirty);
                        assert(!f0[q as int].dirty);
                        cur = q;
                    } else {
                        break;
                    }
                },
                None => break,
            }
        }
    }
}


/// An uncachable page has an uncachable parent, except possibly a parent `c`.
pub open spec fn uncachable_closed_but(f: Seq<PageFlags>, c: int) -> bool {
    forall|x: int|
        0 <= x < f.len() && (#[trigger] f[x]).parent is Some && !f[x].cachable ==> !f[f[x].parent->Some_0 as int].cachable
            || f[x].parent->Some_0 == c
}

/// An uncachable page has an uncachable parent.
pub open spec fn uncachable_closed(f: Seq<PageFlags>) -> bool {
    uncachable_closed_but(f, -1)
}

/// A dirty page has a dirty parent, except possibly a parent `c`.
pub open spec fn dirty_closed_but(f: Seq<PageFlags>, c: int) -> bool {
    forall|x: int|
        0 <= x < f.len() && (#[trigger] f[x]).parent is Some && f[x].dirty ==> f[f[x].parent->Some_0 as int].dirty
            || f[x].parent->Some_0 == c
}

/// A dirty page has a dirty parent.
pub open spec fn dirty_closed(f: Seq<PageFlags>) -> bool {
    dirty_closed_but(f, -1)
}

/// Whether two flag sequences agree on the parents.
pub open spec fn same_parents(f: Seq<PageFlags>, g: Seq<PageFlags>) -> bool {
    f.len() == g.len() && forall|x: int| 0 <= x < f.len() ==> (#[trigger] f[x]).parent == g[x].parent
}

proof fn lemma_uncache_frame(f: Seq<PageFlags>, i: int)
    requires
        parents_first(f),
    ensures
        same_parents(f, uncache(f, i)),
        parents_first(uncache(f, i)),
        forall|x: int| i < x < f.len() ==> #[trigger] uncache(f, i)[x] == f[x],
        0 <= i < f.len() ==> !uncache(f, i)[i].cachable,
    decreases i,
{
    if 0 <= i < f.len() {
        let g = f.update(i, PageFlags { parent: f[i].parent, cachable: false, ready: false, dirty: true });
        assert(parents_first(g)) by {
            assert forall|x: int| 0 <= x < g.len() implies match (#[trigger] g[x]).parent {
                Some(p) => p < x,
                None => true,
            } by {
                assert(g[x].parent == f[x].parent);
            }
        }
        assert(same_parents(f, g));
        match f[i].parent {
            Some(p) => if p < i && g[p as int].cachable {
                lemma_uncache_frame(g, p as int);
                let h = uncache(g, p as int);
                assert(h == uncache(f, i));
                assert forall|x: int| 0 <= x < f.len() implies (#[trigger] f[x]).parent == h[x].parent by {
                    assert(g[x].parent == h[x].parent);
                }
            },
            None => {},
        }
    }
}

proof fn lemma_uncachable_ancestors(f: Seq<PageFlags>, i: int)
    requires
        parents_first(f),
        uncachable_closed(f),
        0 <= i < f.len(),
        !f[i].cachable,
    ensures
        forall|a: int| #[trigger] on_path(f, i, a) ==> 0 <= a < f.len() && !f[a].cachable,
    decreases i,
{
    match f[i].parent {
        Some(p) => {
            assert(p < i);
            assert(!f[p as int].cachable);
            lemma_uncachable_ancestors(f, p as int);
            assert forall|a: int| #[trigger] on_path(f, i, a) implies 0 <= a < f.len() && !f[a].cachable by {
                if a != i {
                    assert(on_path(f, p as int, a));
                }
            }
        },
        None => {
            assert forall|a: int| #[trigger] on_path(f, i, a) implies 0 <= a < f.len() && !f[a].cachable by {
                assert(a == i);
            }
        },
    }
}

proof fn lemma_uncache(f: Seq<PageFlags>, i: int)
    requires
        parents_first(f),
        uncachable_closed_but(f, i),
        0 <= i < f.len(),
    ensures
        uncachable_closed(uncache(f, i)),
        forall|a: int| #[trigger] on_path(f, i, a) ==> 0 <= a < f.len() && !uncache(f, i)[a].cachable,
    decreases i,
{
    let g = f.update(i, PageFlags { parent: f[i].parent, cachable: false, ready: false, dirty: true });
    assert(same_parents(f, g));
    assert(parents_first(g)) by {
        assert forall|x: int| 0 <= x < g.len() implies match (#[trigger] g[x]).parent {
            Some(p) => p < x,
            None => true,
        } by {
            assert(g[x].parent == f[x].parent);
        }
    }
    lemma_uncache_frame(f, i);
    match f[i].parent {
        Some(p) => {
            if p < i && g[p as int].cachable {
                assert(uncachable_closed_but(g, p as int)) by {
                    assert forall|x: int|
                        0 <= x < g.len() && (#[trigger] g[x]).parent is Some && !g[x].cachable implies !g[g[x].parent->Some_0 as int].cachable
                            || g[x].parent->Some_0 == p by {
                        if x != i {
                            assert(f[x] == g[x]);
                            if f[x].parent->Some_0 != i {
                                assert(g[g[x].parent->Some_0 as int] == f[f[x].parent->Some_0 as int]);
                            }
                        }
                    }
                }
                lemma_uncache(g, p as int);
                lemma_uncache_frame(g, p as int);
                assert forall|a: int| #[trigger] on_path(f, i, a) implies 0 <= a < f.len() && !uncache(f, i)[a].cachable by {
                    if a != i {
                        assert(on_path(f, p as int, a));
                        lemma_on_path_same_parents(f, g, p as int, a);
                    }
                }
            } else {
                assert(uncachable_closed(g)) by {
                    assert forall|x: int|
                        0 <= x < g.len() && (#[trigger] g[x]).parent is Some && !g[x].cachable implies !g[g[x].parent->Some_0 as int].cachable
                            || g[x].parent->Some_0 == -1 by {
                        if x != i {
                            assert(f[x] == g[x]);
                            if f[x].parent->Some_0 != i {
                                assert(g[g[x].parent->Some_0 as int] == f[f[x].parent->Some_0 as int]);
                            }
                        }
                    }
                }
                if p < i {
                    lemma_uncachable_ancestors(g, p as int);
                    assert forall|a: int| #[trigger] on_path(f, i, a) implies 0 <= a < f.len() && !uncache(f, i)[a].cachable by {
                        if a != i {
                            assert(on_path(f, p as int, a));
                            lemma_on_path_same_parents(f, g, p as int, a);
                        }
                    }
                }
            }
        },
        None => {
            assert(uncachable_closed(g)) by {
                assert forall|x: int|
                    0 <= x < g.len() && (#[trigger] g[x]).parent is Some && !g[x].cachable implies !g[g[x].parent->Some_0 as int].cachable
                        || g[x].parent->Some_0 == -1 by {
                    if x != i {
                        assert(f[x] == g[x]);
                        if f[x].parent->Some_0 != i {
                            assert(g[g[x].parent->Some_0 as int] == f[f[x].parent->Some_0 as int]);
                        }
                    }
                }
            }
        },
    }
}

proof fn lemma_on_path_same_parents(f: Seq<PageFlags>, g: Seq<PageFlags>, i: int, a: int)
    requires
        same_parents(f, g),
    ensures
        on_path(f, i, a) == on_path(g, i, a),
    decreases i,
{
    if i != a && 0 <= i < f.len() {
        match f[i].parent {
            Some(p) => if p < i {
                lemma_on_path_same_parents(f, g, p as int, a);
            },
            None => {},
        }
    }
}

proof fn lemma_uncache_marks(f: Seq<PageFlags>, i: int)
    requires
        parents_first(f),
    ensures
        uncache(f, i).len() == f.len(),
        0 <= i < f.len() ==> !uncache(f, i)[i].ready && uncache(f, i)[i].dirty,
        forall|x: int| 0 <= x < f.len() && f[x].cachable && !(#[trigger] uncache(f, i)[x]).cachable
            ==> !uncache(f, i)[x].ready && uncache(f, i)[x].dirty,
    decreases i,
{
    if 0 <= i < f.len() {
        let g = f.update(i, PageFlags { parent: f[i].parent, cachable: false, ready: false, dirty: true });
        assert(parents_first(g)) by {
            assert forall|x: int| 0 <= x < g.len() implies match (#[trigger] g[x]).parent {
                Some(p) => p < x,
                None => true,
            } by {
                assert(g[x].parent == f[x].parent);
            }
        }
        match f[i].parent {
            Some(p) => {
                if p < i && g[p as int].cachable {
                    lemma_uncache_marks(g, p as int);
                    lemma_uncache_frame(g, p as int);
                    assert(uncache(g, p as int)[i] == g[i]);
                    assert forall|x: int| 0 <= x < f.len() && f[x].cachable && !(#[trigger] uncache(f, i)[x]).cachable
                        implies !uncache(f, i)[x].ready && uncache(f, i)[x].dirty by {
                        if x != i {
                            assert(g[x] == f[x]);
                        }
                    }
                }
            },
            None => {},
        }
    }
}

/// A page that cannot be cached makes all its ancestors uncachable: when
/// every uncachable page has an uncachable parent, making page `i`
/// uncachable leaves it and all its ancestors uncachable, keeps that rule,
/// and changes no parent.
pub proof fn law_uncachable_spreads_up(f: Seq<PageFlags>, i: int)
    requires
        parents_first(f),
        uncachable_closed(f),
        0 <= i < f.len(),
    ensures
        uncachable_closed(uncache(f, i)),
        same_parents(f, uncache(f, i)),
        forall|a: int| #[trigger] on_path(f, i, a) ==> 0 <= a < f.len() && !uncache(f, i)[a].cachable,
        !uncache(f, i)[i].ready && uncache(f, i)[i].dirty,
        forall|a: int| #[trigger] on_path(f, i, a) && f[a].cachable ==> !uncache(f, i)[a].ready && uncache(f, i)[a].dirty,
{
    lemma_uncache_marks(f, i);
    assert(uncachable_closed_but(f, i)) by {
        assert forall|x: int|
            0 <= x < f.len() && (#[trigger] f[x]).parent is Some && !f[x].cachable implies !f[f[x].parent->Some_0 as int].cachable
                || f[x].parent->Some_0 == i by {
            assert(!f[f[x].parent->Some_0 as int].cachable || f[x].parent->Some_0 == -1);
        }
    }
    lemma_uncache(f, i);
    lemma_uncache_frame(f, i);
}

proof fn lemma_spread_frame(f: Seq<PageFlags>, i: int)
    requires
        parents_first(f),
    ensures
        same_parents(f, spread_dirty(f, i)),
        parents_first(spread_dirty(f, i)),
        forall|x: int| i < x < f.len() ==> #[trigger] spread_dirty(f, i)[x] == f[x],
        0 <= i < f.len() ==> spread_dirty(f, i)[i].dirty,
    decreases i,
{
    if 0 <= i < f.len() {
        let g = f.update(i, PageFlags { dirty: true, ..f[i] });
        assert(parents_first(g)) by {
            assert forall|x: int| 0 <= x < g.len() implies match (#[trigger] g[x]).parent {
                Some(p) => p < x,
                None => true,
            } by {
                assert(g[x].parent == f[x].parent);
            }
        }
        assert(same_parents(f, g));
        match f[i].parent {
            Some(p) => if p < i && !g[p as int].dirty {
                lemma_spread_frame(g, p as int);
                let h = spread_dirty(g, p as int);
                assert(h == spread_dirty(f, i));
                assert forall|x: int| 0 <= x < f.len() implies (#[trigger] f[x]).parent == h[x].parent by {
                    assert(g[x].parent == h[x].parent);
                }
            },
            None => {},
        }
    }
}

proof fn lemma_dirty_ancestors(f: Seq<PageFlags>, i: int)
    requires
        parents_first(f),
        dirty_closed(f),
        0 <= i < f.len(),
        f[i].dirty,
    ensures
        forall|a: int| #[trigger] on_path(f, i, a) ==> 0 <= a < f.len() && f[a].dirty,
    decreases i,
{
    match f[i].parent {
        Some(p) => {
            assert(p < i);
            assert(f[p as int].dirty);
            lemma_dirty_ancestors(f, p as int);
            assert forall|a: int| #[trigger] on_path(f, i, a) implies 0 <= a < f.len() && f[a].dirty by {
                if a != i {
                    assert(on_path(f, p as int, a));
                }
            }
        },
        None => {
            assert forall|a: int| #[trigger] on_path(f, i, a) implies 0 <= a < f.len() && f[a].dirty by {
                assert(a == i);
            }
        },
    }
}

proof fn lemma_spread(f: Seq<PageFlags>, i: int)
    requires
        parents_first(f),
        dirty_closed_but(f, i),
        0 <= i < f.len(),
    ensures
        dirty_closed(spread_dirty(f, i)),
        forall|a: int| #[trigger] on_path(f, i, a) ==> 0 <= a < f.len() && spread_dirty(f, i)[a].dirty,
    decreases i,
{
    let g = f.update(i, PageFlags { dirty: true, ..f[i] });
    assert(same_parents(f, g));
    assert(parents_first(g)) by {
        assert forall|x: int| 0 <= x < g.len() implies match (#[trigger] g[x]).parent {
            Some(p) => p < x,
            None => true,
        } by {
            assert(g[x].parent == f[x].parent);
        }
    }
    lemma_spread_frame(f, i);
    match f[i].parent {
        Some(p) => {
            if p < i && !g[p as int].dirty {
                assert(dirty_closed_but(g, p as int)) by {
                    assert forall|x: int|
                        0 <= x < g.len() && (#[trigger] g[x]).parent is Some && g[x].dirty implies g[g[x].parent->Some_0 as int].dirty
                            || g[x].parent->Some_0 == p by {
                        if x != i {
                            assert(f[x] == g[x]);
                            if f[x].parent->Some_0 != i {
                                assert(g[g[x].parent->Some_0 as int] == f[f[x].parent->Some_0 as int]);
                            }
                        }
                    }
                }
                lemma_spread(g, p as int);
                lemma_spread_frame(g, p as int);
                assert forall|a: int| #[trigger] on_path(f, i, a) implies 0 <= a < f.len() && spread_dirty(f, i)[a].dirty by {
                    if a != i {
                        assert(on_path(f, p as int, a));
                        lemma_on_path_same_parents(f, g, p as int, a);
                    }
                }
            } else {
                assert(dirty_closed(g)) by {
                    assert forall|x: int|
                        0 <= x < g.len() && (#[trigger] g[x]).parent is Some && g[x].dirty implies g[g[x].parent->Some_0 as int].dirty
                            || g[x].parent->Some_0 == -1 by {
                        if x != i {
                            assert(f[x] == g[x]);
                            if f[x].parent->Some_0 != i {
                                assert(g[g[x].parent->Some_0 as int] == f[f[x].parent->Some_0 as int]);
                            }
                        }
                    }
                }
                if p < i {
                    lemma_dirty_ancestors(g, p as int);
                    assert forall|a: int| #[trigger] on_path(f, i, a) implies 0 <= a < f.len() && spread_dirty(f, i)[a].dirty by {
                        if a != i {
                            assert(on_path(f, p as int, a));
                            lemma_on_path_same_parents(f, g, p as int, a);
                        }
                    }
                }
            }
        },
        None => {
            assert(dirty_closed(g)) by {
                assert forall|x: int|
                    0 <= x < g.len() && (#[trigger] g[x]).parent is Some && g[x].dirty implies g[g[x].parent->Some_0 as int].dirty
                        || g[x].parent->Some_0 == -1 by {
                    if x != i {
                        assert(f[x] == g[x]);
                        if f[x].parent->Some_0 != i {
                            assert(g[g[x].parent->Some_0 as int] == f[f[x].parent->Some_0 as int]);
                        }
                    }
                }
            }
        },
    }
}


/// Marking dirty changes no page's parent, interpretation state or length,
/// keeps dirty pages dirty, and leaves page `i` dirty.
pub proof fn lemma_spread_keeps(f: Seq<PageFlags>, i: int)
    ensures
        spread_dirty(f, i).len() == f.len(),
        forall|x: int| 0 <= x < f.len() ==> (#[trigger] spread_dirty(f, i)[x]).ready == f[x].ready
            && spread_dirty(f, i)[x].parent == f[x].parent
            && spread_dirty(f, i)[x].cachable == f[x].cachable
            && (f[x].dirty ==> spread_dirty(f, i)[x].dirty),
        0 <= i < f.len() ==> spread_dirty(f, i)[i].dirty,
    decreases i,
{
    if 0 <= i < f.len() {
        let g = f.update(i, PageFlags { dirty: true, ..f[i] });
        match f[i].parent {
            Some(p) => {
                if p < i && !g[p as int].dirty {
                    lemma_spread_keeps(g, p as int);
                }
            },
            None => {},
        }
    }
}

/// Clearing a page marks its ancestors for recompiling: when every dirty
/// page has a dirty parent, marking page `i` dirty leaves it and all its
/// ancestors dirty, keeps that rule, and changes no parent.
pub proof fn law_dirty_spreads_up(f: Seq<PageFlags>, i: int)
    requires
        parents_first(f),
        dirty_closed(f),
        0 <= i < f.len(),
    ensures
        dirty_closed(spread_dirty(f, i)),
        same_parents(f, spread_dirty(f, i)),
        forall|a: int| #[trigger] on_path(f, i, a) ==> 0 <= a < f.len() && spread_dirty(f, i)[a].dirty,
{
    assert(dirty_closed_but(f, i)) by {
        assert forall|x: int|
            0 <= x < f.len() && (#[trigger] f[x]).parent is Some && f[x].dirty implies f[f[x].parent->Some_0 as int].dirty
                || f[x].parent->Some_0 == i by {
            assert(f[f[x].parent->Some_0 as int].dirty || f[x].parent->Some_0 == -1);
        }
    }
    lemma_spread(f, i);
    lemma_spread_frame(f, i);
}

} // verus!
