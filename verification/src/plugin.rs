//! Updating plugins: which plugins the site configuration asks for, and
//! where each one comes from.

use crate::data::{lemma_entries_view, lookup, AllayData, AllayObject, DataView};
use crate::path::{join, join_x};
use crate::text::{chars_of, string_from_chars};
use vstd::prelude::*;

verus! {

/// Where a plugin comes from, by its configuration.
#[derive(Debug, PartialEq, Eq)]
pub enum PluginAction {
    /// Copied from this path into the plugin directory.
    Copy(String),
    /// Downloaded from this URL into the plugin directory.
    Download(String),
    /// The configuration is not an object.
    NotObject,
    /// The configuration names neither a path nor a URL.
    NoSource,
}

/// A plugin action as plain data.
pub enum ActionV {
    Copy(Seq<char>),
    Download(Seq<char>),
    NotObject,
    NoSource,
}

impl PluginAction {
    pub open spec fn view(&self) -> ActionV {
        match self {
            PluginAction::Copy(p) => ActionV::Copy(p@),
            PluginAction::Download(u) => ActionV::Download(u@),
            PluginAction::NotObject => ActionV::NotObject,
            PluginAction::NoSource => ActionV::NoSource,
        }
    }
}

/// Where the plugin configured by `info` comes from: its `path` when that
/// is a string, else its `url` when that is a string.
pub open spec fn action_of(info: DataView) -> ActionV {
    match info {
        DataView::Obj(o) => match lookup(o, "path"@) {
            Some(DataView::Str(p)) => ActionV::Copy(p),
            _ => match lookup(o, "url"@) {
                Some(DataView::Str(u)) => ActionV::Download(u),
                _ => ActionV::NoSource,
            },
        },
        _ => ActionV::NotObject,
    }
}

/// Where the plugin configured by `info` comes from.
pub fn plugin_action(info: &AllayData) -> (r: PluginAction)
    ensures
        r.view() == action_of(info@),
{
    proof {
        reveal_strlit("path");
        reveal_strlit("url");
    }
    match info {
        AllayData::Object(o) => match o.get("path") {
            Some(AllayData::String(p)) => PluginAction::Copy(p.clone()),
            _ => match o.get("url") {
                Some(AllayData::String(u)) => PluginAction::Download(u.clone()),
                _ => PluginAction::NoSource,
            },
        },
        _ => PluginAction::NotObject,
    }
}

/// Why no plugin can be updated.
#[derive(Debug, PartialEq, Eq)]
pub enum PluginListError {
    /// The site configuration has no `plugins`.
    NoPlugins,
    /// The `plugins` of the site configuration are not an object.
    NotObject,
    /// No plugin of that name is configured.
    NoSuchPlugin(String),
}

/// Why no plugin can be updated, as plain data.
pub enum ListErrV {
    NoPlugins,
    NotObject,
    NoSuchPlugin(Seq<char>),
}

impl PluginListError {
    pub open spec fn view(&self) -> ListErrV {
        match self {
            PluginListError::NoPlugins => ListErrV::NoPlugins,
            PluginListError::NotObject => ListErrV::NotObject,
            PluginListError::NoSuchPlugin(n) => ListErrV::NoSuchPlugin(n@),
        }
    }
}

/// The plugins to update, each with its action: the one named, or all of
/// them in the order of the configuration.
pub open spec fn to_update(site: Seq<(Seq<char>, DataView)>, name: Option<Seq<char>>) -> Result<Seq<(Seq<char>, ActionV)>, ListErrV> {
    match lookup(site, "plugins"@) {
        None => Err(ListErrV::NoPlugins),
        Some(DataView::Obj(m)) => match name {
            Some(n) => match lookup(m, n) {
                Some(info) => Ok(seq![(n, action_of(info))]),
                None => Err(ListErrV::NoSuchPlugin(n)),
            },
            None => Ok(Seq::new(m.len(), |i: int| (m[i].0, action_of(m[i].1)))),
        },
        Some(_) => Err(ListErrV::NotObject),
    }
}

/// The names and actions of a list, as plain data.
pub open spec fn actions_view(s: Seq<(String, PluginAction)>) -> Seq<(Seq<char>, ActionV)> {
    Seq::new(s.len(), |i: int| (s[i].0@, s[i].1.view()))
}

/// The plugins to update for the site configuration `site`: the one named
/// `name`, or every configured one.
pub fn plugins_to_update(site: &AllayObject, name: Option<&str>) -> (r: Result<Vec<(String, PluginAction)>, PluginListError>)
    ensures
        match r {
            Ok(v) => to_update(site.view(), match name { Some(n) => Some(n@), None => None }) == Ok::<Seq<(Seq<char>, ActionV)>, ListErrV>(actions_view(v@)),
            Err(e) => to_update(site.view(), match name { Some(n) => Some(n@), None => None }) == Err::<Seq<(Seq<char>, ActionV)>, ListErrV>(e.view()),
        },
{
    proof {
        reveal_strlit("plugins");
    }
    match site.get("plugins") {
        None => Err(PluginListError::NoPlugins),
        Some(AllayData::Object(m)) => match name {
            Some(n) => match m.get(n) {
                Some(info) => {
                    let v = vec![(n.to_string(), plugin_action(info))];
                    assert(actions_view(v@) =~= seq![(n@, action_of(info@))]);
                    Ok(v)
                },
                None => Err(PluginListError::NoSuchPlugin(n.to_string())),
            },
            None => {
                let ghost mv = m.view();
                proof {
                    lemma_entries_view(m.entries@);
                }
                let mut out: Vec<(String, PluginAction)> = Vec::new();
                let mut i: usize = 0;
                while i < m.entries.len()
                    invariant
                        i <= m.entries@.len(),
                        mv == m.view(),
                        mv.len() == m.entries@.len(),
                        forall|j: int| 0 <= j < m.entries@.len() ==> #[trigger] mv[j] == (m.entries@[j].0@, m.entries@[j].1@),
                        actions_view(out@) == Seq::new(i as nat, |j: int| (mv[j].0, action_of(mv[j].1))),
                    decreases m.entries.len() - i,
                {
                    let ghost before = out@;
                    let e = &m.entries[i];
                    assert(mv[i as int] == (m.entries@[i as int].0@, m.entries@[i as int].1@));
                    let k = e.0.clone();
                    let a = plugin_action(&e.1);
                    out.push((k, a));
                    assert(actions_view(out@) =~= actions_view(before).push((mv[i as int].0, action_of(mv[i as int].1))));
                    assert(actions_view(out@) =~= Seq::new((i + 1) as nat, |j: int| (mv[j].0, action_of(mv[j].1))));
                    i += 1;
                }
                assert(actions_view(out@) =~= Seq::new(mv.len(), |j: int| (mv[j].0, action_of(mv[j].1))));
                Ok(out)
            },
        },
        Some(_) => Err(PluginListError::NotObject),
    }
}

/// The file a downloaded plugin is kept in: `<name>.wasm` in the plugin
/// directory.
pub fn plugin_file(dir: &str, name: &str) -> (r: String)
    ensures
        r@ == join(dir@, name@ + seq!['.', 'w', 'a', 's', 'm']),
{
    let mut v = chars_of(name);
    let ghost n = v@;
    v.push('.');
    v.push('w');
    v.push('a');
    v.push('s');
    v.push('m');
    assert(v@ =~= n + seq!['.', 'w', 'a', 's', 'm']);
    let f = string_from_chars(v.as_slice());
    join_x(dir, f.as_str())
}

/// Why the page list cannot be sorted.
#[derive(Debug, PartialEq, Eq, Structural)]
pub enum SortError {
    /// More than one plugin sorts pages; only one may.
    MultipleSortPlugins,
    /// A plugin sorts pages, and the page data is not a list.
    NotAList,
}

/// How the page list is sorted.
#[derive(Debug, PartialEq, Eq, Structural)]
pub enum SortPlan {
    /// No plugin sorts pages: the list stays as it is.
    Keep,
    /// The plugin of this number sorts the list, by the order it gives.
    SortWith(usize),
}

/// The number of plugins that sort pages.
pub open spec fn count_sorting(enabled: Seq<bool>) -> nat
    decreases enabled.len(),
{
    if enabled.len() == 0 {
        0
    } else {
        count_sorting(enabled.drop_last()) + if enabled.last() {
            1nat
        } else {
            0nat
        }
    }
}

/// Which plugin sorts the page list, given which plugins have sorting
/// enabled: none leaves the list as it is; more than one is an error; the
/// one there is sorts the list, which must be a list. The order itself is
/// asked of that plugin, which runs outside this library.
pub fn sort_plan(enabled: &Vec<bool>, data: &AllayData) -> (r: Result<SortPlan, SortError>)
    ensures
        count_sorting(enabled@) > 1 ==> r == Err::<SortPlan, SortError>(SortError::MultipleSortPlugins),
        count_sorting(enabled@) == 0 ==> r == Ok::<SortPlan, SortError>(SortPlan::Keep),
        count_sorting(enabled@) == 1 && !(data is List) ==> r == Err::<SortPlan, SortError>(SortError::NotAList),
        count_sorting(enabled@) == 1 && data is List ==> (r matches Ok(SortPlan::SortWith(i)) && i < enabled@.len()
            && enabled@[i as int]),
{
    let mut found: Option<usize> = None;
    let mut count: usize = 0;
    let mut i: usize = 0;
    while i < enabled.len()
        invariant
            i <= enabled@.len(),
            count == count_sorting(enabled@.subrange(0, i as int)),
            count <= i,
            count == 0 <==> found is None,
            found matches Some(j) ==> j < i && enabled@[j as int],
        decreases enabled.len() - i,
    {
        assert(enabled@.subrange(0, i + 1).drop_last() =~= enabled@.subrange(0, i as int));
        if enabled[i] {
            count += 1;
            found = Some(i);
        }
        i += 1;
    }
    assert(enabled@.subrange(0, enabled@.len() as int) =~= enabled@);
    if count > 1 {
        return Err(SortError::MultipleSortPlugins);
    }
    match found {
        None => Ok(SortPlan::Keep),
        Some(j) => match data {
            AllayData::List(_) => Ok(SortPlan::SortWith(j)),
            _ => Err(SortError::NotAList),
        },
    }
}

} // verus!
