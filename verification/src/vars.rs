//! The global variables of templates: the site's data, from its
//! configuration and the command line, and the list of pages, from the
//! metadata of the content files.

use crate::config::ServeArgs;
use crate::data::{lookup, put, AllayData, AllayList, AllayObject, DataView};
use crate::text::{chars_of, int_text, int_to_text, string_from_chars};
use vstd::prelude::*;

verus! {

/// Whether the site configuration can give the site data: its `params`,
/// if any, are an object, and in online mode it has a `base_url` that is a
/// string. (Otherwise the tool stops with an error before any page.)
pub open spec fn site_config_ok(site: Seq<(Seq<char>, DataView)>, online: bool) -> bool {
    &&& (lookup(site, "params"@) matches Some(p) ==> p is Obj)
    &&& (online ==> (lookup(site, "base_url"@) matches Some(u) && u is Str))
}

/// The address of a local server: `http://`, the address, `:`, the port
/// and `/`.
pub open spec fn local_url(address: Seq<char>, port: u16) -> Seq<char> {
    seq!['h', 't', 't', 'p', ':', '/', '/'] + address + seq![':'] + int_text(port as int) + seq!['/']
}

/// The base URL of the site: the configured one in online mode, the local
/// server's when serving, else empty.
pub open spec fn base_url(
    site: Seq<(Seq<char>, DataView)>,
    online: bool,
    serve: Option<(Seq<char>, u16)>,
) -> Seq<char> {
    if online {
        match lookup(site, "base_url"@) {
            Some(DataView::Str(u)) => u,
            _ => Seq::empty(),
        }
    } else {
        match serve {
            Some((a, p)) => local_url(a, p),
            None => Seq::empty(),
        }
    }
}

/// The site data: the site's `params` (or nothing) with `base_url` set.
pub open spec fn site_view(
    site: Seq<(Seq<char>, DataView)>,
    online: bool,
    serve: Option<(Seq<char>, u16)>,
) -> Seq<(Seq<char>, DataView)> {
    let params = match lookup(site, "params"@) {
        Some(DataView::Obj(o)) => o,
        _ => Seq::empty(),
    };
    put(params, "base_url"@, DataView::Str(base_url(site, online, serve)))
}

fn local_url_x(address: &str, port: u16) -> (r: String)
    ensures
        r@ == local_url(address@, port),
{
    let mut v: Vec<char> = Vec::new();
    v.push('h');
    v.push('t');
    v.push('t');
    v.push('p');
    v.push(':');
    v.push('/');
    v.push('/');
    let a = chars_of(address);
    let mut i: usize = 0;
    while i < a.len()
        invariant
            i <= a@.len(),
            v@ == seq!['h', 't', 't', 'p', ':', '/', '/'] + a@.subrange(0, i as int),
        decreases a.len() - i,
    {
        v.push(a[i]);
        i += 1;
        assert(v@ =~= seq!['h', 't', 't', 'p', ':', '/', '/'] + a@.subrange(0, i as int));
    }
    assert(a@.subrange(0, a@.len() as int) =~= a@);
    v.push(':');
    let ghost head = v@;
    let d = int_to_text(port as i64);
    let mut j: usize = 0;
    while j < d.len()
        invariant
            j <= d@.len(),
            v@ == head + d@.subrange(0, j as int),
        decreases d.len() - j,
    {
        v.push(d[j]);
        j += 1;
        assert(v@ =~= head + d@.subrange(0, j as int));
    }
    assert(d@.subrange(0, d@.len() as int) =~= d@);
    v.push('/');
    assert(v@ =~= local_url(address@, port));
    string_from_chars(v.as_slice())
}

/// The site data of the `site` variable: the object of the site's
/// `params` (empty when there are none) with `base_url` set to the
/// configured base URL in online mode, to the local server's address when
/// serving, and to the empty string otherwise.
pub fn site_data(site: &AllayObject, online: bool, serve: Option<&ServeArgs>) -> (r: AllayObject)
    requires
        site_config_ok(site.view(), online),
    ensures
        r.view() == site_view(site.view(), online, match serve {
            Some(a) => Some((a.address@, a.port)),
            None => None,
        }),
{
    proof {
        reveal_strlit("params");
        reveal_strlit("base_url");
    }
    let mut params = match site.get("params") {
        Some(AllayData::Object(o)) => o.duplicate(),
        _ => AllayObject::new(),
    };
    let url = if online {
        match site.get("base_url") {
            Some(AllayData::String(u)) => u.clone(),
            _ => String::new(),
        }
    } else {
        match serve {
            Some(a) => local_url_x(a.address.as_str(), a.port),
            None => String::new(),
        }
    };
    params.insert("base_url".to_string(), AllayData::String(url));
    params
}

/// Whether page metadata marks the page hidden from listings.
pub open spec fn is_hidden(meta: Seq<(Seq<char>, DataView)>) -> bool {
    lookup(meta, "hidden"@) == Some(DataView::Bool(true))
}

/// The pages that are listed, each as its metadata object, in order.
pub open spec fn listed(metas: Seq<Seq<(Seq<char>, DataView)>>) -> Seq<DataView>
    decreases metas.len(),
{
    if metas.len() == 0 {
        Seq::empty()
    } else if is_hidden(metas.last()) {
        listed(metas.drop_last())
    } else {
        listed(metas.drop_last()).push(DataView::Obj(metas.last()))
    }
}

/// A hidden page is never listed, and every page that is listed is one of
/// the pages, not hidden.
pub proof fn law_hidden_never_listed(metas: Seq<Seq<(Seq<char>, DataView)>>)
    ensures
        forall|j: int| 0 <= j < listed(metas).len() ==> exists|i: int| 0 <= i < metas.len()
            && #[trigger] listed(metas)[j] == DataView::Obj(metas[i]) && !is_hidden(metas[i]),
        forall|i: int| 0 <= i < metas.len() && !is_hidden(#[trigger] metas[i]) ==> listed(metas).contains(DataView::Obj(metas[i])),
    decreases metas.len(),
{
    if metas.len() > 0 {
        let d = metas.drop_last();
        law_hidden_never_listed(d);
        let l = listed(metas);
        assert forall|j: int| 0 <= j < l.len() implies exists|i: int| 0 <= i < metas.len()
            && #[trigger] l[j] == DataView::Obj(metas[i]) && !is_hidden(metas[i]) by {
            if j < listed(d).len() {
                let i = choose|i: int| 0 <= i < d.len() && #[trigger] listed(d)[j] == DataView::Obj(d[i]) && !is_hidden(d[i]);
                assert(metas[i] == d[i]);
            } else {
                assert(l[j] == DataView::Obj(metas[metas.len() - 1]));
            }
        }
        assert forall|i: int| 0 <= i < metas.len() && !is_hidden(#[trigger] metas[i]) implies l.contains(DataView::Obj(metas[i])) by {
            if i < metas.len() - 1 {
                assert(metas[i] == d[i]);
                assert(listed(d).contains(DataView::Obj(d[i])));
                let k = choose|k: int| 0 <= k < listed(d).len() && listed(d)[k] == DataView::Obj(d[i]);
                assert(l[k] == listed(d)[k]);
            } else {
                assert(l[l.len() - 1] == DataView::Obj(metas[i]));
            }
        }
    }
}

/// The metadata of a list of pages.
pub open spec fn metas_view(s: Seq<AllayObject>) -> Seq<Seq<(Seq<char>, DataView)>> {
    Seq::new(s.len(), |i: int| s[i].view())
}

/// The views of a list of values.
pub open spec fn values_view(s: Seq<AllayData>) -> Seq<DataView> {
    Seq::new(s.len(), |i: int| s[i]@)
}

/// The `pages` variable: the metadata of every page that is not hidden,
/// kept with the version of the site map it was made for.
#[derive(Debug)]
pub struct PagesVar {
    cache_version: u32,
    data: AllayList,
}

impl PagesVar {
    /// The version of the site map the list was made for.
    pub closed spec fn version(&self) -> u32 {
        self.cache_version
    }

    /// The listed pages.
    pub closed spec fn pages(&self) -> Seq<DataView> {
        values_view(self.data@)
    }

    /// No pages yet, made for no version of the site map.
    pub fn new() -> (r: PagesVar)
        ensures
            r.version() == u32::MAX,
            r.pages() == Seq::<DataView>::empty(),
    {
        let r = PagesVar { cache_version: u32::MAX, data: Vec::new() };
        assert(r.pages() =~= Seq::<DataView>::empty());
        r
    }

    /// Whether the list was made for site map version `version`.
    pub fn is_current(&self, version: u32) -> (r: bool)
        ensures
            r == (self.version() == version),
    {
        self.cache_version == version
    }

    /// Brings the list to site map version `version`: unless it is made for
    /// it, it now is, and when the metadata of the content files could be
    /// read (`metas`), the list holds every page that is not hidden, in
    /// order.
    pub fn update(&mut self, version: u32, metas: Option<Vec<AllayObject>>)
        ensures
            old(self).version() == version ==> final(self).version() == old(self).version()
                && final(self).pages() == old(self).pages(),
            old(self).version() != version ==> {
                &&& final(self).version() == version
                &&& final(self).pages() == match metas {
                    Some(m) => listed(metas_view(m@)),
                    None => old(self).pages(),
                }
            },
    {
        if self.cache_version == version {
            return;
        }
        self.cache_version = version;
        if let Some(metas) = metas {
            let ghost mv = metas_view(metas@);
            let mut out: AllayList = Vec::new();
            let mut i: usize = 0;
            proof {
                reveal_strlit("hidden");
            }
            while i < metas.len()
                invariant
                    i <= metas@.len(),
                    mv == metas_view(metas@),
                    values_view(out@) == listed(mv.subrange(0, i as int)),
                decreases metas.len() - i,
            {
                assert(mv.subrange(0, i + 1).drop_last() =~= mv.subrange(0, i as int));
                assert(mv[i as int] == metas@[i as int].view());
                let hidden = match metas[i].get("hidden") {
                    Some(AllayData::Bool(b)) => *b,
                    _ => false,
                };
                if !hidden {
                    let ghost before = out@;
                    out.push(AllayData::Object(metas[i].duplicate()));
                    assert(values_view(out@) =~= values_view(before).push(DataView::Obj(mv[i as int])));
                }
                i += 1;
            }
            assert(mv.subrange(0, mv.len() as int) =~= mv);
            self.data = out;
        }
    }

    /// The listed pages, as a list value.
    pub fn get_data(&self) -> (r: AllayData)
        ensures
            r@ == DataView::List(self.pages()),
    {
        let mut out: AllayList = Vec::new();
        let mut i: usize = 0;
        while i < self.data.len()
            invariant
                i <= self.data@.len(),
                values_view(out@) == values_view(self.data@).subrange(0, i as int),
            decreases self.data.len() - i,
        {
            let ghost before = out@;
            let d = self.data[i].duplicate();
            out.push(d);
            assert(values_view(out@) =~= values_view(before).push(self.data@[i as int]@));
            assert(values_view(self.data@).subrange(0, i + 1) =~= values_view(self.data@).subrange(0, i as int).push(self.data@[i as int]@));
            assert(values_view(out@) =~= values_view(self.data@).subrange(0, i + 1));
            i += 1;
        }
        assert(values_view(self.data@).subrange(0, self.data@.len() as int) =~= values_view(self.data@));
        let r = AllayData::List(out);
        proof {
            crate::data::lemma_list_view(out@);
            assert(crate::data::list_view(out@) =~= values_view(out@));
        }
        r
    }
}

} // verus!
