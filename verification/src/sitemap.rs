//! The site map: every published page with the time it was last changed
//! and its metadata, and a version that each writing bumps, by which the
//! page list knows it is out of date.

use crate::data::AllayData;
use crate::keyed::KeyedMap;
use crate::path::{join, join_x};
use vstd::prelude::*;

verus! {

/// A page of the site map: when it was last changed, and its metadata.
#[derive(Debug)]
pub struct UrlEntry {
    pub lastmod: u64,
    pub meta: AllayData,
}

/// The pages of the site, by source path, and the version of the map.
#[derive(Debug)]
pub struct SiteMap {
    pub version: u32,
    pub urlset: KeyedMap<UrlEntry>,
}

impl SiteMap {
    /// An empty map at version 0.
    pub fn new() -> (r: SiteMap)
        ensures
            r.version == 0,
            r.urlset.wf(),
            r.urlset.view() == Map::<Seq<char>, UrlEntry>::empty(),
    {
        SiteMap { version: 0, urlset: KeyedMap::new() }
    }

    /// The version.
    pub fn version(&self) -> (r: u32)
        ensures
            r == self.version,
    {
        self.version
    }

    /// Opens the map for writing, which bumps its version.
    pub fn write(&mut self)
        requires
            old(self).version < u32::MAX,
        ensures
            final(self).version == old(self).version + 1,
            final(self).urlset == old(self).urlset,
    {
        self.version = self.version + 1;
    }

    /// The metadata recorded for the page of source `path`, if any.
    pub fn meta_of(&self, path: &str) -> (r: Option<&AllayData>)
        requires
            self.urlset.wf(),
        ensures
            r is Some <==> self.urlset.view().contains_key(path@),
            r matches Some(m) ==> *m == self.urlset.view()[path@].meta,
    {
        match self.urlset.get(path) {
            Some(e) => Some(&e.meta),
            None => None,
        }
    }

    /// Where the map is kept: `sitemap.json` in the publish directory.
    pub fn filepath(publish_dir: &str) -> (r: String)
        ensures
            r@ == join(publish_dir@, "sitemap.json"@),
    {
        join_x(publish_dir, "sitemap.json")
    }
}

} // verus!
