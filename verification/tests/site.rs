use allay::plugin::{sort_plan, SortError, SortPlan};
use allay::url::publish_file;
use allay::cache::FileCacher;
use allay::data::{AllayData, AllayObject};
use allay::file::{FileContent, SiteRoot};
use allay::plugin::{plugin_action, plugin_file, plugins_to_update, PluginAction, PluginListError};
use allay::sitemap::{SiteMap, UrlEntry};

#[test]
fn file_content_counts_lines_and_bytes() {
    let f = FileContent::from_text("a.txt".to_string(), "Hello World".to_string());
    assert_eq!(f.size, 11);
    assert_eq!(f.line_count, 1);
    let f = FileContent::from_text("b.txt".to_string(), "a\nb\n".to_string());
    assert_eq!(f.line_count, 2);
    let f = FileContent::from_text("c.txt".to_string(), "a\n\nb".to_string());
    assert_eq!(f.line_count, 3);
    let f = FileContent::from_text("d.txt".to_string(), String::new());
    assert_eq!(f.line_count, 0);
    let f = FileContent::from_text("e.txt".to_string(), "é".to_string());
    assert_eq!(f.size, 2);
    for text in ["x\r\ny", "\n", "\n\n", "abc", "a\nb\nc\n\n"] {
        let f = FileContent::from_text("t".to_string(), text.to_string());
        assert_eq!(f.line_count, text.lines().count());
        assert_eq!(f.size, text.len());
    }
}

#[test]
fn root_is_set_once() {
    let mut r = SiteRoot::new();
    r.set_root("site".to_string());
    r.set_root("other".to_string());
    assert_eq!(r.root(), "site");
    assert_eq!(r.workspace("contents"), "site/contents");
}

#[test]
fn root_defaults_to_current_dir_and_stays() {
    let mut r = SiteRoot::new();
    assert_eq!(r.workspace("public"), "./public");
    r.set_root("late".to_string());
    assert_eq!(r.root(), ".");
}

#[test]
fn sitemap_versions_and_entries() {
    let mut m = SiteMap::new();
    assert_eq!(m.version(), 0);
    m.write();
    m.write();
    assert_eq!(m.version(), 2);
    m.urlset.insert("contents/a.md".to_string(), UrlEntry { lastmod: 7, meta: AllayData::from("m") });
    assert_eq!(m.meta_of("contents/a.md").unwrap().as_str().unwrap(), "m");
    assert!(m.meta_of("contents/b.md").is_none());
    assert_eq!(SiteMap::filepath("site/public"), "site/public/sitemap.json");
}

fn obj(entries: Vec<(&str, AllayData)>) -> AllayObject {
    let mut o = AllayObject::new();
    for (k, v) in entries {
        o.insert(k.to_string(), v);
    }
    o
}

#[test]
fn plugin_sources() {
    let p = AllayData::from(obj(vec![("path", AllayData::from("./p")), ("url", AllayData::from("http://u"))]));
    assert_eq!(plugin_action(&p), PluginAction::Copy("./p".to_string()));
    let u = AllayData::from(obj(vec![("url", AllayData::from("http://u"))]));
    assert_eq!(plugin_action(&u), PluginAction::Download("http://u".to_string()));
    let n = AllayData::from(obj(vec![("url", AllayData::from(3))]));
    assert_eq!(plugin_action(&n), PluginAction::NoSource);
    assert_eq!(plugin_action(&AllayData::from(1)), PluginAction::NotObject);
    assert_eq!(plugin_file("site/plugins", "sort"), "site/plugins/sort.wasm");
}

#[test]
fn plugins_to_update_by_name_or_all() {
    let plugins = obj(vec![
        ("a", AllayData::from(obj(vec![("path", AllayData::from("./a"))]))),
        ("b", AllayData::from(2)),
    ]);
    let site = obj(vec![("plugins", AllayData::from(plugins))]);
    let all = plugins_to_update(&site, None).unwrap();
    assert_eq!(
        all,
        vec![("a".to_string(), PluginAction::Copy("./a".to_string())), ("b".to_string(), PluginAction::NotObject)]
    );
    assert_eq!(plugins_to_update(&site, Some("b")).unwrap(), vec![("b".to_string(), PluginAction::NotObject)]);
    assert_eq!(plugins_to_update(&site, Some("c")).unwrap_err(), PluginListError::NoSuchPlugin("c".to_string()));
    assert_eq!(plugins_to_update(&AllayObject::new(), None).unwrap_err(), PluginListError::NoPlugins);
    let bad = obj(vec![("plugins", AllayData::from(1))]);
    assert_eq!(plugins_to_update(&bad, None).unwrap_err(), PluginListError::NotObject);
}

#[test]
fn sort_plugin_choice() {
    let list = AllayData::List(vec![]);
    assert_eq!(sort_plan(&vec![false, false], &list), Ok(SortPlan::Keep));
    assert_eq!(sort_plan(&vec![], &AllayData::from(1)), Ok(SortPlan::Keep));
    assert_eq!(sort_plan(&vec![false, true], &list), Ok(SortPlan::SortWith(1)));
    assert_eq!(sort_plan(&vec![true, true], &list), Err(SortError::MultipleSortPlugins));
    assert_eq!(sort_plan(&vec![true, true], &AllayData::from(1)), Err(SortError::MultipleSortPlugins));
    assert_eq!(sort_plan(&vec![true], &AllayData::from(1)), Err(SortError::NotAList));
}

#[test]
fn publish_files_of_content() {
    assert_eq!(publish_file("blog/post.md", "index.html"), "blog/post.html");
    assert_eq!(publish_file("blog/index.md", "index.html"), "blog/index.html");
    assert_eq!(publish_file("about.html", "index.html"), "about.html");
}

#[test]
fn cache_after_inserts_keeps_the_last() {
    let mut c: FileCacher<&str> = FileCacher::new();
    c.insert("a".to_string(), 1, "one");
    c.insert("b".to_string(), 5, "bee");
    c.insert("a".to_string(), 2, "two");
    assert_eq!(c.get("a", 2), Some(&"two"));
    assert_eq!(c.get("a", 1), None);
    assert_eq!(c.get("b", 5), Some(&"bee"));
    assert_eq!(c.get("c", 0), None);
}
