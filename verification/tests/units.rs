use allay::prefix::strip_prefix_x;
use std::path::Path;
use allay::cache::FileCacher;
use allay::config::{get_theme_path, AllayConfig, Environment, TemplateConfig};
use allay::data::{AllayData, AllayObject};
use allay::env::{CompileOutput, Page, PageTree};
use allay::extract::{meta_preprocess, split_front_matter, FrontMatter};
use allay::path::{extension_x, file_name_x, join_x, parent_x, with_extension_x};
use allay::template::TemplateKind;
use allay::url::AllayUrlPath;

fn s(v: Option<Vec<char>>) -> Option<String> {
    v.map(|v| v.into_iter().collect())
}

#[test]
fn url_from_follows_the_documented_examples() {
    assert_eq!(AllayUrlPath::from("blog/index.html", "index.html").as_str(), "blog/");
    assert_eq!(AllayUrlPath::from("about.html", "index.html").as_str(), "about");
    assert_eq!(AllayUrlPath::from("styles/main.css", "index.html").as_str(), "styles/main.css");
    assert_eq!(AllayUrlPath::from("blog/", "index.html"), AllayUrlPath::Index("blog/".to_string()));
}

#[test]
fn url_possible_paths_follow_the_documented_examples() {
    assert_eq!(
        AllayUrlPath::from("blog/", "index.html").possible_paths("index.html"),
        vec!["blog/index.html".to_string()]
    );
    assert_eq!(
        AllayUrlPath::from("about", "index.html").possible_paths("index.html"),
        vec!["about".to_string(), "about.html".to_string()]
    );
    assert_eq!(
        AllayUrlPath::from("styles/main.css", "index.html").possible_paths("index.html"),
        vec!["styles/main.css".to_string(), "styles/main.css.html".to_string()]
    );
}

#[test]
fn url_dirs() {
    assert!(AllayUrlPath::is_dir("a/b/"));
    assert!(!AllayUrlPath::is_dir("a/b"));
    assert_eq!(AllayUrlPath::to_dir("a/b"), "a/b/");
    assert_eq!(AllayUrlPath::to_dir("a/b/"), "a/b/");
}

#[test]
fn template_kinds() {
    assert_eq!(TemplateKind::from_extension("md"), TemplateKind::Markdown);
    assert_eq!(TemplateKind::from_extension("htm"), TemplateKind::Html);
    assert_eq!(TemplateKind::from_extension("html"), TemplateKind::Html);
    assert_eq!(TemplateKind::from_extension("css"), TemplateKind::Other("css".to_string()));
    assert_eq!(TemplateKind::from_filename("a/b.md"), TemplateKind::Markdown);
    assert_eq!(TemplateKind::from_filename("Makefile"), TemplateKind::Other(String::new()));
    assert_eq!(TemplateKind::default(), TemplateKind::Other(String::new()));
    assert_eq!(TemplateKind::Html.extension(), "html");
    assert_eq!(TemplateKind::Other("js".to_string()).extension(), "js");
    assert!(TemplateKind::Markdown.is_template());
    assert!(!TemplateKind::Other("x".to_string()).is_template());
}

#[test]
fn path_helpers() {
    assert_eq!(s(file_name_x("a/b/c.md")), Some("c.md".to_string()));
    assert_eq!(s(extension_x("a/b/c.md")), Some("md".to_string()));
    assert_eq!(s(extension_x("a/b/c")), None);
    assert_eq!(with_extension_x("a/b/c.md", "html"), "a/b/c.html");
    assert_eq!(with_extension_x("a/b/c.md", ""), "a/b/c");
    assert_eq!(parent_x("a/b/c.md"), "a/b");
    assert_eq!(join_x("a/b", "c.md"), "a/b/c.md");
}

#[test]
fn environment_names() {
    assert_eq!(Environment::from_name(Some("dev")), Environment::Development);
    assert_eq!(Environment::from_name(Some("DEVELOPMENT")), Environment::Development);
    assert_eq!(Environment::from_name(Some("staging")), Environment::Production);
    assert_eq!(Environment::from_name(None), Environment::Production);
    assert!(Environment::Development.is_dev());
    assert!(Environment::Production.is_prod());
}

#[test]
fn config_defaults() {
    let c = AllayConfig::default();
    assert_eq!(c.content_dir, "contents");
    assert_eq!(c.publish_dir, "public");
    assert_eq!(c.theme_dir, "themes");
    let t = TemplateConfig::default();
    assert_eq!(t.index, "index.html");
}

#[test]
fn theme_path_from_site_config() {
    let mut site = AllayObject::new();
    assert_eq!(get_theme_path("themes", &site), "themes/Axolotl");
    site.insert("theme".to_string(), AllayData::from("Dark"));
    assert_eq!(get_theme_path("themes", &site), "themes/Dark");
}

#[test]
fn front_matter_yaml_toml_and_none() {
    let (fm, rest) = split_front_matter("---\nname: x\n---\nBody");
    match fm {
        Some(FrontMatter::Yaml(y)) => assert_eq!(y, "name: x"),
        other => panic!("unexpected {:?}", other),
    }
    assert_eq!(rest, "\nBody");

    let (fm, rest) = split_front_matter("+++\nname = 1\n+++\nBody");
    match fm {
        Some(FrontMatter::Toml(t)) => assert_eq!(t, "name = 1"),
        other => panic!("unexpected {:?}", other),
    }
    assert_eq!(rest, "\nBody");

    let (fm, rest) = split_front_matter("Just text");
    assert!(fm.is_none());
    assert_eq!(rest, "Just text");
}

#[test]
fn meta_gets_a_url() {
    let meta = meta_preprocess("/site/contents/blog/post.md", "/site/contents", "index.html", AllayObject::new());
    assert_eq!(meta.get("url").unwrap().as_str().unwrap(), "blog/post");

    let meta = meta_preprocess("/site/contents/blog/index.md", "/site/contents", "index.html", AllayObject::new());
    assert_eq!(meta.get("url").unwrap().as_str().unwrap(), "blog/");

    let meta = meta_preprocess("/elsewhere/x.md", "/site/contents", "index.html", AllayObject::new());
    assert!(meta.get("url").unwrap().is_null());

    let mut given = AllayObject::new();
    given.insert("url".to_string(), AllayData::from("custom"));
    let meta = meta_preprocess("/site/contents/a.md", "/site/contents", "index.html", given);
    assert_eq!(meta.get("url").unwrap().as_str().unwrap(), "custom");
}

#[test]
fn uncachable_page_makes_ancestors_uncachable() {
    let mut tree = PageTree::new();
    let root = tree.add(Page::new("root.html".to_string()), None);
    let mid = tree.add(Page::new("mid.md".to_string()), Some(root));
    let leaf = tree.add(Page::new("leaf.md".to_string()), Some(mid));
    let other = tree.add(Page::new("other.md".to_string()), Some(root));
    tree.set_cachable(leaf, false);
    assert!(!tree.get(leaf).cachable);
    assert!(!tree.get(mid).cachable);
    assert!(!tree.get(root).cachable);
    assert!(tree.get(other).cachable);
    assert!(tree.get(leaf).changed());
}

#[test]
fn clearing_a_page_marks_ancestors_dirty() {
    let mut tree = PageTree::new();
    let mut root_page = Page::new("root.html".to_string());
    root_page.dirty = false;
    root_page.ready = true;
    let root = tree.add(root_page, None);
    let mut leaf_page = Page::new("leaf.md".to_string());
    leaf_page.dirty = false;
    leaf_page.ready = true;
    let leaf = tree.add(leaf_page, Some(root));
    assert!(!tree.get(root).changed());
    tree.clear(leaf);
    assert!(tree.get(leaf).dirty);
    assert!(!tree.get(leaf).ready);
    assert!(tree.get(root).dirty);
    assert!(tree.get(root).ready);
    assert!(tree.get(root).changed());
}

#[test]
fn file_cacher_checks_timestamps() {
    let mut c: FileCacher<u32> = FileCacher::new();
    assert_eq!(c.insert("a.md".to_string(), 1, 10), None);
    assert_eq!(c.get("a.md", 1), Some(&10));
    assert_eq!(c.get("a.md", 2), None);
    assert_eq!(c.insert("a.md".to_string(), 2, 20), Some(10));
    assert_eq!(c.get("a.md", 2), Some(&20));
    assert_eq!(c.get("a.md", 1), None);
    assert_eq!(c.get("b.md", 1), None);
}

#[test]
fn compile_output_starts_empty() {
    let o = CompileOutput::new();
    assert_eq!(o.html, "");
    assert_eq!(o.meta.len(), 0);
}

#[test]
fn strip_prefix_agrees_with_std() {
    let cases = [
        ("content//a.md", "content"),
        ("content/a.md", "content/"),
        ("./contents/blog/a.md", "./contents"),
        ("./contents/blog/a.md", "contents"),
        ("/site/contents/./a//b.md/", "/site/contents"),
        ("/site/contents", "/site/contents"),
        ("/site/contents", "/"),
        ("/a", ""),
        ("a/./b/.", ""),
        ("./", ""),
        ("/", ""),
        ("", ""),
        ("contentsx/a.md", "contents"),
        ("a/b", "a/b/c"),
        ("../a/b", ".."),
        ("a/.//b", "a"),
    ];
    for (p, b) in cases {
        let ours = strip_prefix_x(p, b);
        let std = Path::new(p).strip_prefix(b).ok().map(|r| r.to_string_lossy().to_string());
        assert_eq!(ours, std, "{p} under {b}");
    }
}

#[test]
fn url_of_a_source_goes_by_components() {
    let meta = meta_preprocess("content//a.md", "content", "index.html", AllayObject::new());
    assert_eq!(meta.get("url").unwrap().as_str().unwrap(), "a");
    let meta = meta_preprocess("./contents/blog/post.md", "./contents", "index.html", AllayObject::new());
    assert_eq!(meta.get("url").unwrap().as_str().unwrap(), "blog/post");
}
