use allay::env::CompileStep;
use allay::compiler::{Compiler, Interpreter};
use allay::config::ServeArgs;
use allay::data::{AllayData, AllayObject};
use allay::env::{CompileOutput, Page};
use allay::semantics::SubKind;
use allay::vars::{site_data, PagesVar};

fn setup() -> (Compiler, usize, usize) {
    let mut c = Compiler::new();
    let wrapper = c.pages.add(Page::new("theme/page.html".to_string()), None);
    let article = c.pages.add(Page::new("contents/a.md".to_string()), Some(wrapper));
    let key = Compiler::wrapper_article_key("theme/page.html", "contents/a.md");
    c.publish("contents/a.md".to_string(), key.clone());
    c.listen("theme/page.html".to_string(), key.clone());
    c.remember(key, wrapper);
    c.remember(Compiler::default_key("contents/a.md"), article);
    c.listen("contents/a.md".to_string(), "contents/a.md".to_string());
    (c, wrapper, article)
}

#[test]
fn keys_of_articles() {
    assert_eq!(Compiler::default_key("a/b.md"), "a/b.md");
    assert_eq!(Compiler::wrapper_article_key("w.html", "a.md"), "w.html|a.md");
}

#[test]
fn cached_pages_are_found() {
    let (c, wrapper, article) = setup();
    assert_eq!(c.cache("theme/page.html|contents/a.md"), Some(wrapper));
    assert_eq!(c.cache("contents/a.md"), Some(article));
    assert_eq!(c.cache("nothing"), None);
}

#[test]
fn new_pages_need_refreshing() {
    let (c, wrapper, _) = setup();
    assert_eq!(c.refresh_pages(), vec![("contents/a.md".to_string(), wrapper)]);
}

#[test]
fn modify_clears_influenced_pages() {
    let (mut c, wrapper, article) = setup();
    for id in [wrapper, article] {
        c.pages.mark_ready(id);
        c.pages.store_output(id, CompileOutput::new());
    }
    assert!(c.refresh_pages().is_empty());
    c.modify("contents/a.md");
    assert!(c.pages.get(article).dirty);
    assert!(!c.pages.get(article).ready);
    assert!(!c.pages.get(wrapper).ready);
    assert_eq!(c.refresh_pages(), vec![("contents/a.md".to_string(), wrapper)]);
}

#[test]
fn modifying_the_wrapper_clears_the_article_page() {
    let (mut c, wrapper, article) = setup();
    for id in [wrapper, article] {
        c.pages.mark_ready(id);
        c.pages.store_output(id, CompileOutput::new());
    }
    c.modify("theme/page.html");
    assert!(c.pages.get(wrapper).dirty);
    assert!(!c.pages.get(wrapper).ready);
    assert!(c.pages.get(article).ready);
    assert!(!c.pages.get(article).dirty);
}

#[test]
fn remove_forgets_the_source() {
    let (mut c, _, _) = setup();
    c.remove("contents/a.md");
    assert_eq!(c.cache("theme/page.html|contents/a.md"), None);
    assert_eq!(c.cache("contents/a.md"), None);
    assert!(c.refresh_pages().is_empty());
    // removing an unknown source changes nothing
    c.remove("nothing.md");
    assert!(c.refresh_pages().is_empty());
}

#[test]
fn compile_steps_of_a_page() {
    let mut c = Compiler::new();
    let id = c.pages.add(Page::new("a.md".to_string()), None);
    assert!(c.pages.needs_interpret(id));
    assert!(c.pages.cached_output(id).is_none());
    c.pages.insert_text(id, "hello".to_string());
    let sub = c.pages.insert_subpage(id, "b.md".to_string(), allay::scope::PageScope::new());
    assert_eq!(c.pages.get(id).output.len(), 2);
    assert_eq!(c.pages.get(sub).parent, Some(id));
    c.pages.mark_ready(id);
    assert!(!c.pages.needs_interpret(id));
    let mut out = CompileOutput::new();
    out.html = "<p>hello</p>".to_string();
    c.pages.store_output(id, out);
    assert_eq!(c.pages.cached_output(id).unwrap().html, "<p>hello</p>");
    c.pages.reset_output(id);
    assert_eq!(c.pages.get(id).output.len(), 0);
}

#[test]
fn article_wrappers_and_raw_articles() {
    let mut meta = AllayObject::new();
    assert_eq!(Compiler::get_article_wrapper(&meta, "page.html", "themes/t/templates"), "themes/t/templates/page.html");
    meta.insert("template".to_string(), AllayData::from("post.html"));
    assert_eq!(Compiler::get_article_wrapper(&meta, "page.html", "themes/t/templates"), "themes/t/templates/post.html");
    assert!(!Compiler::is_raw(&meta));
    meta.insert("raw".to_string(), AllayData::from(true));
    assert!(Compiler::is_raw(&meta));
    meta.insert("raw".to_string(), AllayData::from("yes"));
    assert!(!Compiler::is_raw(&meta));
}

#[test]
fn subpages_are_looked_for_by_kind() {
    let i = Interpreter::new("inc".to_string(), "sc".to_string());
    assert_eq!(i.candidates(SubKind::Include, "header"), vec!["inc/header.md".to_string(), "inc/header.html".to_string()]);
    assert_eq!(i.candidates(SubKind::ShortCode, "note"), vec!["sc/note.md".to_string(), "sc/note.html".to_string()]);
}

#[test]
fn site_data_by_mode() {
    let mut site = AllayObject::new();
    let mut params = AllayObject::new();
    params.insert("title".to_string(), AllayData::from("Blog"));
    site.insert("params".to_string(), AllayData::from(params));
    site.insert("base_url".to_string(), AllayData::from("https://x.org/"));

    let d = site_data(&site, true, None);
    assert_eq!(d.get("base_url").unwrap().as_str().unwrap(), "https://x.org/");
    assert_eq!(d.get("title").unwrap().as_str().unwrap(), "Blog");

    let serve = ServeArgs { port: 8080, address: "127.0.0.1".to_string(), base_url: false, open: false };
    let d = site_data(&site, false, Some(&serve));
    assert_eq!(d.get("base_url").unwrap().as_str().unwrap(), "http://127.0.0.1:8080/");

    let d = site_data(&site, false, None);
    assert_eq!(d.get("base_url").unwrap().as_str().unwrap(), "");

    let empty = AllayObject::new();
    let d = site_data(&empty, false, None);
    assert_eq!(d.len(), 1);
    assert_eq!(d.get("base_url").unwrap().as_str().unwrap(), "");
}

#[test]
fn hidden_pages_are_not_listed() {
    let mut pages = PagesVar::new();
    assert!(!pages.is_current(1));
    let mut a = AllayObject::new();
    a.insert("title".to_string(), AllayData::from("A"));
    let mut b = AllayObject::new();
    b.insert("hidden".to_string(), AllayData::from(true));
    let mut c = AllayObject::new();
    c.insert("hidden".to_string(), AllayData::from(false));
    pages.update(1, Some(vec![a, b, c]));
    assert!(pages.is_current(1));
    let data = pages.get_data();
    let list = data.as_list().unwrap();
    assert_eq!(list.len(), 2);
    assert_eq!(list[0].as_obj().unwrap().get("title").unwrap().as_str().unwrap(), "A");
    // the same version is not read again
    pages.update(1, Some(vec![]));
    assert_eq!(pages.get_data().as_list().unwrap().len(), 2);
    // a new version whose files cannot be read keeps the list
    pages.update(2, None);
    assert!(pages.is_current(2));
    assert_eq!(pages.get_data().as_list().unwrap().len(), 2);
}

#[test]
fn clearing_empties_the_outputs_it_marks() {
    let mut c = Compiler::new();
    let root = c.pages.add(Page::new("r.html".to_string()), None);
    let leaf = c.pages.insert_subpage(root, "l.md".to_string(), allay::scope::PageScope::new());
    c.pages.insert_text(root, "x".to_string());
    c.pages.insert_text(leaf, "y".to_string());
    for id in [root, leaf] {
        c.pages.mark_ready(id);
        c.pages.store_output(id, CompileOutput::new());
    }
    c.pages.clear(leaf);
    assert_eq!(c.pages.get(leaf).output.len(), 0);
    assert_eq!(c.pages.get(root).output.len(), 0);
    assert_eq!(c.pages.get(root).path, "r.html");
    assert!(c.pages.get(root).dirty && c.pages.get(root).ready);
}

#[test]
fn compile_steps_in_order() {
    let mut c = Compiler::new();
    let id = c.pages.add(Page::new("a.md".to_string()), None);
    assert_eq!(c.pages.compile_step(id, false), CompileStep::Interpret);
    c.pages.mark_ready(id);
    assert_eq!(c.pages.compile_step(id, true), CompileStep::Render);
    c.pages.store_output(id, CompileOutput::new());
    assert_eq!(c.pages.compile_step(id, false), CompileStep::UseCache);
    c.pages.set_cachable(id, false);
    assert_eq!(c.pages.compile_step(id, false), CompileStep::Interpret);
    assert_eq!(c.pages.compile_step(id, true), CompileStep::Render);
}
