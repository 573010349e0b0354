use allay::ast::GetField;
use allay::data::{AllayData, AllayObject};
use allay::scope::{LocalScope, LocalVar, PageScope};

// inherited: {"author": "Alice", "date": "2023-10-01"}
fn parent() -> AllayObject {
    let mut obj = AllayObject::new();
    obj.insert("author".to_string(), AllayData::from("Alice"));
    obj.insert("date".to_string(), AllayData::from("2023-10-01"));
    obj
}

fn gen_page_scope() -> PageScope {
    // params: ["param1", 42]
    let params = vec![AllayData::from("param1"), AllayData::from(42)];
    let mut page = PageScope::new_from(parent(), params);
    // owned: {"title": "My Page", "tags": ["test", "markdown"]}
    page.add_key("title".to_string(), AllayData::from("My Page"));
    page.add_key(
        "tags".to_string(),
        AllayData::from(vec![AllayData::from("test"), AllayData::from("markdown")]),
    );
    page
}

#[test]
fn test_vars() {
    let scope = gen_page_scope();

    // get_data
    let data = scope.this_data();
    assert!(data.is_obj());

    // get_field
    let title = scope.this_field(&vec![GetField::Name("title".into())]).unwrap();
    assert_eq!(title.as_str().unwrap(), "My Page");

    let author = scope.this_field(&vec![GetField::Name("author".into())]).unwrap();
    assert_eq!(author.as_str().unwrap(), "Alice");

    let tag0 = scope
        .this_field(&vec![GetField::Name("tags".into()), GetField::Index(0)])
        .unwrap();
    assert_eq!(tag0.as_str().unwrap(), "test");
}

#[test]
fn test_local_scope() {
    let scope = gen_page_scope();
    let local = LocalScope::new(LocalVar::create(
        scope.this_field(&vec![GetField::Name("tags".into())]).unwrap(),
    ));
    assert_eq!(local.this_data().as_list().unwrap().len(), 2);
}

#[test]
fn own_key_wins_over_inherited() {
    let mut scope = gen_page_scope();
    scope.add_key("author".to_string(), AllayData::from("Bob"));
    let author = scope.this_field(&vec![GetField::Name("author".into())]).unwrap();
    assert_eq!(author.as_str().unwrap(), "Bob");
    let date = scope.this_field(&vec![GetField::Name("date".into())]).unwrap();
    assert_eq!(date.as_str().unwrap(), "2023-10-01");
}

#[test]
fn params_are_a_list() {
    let scope = gen_page_scope();
    let params = scope.get_param().get_data();
    let list = params.as_list().unwrap();
    assert_eq!(list.len(), 2);
    assert_eq!(list[0].as_str().unwrap(), "param1");
    assert_eq!(list[1].as_int().unwrap(), 42);
}

#[test]
fn missing_field_is_null_and_bad_index_fails() {
    let scope = gen_page_scope();
    assert!(scope.this_field(&vec![GetField::Name("nothing".into())]).unwrap().is_null());
    assert!(scope
        .this_field(&vec![GetField::Name("tags".into()), GetField::Index(5)])
        .is_err());
    assert!(scope
        .this_field(&vec![GetField::Name("title".into()), GetField::Index(0)])
        .is_err());
}

#[test]
fn sub_scope_shadows_this_and_holds_locals() {
    let mut scope = gen_page_scope();
    scope.create_sub_scope(LocalVar::create(AllayData::from(7)));
    assert_eq!(scope.this_data().as_int().unwrap(), 7);
    scope.create_local("x".to_string(), AllayData::from(true));
    assert!(scope.get_local("x").unwrap().as_bool().unwrap());
    let popped = scope.exit_sub_scope();
    assert!(popped.is_some());
    assert!(scope.get_local("x").is_none());
    assert!(scope.this_data().is_obj());
    assert!(scope.exit_sub_scope().is_none());
}

#[test]
fn merge_data_sets_keys_in_turn() {
    let mut scope = PageScope::new();
    let mut extra = AllayObject::new();
    extra.insert("a".to_string(), AllayData::from(1));
    extra.insert("b".to_string(), AllayData::from(2));
    scope.add_key("a".to_string(), AllayData::from(0));
    scope.merge_data(&extra);
    let a = scope.this_field(&vec![GetField::Name("a".into())]).unwrap();
    assert_eq!(a.as_int().unwrap(), 1);
    let b = scope.this_field(&vec![GetField::Name("b".into())]).unwrap();
    assert_eq!(b.as_int().unwrap(), 2);
}

#[test]
fn add_key_overrides_inherited_and_keeps_others() {
    let mut scope = gen_page_scope();
    let before = scope.this_data();
    scope.add_key("date".to_string(), AllayData::from("2024-01-01"));
    let date = scope.this_field(&vec![GetField::Name("date".into())]).unwrap();
    assert_eq!(date.as_str().unwrap(), "2024-01-01");
    let data = scope.this_data();
    let obj = data.as_obj().unwrap();
    assert_eq!(obj.get("date").unwrap().as_str().unwrap(), "2024-01-01");
    assert_eq!(obj.get("author").unwrap().as_str().unwrap(), "Alice");
    assert_eq!(obj.len(), before.as_obj().unwrap().len());
}
