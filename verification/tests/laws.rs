use allay::data::{AllayData, AllayObject};
use allay::dependency::{DependencyError, DependencyGraph};
use allay::ast::{Control, File, Template};
use allay::parser::parse_template;
use std::cmp::Ordering;

fn chain() -> DependencyGraph<&'static str> {
    let mut g = DependencyGraph::default();
    g.add_dependency("c", "b").unwrap();
    g.add_dependency("b", "a").unwrap();
    g
}

#[test]
fn dependency_is_transitive() {
    let g = chain();
    assert!(g.is_dependent_recursively(&"c", &"a"));
    assert!(!g.is_dependent(&"c", &"a"));
    assert!(!g.is_dependent_recursively(&"a", &"c"));
}

#[test]
fn direct_dependency_is_recursive() {
    let g = chain();
    assert!(g.is_dependent(&"c", &"b"));
    assert!(g.is_dependent_recursively(&"c", &"b"));
}

#[test]
fn recursive_queries_mirror_each_other() {
    let g = chain();
    // the points that depend on "a", and those "c" depends on
    let dependents = g.depends_on_recursively(&"a");
    assert!(dependents.contains(&"b") && dependents.contains(&"c"));
    assert_eq!(dependents.len(), 2);
    let upstream = g.depended_by_recursively(&"c");
    assert!(upstream.contains(&"a") && upstream.contains(&"b"));
    assert_eq!(upstream.len(), 2);
}

#[test]
fn no_cycle_can_be_made() {
    let mut g = chain();
    assert_eq!(g.add_dependency("a", "c"), Err(DependencyError::CircularDependency));
    assert_eq!(g.add_dependency("a", "a"), Err(DependencyError::SelfDependency));
    assert!(!g.is_dependent_recursively(&"a", &"a"));
}

#[test]
fn remove_undoes_add() {
    let mut g = chain();
    g.add_dependency("d", "a").unwrap();
    assert!(g.is_dependent(&"d", &"a"));
    g.remove_dependency(&"d", &"a");
    assert!(!g.is_dependent(&"d", &"a"));
    assert!(g.is_dependent(&"c", &"b"));
    assert!(g.is_dependent(&"b", &"a"));
}

#[test]
fn removed_point_is_gone() {
    let mut g = chain();
    g.remove_point(&"b");
    assert!(!g.has_point(&"b"));
    assert!(!g.is_dependent_recursively(&"c", &"a"));
}

#[test]
fn replace_and_back() {
    let mut g = chain();
    g.replace_point(&"b", &"x").unwrap();
    assert!(g.is_dependent(&"c", &"x"));
    assert!(!g.has_point(&"b"));
    assert_eq!(g.replace_point(&"x", &"a"), Err(DependencyError::ReplaceToExistingPoint));
    g.replace_point(&"x", &"b").unwrap();
    assert!(g.is_dependent(&"c", &"b"));
    assert!(g.is_dependent(&"b", &"a"));
}

#[test]
fn insert_then_get() {
    let mut o = AllayObject::new();
    o.insert("k".to_string(), AllayData::from(1));
    o.insert("j".to_string(), AllayData::from(2));
    o.insert("k".to_string(), AllayData::from(3));
    assert_eq!(o.get("k").unwrap().as_int().unwrap(), 3);
    assert_eq!(o.get("j").unwrap().as_int().unwrap(), 2);
    assert_eq!(o.len(), 2);
}

#[test]
fn data_equality_and_order() {
    assert!(AllayData::from(1) == AllayData::from(1));
    assert!(AllayData::from("a") != AllayData::from(1));
    assert_eq!(AllayData::from(1).partial_cmp(&AllayData::from(2)), Some(Ordering::Less));
    assert_eq!(AllayData::from("b").partial_cmp(&AllayData::from("a")), Some(Ordering::Greater));
    assert_eq!(AllayData::from(true).partial_cmp(&AllayData::from(true)), Some(Ordering::Equal));
    assert_eq!(AllayData::from(1).partial_cmp(&AllayData::from("a")), None);
}

#[test]
fn data_renders_as_text() {
    assert_eq!(AllayData::from(-42).render(), "-42");
    assert_eq!(AllayData::from(true).render(), "true");
    assert_eq!(AllayData::from("x").render(), "x");
}

#[test]
fn order_is_dual_transitive_and_agrees_with_eq() {
    let a = AllayData::from("apple");
    let b = AllayData::from("banana");
    let c = AllayData::from("cherry");
    assert!(a < b && b > a);
    assert!(b < c && a < c);
    assert_eq!(AllayData::from(3).partial_cmp(&AllayData::from(3)), Some(Ordering::Equal));
    assert!(AllayData::from(3) == AllayData::from(3));
    assert_eq!(AllayData::Null.partial_cmp(&AllayData::Null), Some(Ordering::Equal));
    // lists can be equal while having no order
    let l1 = AllayData::List(vec![AllayData::from(1)]);
    let l2 = AllayData::List(vec![AllayData::from(1)]);
    assert!(l1 == l2);
    assert_eq!(l1.partial_cmp(&l2), None);
}

#[test]
fn plain_text_reads_as_one_text_without_outer_whitespace() {
    let ast = parse_template("\n  Some { plain } text,\tover\nlines.  \n").unwrap();
    assert_eq!(
        ast,
        File(Template { controls: vec![Control::Text("Some { plain } text,\tover\nlines.".to_string())] })
    );
}
