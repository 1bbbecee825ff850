//! The deletion plan, and taking planned positions out of a body.

use hcl_delete::body::Item;
use hcl_delete::field::Field;
use hcl_delete::plan::deletion_plan;
use hcl_delete::plan::remove_all;
use hcl_edit::structure::Body;

fn attribute(key: &str) -> Item {
    Item::Attribute { key: key.to_string() }
}

fn block(ident: &str, labels: &[&str]) -> Item {
    Item::Block { ident: ident.to_string(), labels: labels.iter().map(|l| l.to_string()).collect() }
}

fn seven() -> Body {
    "a0 = 0\na1 = 1\na2 = 2\na3 = 3\na4 = 4\na5 = 5\na6 = 6\n".parse().expect("the document parses")
}

#[test]
fn a_plan_lists_the_matching_positions_in_order() {
    let items = vec![
        attribute("x"),
        attribute("y"),
        block("x", &[]),
        attribute("x"),
        block("x", &["l"]),
        block("z", &[]),
    ];
    let active = Field { name: "x".to_string(), labels: Vec::new() };
    assert_eq!(deletion_plan(&items, &active, true), vec![0, 2, 3, 4]);
    assert_eq!(deletion_plan(&items, &active, false), vec![0, 3]);
}

#[test]
fn a_plan_names_a_block_once_however_many_labels_match() {
    let items = vec![block("r", &["a", "b"]), block("r", &["c"]), block("r", &["b", "b"]), attribute("r")];
    let active = Field { name: "r".to_string(), labels: vec!["b".to_string(), "a".to_string()] };
    assert_eq!(deletion_plan(&items, &active, false), vec![0, 2, 3]);
    assert_eq!(deletion_plan(&items, &active, true), vec![0, 2, 3]);
}

#[test]
fn a_plan_for_nothing_is_empty() {
    let active = Field { name: "x".to_string(), labels: Vec::new() };
    assert_eq!(deletion_plan(&Vec::new(), &active, true), Vec::<usize>::new());
    assert_eq!(deletion_plan(&vec![attribute("y")], &active, true), Vec::<usize>::new());
}

#[test]
fn planned_positions_go_and_no_others() {
    let mut body = seven();
    remove_all(&mut body, &vec![1, 3, 6]);
    assert_eq!(body.to_string(), "a0 = 0\na2 = 2\na4 = 4\na5 = 5\n");
}

#[test]
fn neighbouring_positions_go_together() {
    let mut body = seven();
    remove_all(&mut body, &vec![0, 1, 2]);
    assert_eq!(body.to_string(), "a3 = 3\na4 = 4\na5 = 5\na6 = 6\n");
    remove_all(&mut body, &vec![2, 3]);
    assert_eq!(body.to_string(), "a3 = 3\na4 = 4\n");
}

#[test]
fn the_empty_plan_removes_nothing() {
    let mut body = seven();
    remove_all(&mut body, &Vec::new());
    assert_eq!(body.len(), 7);
}

#[test]
fn the_full_plan_removes_everything() {
    let mut body = seven();
    remove_all(&mut body, &vec![0, 1, 2, 3, 4, 5, 6]);
    assert!(body.is_empty());
}
