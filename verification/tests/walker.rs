//! The walker's own state: the queue of fields and the field held ready.

use hcl_delete::delete::HclDeleter;
use hcl_delete::error::DeleteError;
use hcl_delete::field::Field;
use hcl_edit::structure::Body;

fn plain(name: &str) -> Field {
    Field { name: name.to_string(), labels: Vec::new() }
}

fn labelled(name: &str, label: &str) -> Field {
    Field { name: name.to_string(), labels: vec![label.to_string()] }
}

fn document(text: &str) -> Body {
    text.parse().expect("the document parses")
}

#[test]
fn a_new_walker_holds_the_path_and_nothing_else() {
    let deleter = HclDeleter::new(vec![plain("a"), labelled("b", "l")]);
    assert_eq!(deleter.fields, vec![plain("a"), labelled("b", "l")]);
    assert_eq!(deleter.next, None);
    assert_eq!(deleter.error, None);
}

#[test]
fn next_field_takes_the_first_of_the_queue() {
    let mut deleter = HclDeleter::new(vec![plain("a"), plain("b"), plain("c")]);
    deleter.next_field();
    assert_eq!(deleter.next, Some(plain("a")));
    assert_eq!(deleter.fields, vec![plain("b"), plain("c")]);
    assert_eq!(deleter.error, None);
}

#[test]
fn next_field_keeps_a_field_that_is_held_ready() {
    let mut deleter = HclDeleter::new(vec![plain("a"), plain("b")]);
    deleter.next_field();
    deleter.next_field();
    assert_eq!(deleter.next, Some(plain("a")));
    assert_eq!(deleter.fields, vec![plain("b")]);
}

#[test]
fn next_field_on_an_empty_queue_does_nothing() {
    let mut deleter = HclDeleter::new(Vec::new());
    deleter.next_field();
    assert_eq!(deleter.next, None);
    assert!(deleter.fields.is_empty());
}

#[test]
fn next_field_leaves_the_failure_alone() {
    let mut deleter = HclDeleter::new(vec![plain("a")]);
    deleter.error = Some(DeleteError { message: "stopped".to_string() });
    deleter.next_field();
    assert_eq!(deleter.next, Some(plain("a")));
    assert_eq!(deleter.error, Some(DeleteError { message: "stopped".to_string() }));
}

#[test]
fn a_visit_without_a_field_does_nothing() {
    let text = "a = 1\n";
    let mut body = document(text);
    let mut deleter = HclDeleter::new(Vec::new());
    deleter.visit_body_mut(&mut body);
    assert_eq!(body.to_string(), text);
    assert_eq!(deleter.next, None);
    assert!(deleter.fields.is_empty());
}

#[test]
fn a_visit_consumes_one_field_per_level() {
    let mut body = document("a {\n  b {\n    c = 1\n  }\n}\n");
    let mut deleter = HclDeleter::new(vec![plain("a"), plain("b"), plain("c"), plain("d")]);
    deleter.visit_body_mut(&mut body);
    // `c` is not the last field, and an attribute is never entered
    assert_eq!(body.to_string(), "a {\n  b {\n  }\n}\n");
    assert_eq!(deleter.next, Some(plain("c")));
    assert_eq!(deleter.fields, vec![plain("d")]);
}

#[test]
fn a_visit_that_finds_nothing_consumes_one_field() {
    let text = "a = 1\n";
    let mut body = document(text);
    let mut deleter = HclDeleter::new(vec![plain("x"), plain("y")]);
    deleter.visit_body_mut(&mut body);
    assert_eq!(body.to_string(), text);
    assert_eq!(deleter.next, Some(plain("x")));
    assert_eq!(deleter.fields, vec![plain("y")]);
}

#[test]
fn a_visit_works_with_the_field_held_ready() {
    let mut body = document("a = 1\nb = 2\n");
    let mut deleter = HclDeleter::new(Vec::new());
    deleter.next = Some(plain("b"));
    deleter.visit_body_mut(&mut body);
    assert_eq!(body.to_string(), "a = 1\n");
    assert_eq!(deleter.next, Some(plain("b")));
    assert!(deleter.fields.is_empty());
}

#[test]
fn a_block_is_kept_while_fields_are_waiting() {
    let mut body = document("a {\n  b = 1\n}\n");
    let mut deleter = HclDeleter::new(vec![plain("z")]);
    deleter.next = Some(plain("a"));
    deleter.visit_body_mut(&mut body);
    assert_eq!(body.to_string(), "a {\n  b = 1\n}\n");
    assert_eq!(deleter.next, Some(plain("z")));
    assert!(deleter.fields.is_empty());
}

#[test]
fn a_labelled_field_leaves_the_queue_alone() {
    let mut body = document("r \"l\" {\n  b = 1\n}\nr \"m\" {\n  b = 2\n}\n");
    let mut deleter = HclDeleter::new(vec![labelled("r", "l"), plain("b")]);
    deleter.visit_body_mut(&mut body);
    assert_eq!(body.to_string(), "r \"m\" {\n  b = 2\n}\n");
    assert_eq!(deleter.next, Some(labelled("r", "l")));
    assert_eq!(deleter.fields, vec![plain("b")]);
}

#[test]
fn siblings_share_the_queue() {
    let mut body = document("a {\n  b = 1\n}\na {\n  b = 2\n  c = 3\n}\na {\n  d = 4\n}\n");
    let mut deleter = HclDeleter::new(vec![plain("a"), plain("b"), plain("c")]);
    deleter.visit_body_mut(&mut body);
    // `b` is not the last field when the first sibling is walked, but an
    // attribute goes whenever its key matches
    assert_eq!(body.to_string(), "a {\n}\na {\n  b = 2\n}\na {\n  d = 4\n}\n");
    assert_eq!(deleter.next, Some(plain("c")));
    assert!(deleter.fields.is_empty());
}

#[test]
fn a_visit_leaves_the_failure_alone() {
    let mut body = document("a = 1\n");
    let mut deleter = HclDeleter::new(vec![plain("a")]);
    deleter.error = Some(DeleteError { message: "stopped".to_string() });
    deleter.visit_body_mut(&mut body);
    assert!(body.is_empty());
    assert_eq!(deleter.error, Some(DeleteError { message: "stopped".to_string() }));
}
