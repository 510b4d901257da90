use std::rc::Rc;

use cooplan_definitions_lib::error::{Error as LibError, ErrorKind as LibErrorKind};
use cooplan_definitions_lib::source_attribute::SourceAttribute;
use cooplan_definitions_lib::source_category::SourceCategory;
use source_category_converter::error::{Error, ErrorKind};
use source_category_converter::source_category_converter::SourceCategoryConverter;

fn record(id: Option<&str>, name: &str, parent_name: Option<&str>) -> SourceCategory {
    SourceCategory {
        id: id.map(|s| s.to_string()),
        parent: None,
        parent_name: parent_name.map(|s| s.to_string()),
        name: name.to_string(),
        selectable_as_last: None,
        attributes: Vec::new(),
    }
}

fn attribute(id: Option<&str>, name: &str) -> SourceAttribute {
    SourceAttribute {
        id: id.map(|s| s.to_string()),
        name: name.to_string(),
        data_type: "string".to_string(),
        unit: None,
        optional: None,
    }
}

fn parent_id_of(node: &Rc<std::cell::RefCell<cooplan_definitions_lib::category::Category>>) -> Option<String> {
    let node = node.borrow();
    let parent = node.parent.as_ref()?.upgrade()?;
    let id = parent.borrow().id.clone();
    Some(id)
}

#[test]
fn missing_id_leaves_tables_unchanged() {
    let mut converter = SourceCategoryConverter::new();
    converter.convert(record(Some("1"), "Fruit", None)).unwrap();
    let error = converter.convert(record(None, "Nameless", None)).unwrap_err();
    assert_eq!(error.kind(), ErrorKind::MissingId);
    assert_eq!(error.to_string(), "source category 'Nameless' has no id");
    assert!(converter.linked_id(&"Nameless".to_string()).is_none());
    assert_eq!(converter.categories().len(), 1);
    assert_eq!(converter.root().len(), 1);
}

#[test]
fn root_record_is_stored_and_listed() {
    let mut converter = SourceCategoryConverter::new();
    let mut source = record(Some("1"), "Fruit", None);
    source.attributes = vec![attribute(Some("a1"), "color")];
    let node = converter.convert(source).unwrap();
    assert_eq!(node.borrow().id, "1");
    assert_eq!(node.borrow().name, "Fruit");
    assert!(!node.borrow().selectable_as_last);
    assert_eq!(node.borrow().attributes.len(), 1);
    assert_eq!(node.borrow().attributes[0].id, "a1");
    assert!(node.borrow().parent.is_none());
    let entry = converter.category(&"1".to_string()).unwrap();
    assert!(Rc::ptr_eq(&entry.node, &node));
    assert_eq!(entry.id, "1");
    assert_eq!(converter.root().len(), 1);
    assert!(Rc::ptr_eq(&converter.root()[0].node, &node));
    assert_eq!(converter.linked_id(&"Fruit".to_string()).unwrap(), "1");
}

#[test]
fn selectable_flag_is_kept() {
    let mut converter = SourceCategoryConverter::new();
    let mut source = record(Some("1"), "Fruit", None);
    source.selectable_as_last = Some(true);
    let node = converter.convert(source).unwrap();
    assert!(node.borrow().selectable_as_last);
    assert!(converter.category(&"1".to_string()).unwrap().selectable_as_last);
}

#[test]
fn unlinked_parent_gives_id_not_found() {
    let mut converter = SourceCategoryConverter::new();
    let error = converter.convert(record(Some("2"), "Apple", Some("P"))).unwrap_err();
    assert_eq!(error.kind(), ErrorKind::IdNotFound);
    assert_eq!(error.message, "category name 'P' is not linked with an id");
    assert_eq!(converter.linked_id(&"Apple".to_string()).unwrap(), "2");
    assert!(converter.category(&"2".to_string()).is_none());
}

#[test]
fn unbuilt_parent_gives_parent_not_available() {
    let mut converter = SourceCategoryConverter::new();
    let mut parent = record(Some("X"), "P", None);
    parent.attributes = vec![attribute(None, "broken")];
    let error = converter.convert(parent).unwrap_err();
    assert_eq!(error.kind(), ErrorKind::MissingId);
    assert_eq!(converter.linked_id(&"P".to_string()).unwrap(), "X");
    let error = converter.convert(record(Some("2"), "Child", Some("P"))).unwrap_err();
    assert_eq!(error.kind(), ErrorKind::ParentNotAvailable);
    assert_eq!(error.message, "parent 'X' has not been read yet");
    assert!(converter.categories().is_empty());
    assert!(converter.root().is_empty());
}

#[test]
fn self_parent_gives_parent_not_available() {
    let mut converter = SourceCategoryConverter::new();
    let error = converter.convert(record(Some("1"), "Loop", Some("Loop"))).unwrap_err();
    assert_eq!(error.kind(), ErrorKind::ParentNotAvailable);
}

#[test]
fn child_with_bad_attributes_is_rejected() {
    let mut converter = SourceCategoryConverter::new();
    converter.convert(record(Some("1"), "Fruit", None)).unwrap();
    let mut child = record(Some("2"), "Apple", Some("Fruit"));
    child.attributes = vec![attribute(Some("a1"), "color"), attribute(None, "size")];
    let error = converter.convert(child).unwrap_err();
    assert_eq!(error.kind(), ErrorKind::MissingId);
    assert!(converter.category(&"2".to_string()).is_none());
}

#[test]
fn well_ordered_chain_builds_tree() {
    let mut converter = SourceCategoryConverter::new();
    let a = converter.convert(record(Some("A"), "a", None)).unwrap();
    let b = converter.convert(record(Some("B"), "b", Some("a"))).unwrap();
    let c = converter.convert(record(Some("C"), "c", Some("b"))).unwrap();
    assert_eq!(converter.categories().len(), 3);
    assert_eq!(converter.root().len(), 1);
    assert!(Rc::ptr_eq(&converter.root()[0].node, &a));
    assert_eq!(parent_id_of(&c).unwrap(), b.borrow().id);
    assert_eq!(parent_id_of(&b).unwrap(), "A");
    let entry = converter.category(&"C".to_string()).unwrap();
    assert_eq!(entry.parent_id.as_deref(), Some("B"));
    assert_eq!(a.borrow().children.len(), 1);
    assert!(Rc::ptr_eq(&a.borrow().children[0], &b));
}

#[test]
fn repeated_record_overwrites_slot() {
    let mut converter = SourceCategoryConverter::new();
    let first = converter.convert(record(Some("1"), "Fruit", None)).unwrap();
    let second = converter.convert(record(Some("1"), "Fruit", None)).unwrap();
    assert!(!Rc::ptr_eq(&first, &second));
    assert_eq!(converter.categories().len(), 1);
    assert!(Rc::ptr_eq(&converter.category(&"1".to_string()).unwrap().node, &second));
    assert_eq!(converter.root().len(), 2);
    assert!(Rc::ptr_eq(&converter.root()[0].node, &first));
    assert!(Rc::ptr_eq(&converter.root()[1].node, &second));
}

#[test]
fn fruit_then_apple_scenario() {
    let mut converter = SourceCategoryConverter::new();
    let fruit = converter.convert(record(Some("1"), "Fruit", None)).unwrap();
    let apple = converter.convert(record(Some("2"), "Apple", Some("Fruit"))).unwrap();
    assert_eq!(converter.root().len(), 1);
    assert_eq!(converter.root()[0].id, "1");
    let stored_apple = &converter.category(&"2".to_string()).unwrap().node;
    assert!(Rc::ptr_eq(stored_apple, &apple));
    assert_eq!(parent_id_of(stored_apple).unwrap(), "1");
    let parent = apple.borrow().parent.as_ref().unwrap().upgrade().unwrap();
    assert!(Rc::ptr_eq(&parent, &converter.category(&"1".to_string()).unwrap().node));
    assert!(Rc::ptr_eq(&parent, &fruit));
}

#[test]
fn reversed_order_scenario() {
    let mut converter = SourceCategoryConverter::new();
    let error = converter.convert(record(Some("2"), "Apple", Some("Fruit"))).unwrap_err();
    assert_eq!(error.kind(), ErrorKind::IdNotFound);
    assert!(converter.convert(record(Some("1"), "Fruit", None)).is_ok());
}

#[test]
fn error_new_keeps_kind_and_message() {
    let error = Error::new(ErrorKind::Other, "something");
    assert_eq!(error.kind(), ErrorKind::Other);
    assert_eq!(error.message, "something");
    assert_eq!(error.to_string(), "something");
}

#[test]
fn library_errors_are_translated() {
    let cases = [
        (LibErrorKind::MissingId, ErrorKind::MissingId),
        (LibErrorKind::FailedToBorrowCategory, ErrorKind::FailedToBorrowCategory),
        (LibErrorKind::ParentNotAvailable, ErrorKind::ParentNotAvailable),
        (LibErrorKind::FailedToValidateCategory, ErrorKind::Other),
        (LibErrorKind::FailedToValidateSourceAttribute, ErrorKind::Other),
    ];
    for (library_kind, expected) in cases {
        let error = Error::from(LibError::new(library_kind, "text"));
        assert_eq!(error.kind(), expected);
        assert_eq!(error.message, "text");
    }
}
