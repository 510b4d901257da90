use vstd::prelude::*;

use std::cell::RefCell;
use std::rc::Rc;

use cooplan_definitions_lib::attribute::Attribute;
use cooplan_definitions_lib::category::Category;
use cooplan_definitions_lib::error::{Error as LibError, ErrorKind as LibErrorKind};
use cooplan_definitions_lib::source_attribute::SourceAttribute;
use cooplan_definitions_lib::source_category::SourceCategory;

verus! {

/// The error of the definitions library: its kind and message are public fields.
#[verifier::external_type_specification]
pub struct ExLibError(LibError);

/// The closed set of error kinds of the definitions library.
#[verifier::external_type_specification]
pub struct ExLibErrorKind(LibErrorKind);

/// A raw attribute record as read from a source: all fields public.
#[verifier::external_type_specification]
pub struct ExSourceAttribute(SourceAttribute);

/// A validated attribute: all fields public.
#[verifier::external_type_specification]
pub struct ExAttribute(Attribute);

/// A raw category record as read from a source: all fields public.
#[verifier::external_type_specification]
pub struct ExSourceCategory(SourceCategory);

/// A node of the category tree, held behind shared handles.
#[verifier::external_type_specification]
#[verifier::external_body]
pub struct ExCategory(Category);

/// The interior-mutable cell around each category node.
#[verifier::external_type_specification]
#[verifier::external_body]
#[verifier::reject_recursive_types(T)]
pub struct ExRefCell<T: ?Sized>(RefCell<T>);

/// Every raw attribute carries an id: exactly the records that the definitions
/// library can turn into attributes.
pub open spec fn attributes_have_ids(attributes: Seq<SourceAttribute>) -> bool {
    forall|i: int| 0 <= i < attributes.len() ==> (#[trigger] attributes[i]).id is Some
}

/// The attribute that the definitions library builds from a raw record with an id.
pub open spec fn attribute_built_from(source: SourceAttribute, attribute: Attribute) -> bool {
    &&& source.id == Some(attribute.id)
    &&& attribute.name == source.name
    &&& attribute.data_type == source.data_type
    &&& attribute.unit == source.unit
    &&& attribute.optional == (source.optional == Some(true))
}

/// Relies on SourceAttribute::to_attributes: converts each raw attribute in order,
/// and fails with MissingId as soon as one has no id.
pub assume_specification[ SourceAttribute::to_attributes ](
    source_attributes: &[SourceAttribute],
) -> (r: Result<Vec<Attribute>, LibError>)
    ensures
        r is Ok <==> attributes_have_ids(source_attributes@),
        r matches Ok(attributes) ==> {
            &&& attributes@.len() == source_attributes@.len()
            &&& forall|i: int|
                0 <= i < attributes@.len() ==> attribute_built_from(
                    #[trigger] source_attributes@[i],
                    attributes@[i],
                )
        },
        r matches Err(e) ==> e.kind == LibErrorKind::MissingId,
;

/// Relies on Category::new: builds a parentless node; nothing about it is read here.
pub assume_specification[ Category::new ](
    id: String,
    name: String,
    selectable_as_last: bool,
    attributes: Vec<Attribute>,
) -> Rc<RefCell<Category>>;

/// Relies on Rc::clone: the clone is a second handle to the same node.
#[verifier::external_body]
pub(crate) fn share(handle: &Rc<RefCell<Category>>) -> (r: Rc<RefCell<Category>>)
    ensures
        r == *handle,
{
    Rc::clone(handle)
}

/// Relies on Category::new_into_parent, given a weak handle to the parent: it
/// fails only when the parent is gone (ParentNotAvailable) or is borrowed
/// already (FailedToBorrowCategory).
#[verifier::external_body]
pub(crate) fn new_category_into_parent(
    id: String,
    parent: &Rc<RefCell<Category>>,
    name: String,
    selectable_as_last: bool,
    attributes: Vec<Attribute>,
) -> (r: Result<Rc<RefCell<Category>>, LibError>)
    ensures
        r matches Err(e) ==> e.kind == LibErrorKind::ParentNotAvailable || e.kind
            == LibErrorKind::FailedToBorrowCategory,
{
    Category::new_into_parent(id, Rc::downgrade(parent), name, selectable_as_last, attributes)
}

} // verus!
