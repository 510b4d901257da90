use vstd::prelude::*;

use crate::error::ErrorKind;
use crate::source_category_converter::{ConverterView, RecordView};

verus! {

/// A record without an id is rejected with `MissingId`, and neither the name
/// table nor the identifier table changes.
pub proof fn lemma_missing_id_changes_nothing(s: ConverterView, record: RecordView)
    requires
        record.id is None,
    ensures
        s.rejection(record) == Some(ErrorKind::MissingId),
        s.register(record) == s,
{
}

/// A record with an id, no parent name and resolvable attributes is accepted:
/// its node carries its id, is stored under that id, and is appended once to
/// the root list.
pub proof fn lemma_root_record_accepted(s: ConverterView, record: RecordView)
    requires
        record.id is Some,
        record.parent_name is None,
        record.attributes_valid,
    ensures
        s.rejection(record) is None,
        ({
            let id = record.id->Some_0;
            let t = s.accept(record);
            &&& t.categories.contains_key(id)
            &&& t.categories[id].id == id
            &&& t.categories[id].parent_id is None
            &&& t.root == s.root.push(t.categories[id])
            &&& t.categories == s.categories.insert(id, t.categories[id])
        }),
{
}

/// A record whose parent name was never linked with an id is rejected with
/// `IdNotFound` (unless it names itself as its parent).
pub proof fn lemma_unlinked_parent_rejected(s: ConverterView, record: RecordView, p: Seq<char>)
    requires
        record.id is Some,
        record.parent_name == Some(p),
        !s.names.contains_key(p),
        record.name != p,
    ensures
        s.rejection(record) == Some(ErrorKind::IdNotFound),
{
}

/// A record whose parent name is linked with an id that has no node yet is
/// rejected with `ParentNotAvailable`.
pub proof fn lemma_unbuilt_parent_rejected(s: ConverterView, record: RecordView, p: Seq<char>)
    requires
        record.id is Some,
        record.parent_name == Some(p),
        s.names.contains_key(p),
        !s.categories.contains_key(s.names[p]),
        record.name != p || !s.categories.contains_key(record.id->Some_0),
    ensures
        s.rejection(record) == Some(ErrorKind::ParentNotAvailable),
{
}

/// Three records with distinct ids and names, each naming the one before as
/// its parent, are accepted in that order from an empty session; the result
/// holds three nodes, one root (the first record), and the third node's parent
/// resolves to the node of the second.
pub proof fn lemma_well_ordered_chain(a: RecordView, b: RecordView, c: RecordView)
    requires
        a.id is Some,
        b.id is Some,
        c.id is Some,
        a.id != b.id,
        b.id != c.id,
        a.id != c.id,
        a.name != b.name,
        b.name != c.name,
        a.name != c.name,
        a.parent_name is None,
        b.parent_name == Some(a.name),
        c.parent_name == Some(b.name),
        a.attributes_valid,
        b.attributes_valid,
        c.attributes_valid,
    ensures
        ConverterView::empty().rejection(a) is None,
        ConverterView::empty().accept(a).rejection(b) is None,
        ConverterView::empty().accept(a).accept(b).rejection(c) is None,
        ({
            let t = ConverterView::empty().accept(a).accept(b).accept(c);
            let parent = t.categories[c.id->Some_0].parent_id;
            &&& t.categories.dom().len() == 3
            &&& t.root.len() == 1
            &&& t.root[0].id == a.id->Some_0
            &&& parent == Some(b.id->Some_0)
            &&& t.categories.contains_key(parent->Some_0)
            &&& t.categories[parent->Some_0] == t.categories[b.id->Some_0]
        }),
{
    let s0 = ConverterView::empty();
    let s1 = s0.accept(a);
    let s2 = s1.accept(b);
    let s3 = s2.accept(c);
    let (ka, kb, kc) = (a.id->Some_0, b.id->Some_0, c.id->Some_0);
    assert(s3.categories.dom() =~= Set::empty().insert(ka).insert(kb).insert(kc));
    assert(Set::<Seq<char>>::empty().insert(ka).len() == 1);
    assert(Set::<Seq<char>>::empty().insert(ka).insert(kb).len() == 2);
}

/// Converting the same root record twice does not leave the state as it was
/// after the first time: the second node takes the same slot of the identifier
/// table, and the root list grows by one node each time.
pub proof fn lemma_repeated_root_record(s: ConverterView, record: RecordView)
    requires
        record.id is Some,
        record.parent_name is None,
        record.attributes_valid,
    ensures
        s.accept(record).rejection(record) is None,
        ({
            let once = s.accept(record);
            let twice = once.accept(record);
            &&& twice.categories.dom() == s.categories.dom().insert(record.id->Some_0)
            &&& twice.categories.dom() == once.categories.dom()
            &&& twice.root.len() == s.root.len() + 2
            &&& twice.root != once.root
        }),
{
    let once = s.accept(record);
    let twice = once.accept(record);
    assert(twice.categories.dom() =~= s.categories.dom().insert(record.id->Some_0));
    assert(twice.root.len() != once.root.len());
}

} // verus!
