use vstd::prelude::*;

use std::cell::RefCell;
use std::rc::Rc;

use cooplan_definitions_lib::category::Category;
use cooplan_definitions_lib::source_attribute::SourceAttribute;
use cooplan_definitions_lib::source_category::SourceCategory;

use crate::error::{Error, ErrorKind};
use crate::definitions::{attributes_have_ids, new_category_into_parent, share};
use crate::table::{
    keyed_map, keys_unique, lemma_keyed_absent, lemma_keyed_lookup, lemma_keyed_push,
    lemma_keyed_update,
};

verus! {

/// What a converted category node was built from.
pub struct NodeView {
    pub id: Seq<char>,
    pub name: Seq<char>,
    pub selectable_as_last: bool,
    pub parent_id: Option<Seq<char>>,
}

/// What the converter reads of a source category record.
pub struct RecordView {
    pub id: Option<Seq<char>>,
    pub name: Seq<char>,
    pub parent_name: Option<Seq<char>>,
    /// The flag after defaulting an absent value to `false`.
    pub selectable_as_last: bool,
    /// Whether every raw attribute of the record can be resolved.
    pub attributes_valid: bool,
}

/// The state of a conversion session: the identifier table, the name table and
/// the list of top-level nodes.
pub struct ConverterView {
    pub categories: Map<Seq<char>, NodeView>,
    pub names: Map<Seq<char>, Seq<char>>,
    pub root: Seq<NodeView>,
}

pub open spec fn text_view(text: Option<String>) -> Option<Seq<char>> {
    match text {
        Some(s) => Some(s@),
        None => None,
    }
}

pub open spec fn record_view(source: SourceCategory) -> RecordView {
    RecordView {
        id: text_view(source.id),
        name: source.name@,
        parent_name: text_view(source.parent_name),
        selectable_as_last: source.selectable_as_last == Some(true),
        attributes_valid: attributes_have_ids(source.attributes@),
    }
}

pub open spec fn missing_id_message(name: Seq<char>) -> Seq<char> {
    "source category '"@ + name + "' has no id"@
}

pub open spec fn unlinked_name_message(name: Seq<char>) -> Seq<char> {
    "category name '"@ + name + "' is not linked with an id"@
}

pub open spec fn unread_parent_message(id: Seq<char>) -> Seq<char> {
    "parent '"@ + id + "' has not been read yet"@
}

impl ConverterView {
    /// The state at the start of a session.
    pub open spec fn empty() -> ConverterView {
        ConverterView { categories: Map::empty(), names: Map::empty(), root: Seq::empty() }
    }

    /// The state after the record's name has been linked with its id, which
    /// happens whenever the record has an id.
    pub open spec fn register(self, record: RecordView) -> ConverterView {
        match record.id {
            Some(id) => ConverterView {
                categories: self.categories,
                names: self.names.insert(record.name, id),
                root: self.root,
            },
            None => self,
        }
    }

    /// The error that the record is rejected with, where the converter itself
    /// decides it.
    pub open spec fn rejection(self, record: RecordView) -> Option<ErrorKind> {
        if record.id is None {
            Some(ErrorKind::MissingId)
        } else {
            let s = self.register(record);
            match record.parent_name {
                Some(p) => {
                    if !s.names.contains_key(p) {
                        Some(ErrorKind::IdNotFound)
                    } else if !s.categories.contains_key(s.names[p]) {
                        Some(ErrorKind::ParentNotAvailable)
                    } else if !record.attributes_valid {
                        Some(ErrorKind::MissingId)
                    } else {
                        None
                    }
                },
                None => if !record.attributes_valid {
                    Some(ErrorKind::MissingId)
                } else {
                    None
                },
            }
        }
    }

    /// The message of a rejection whose text the converter writes itself.
    pub open spec fn rejection_message(self, record: RecordView) -> Option<Seq<char>> {
        if record.id is None {
            Some(missing_id_message(record.name))
        } else {
            let s = self.register(record);
            match record.parent_name {
                Some(p) => {
                    if !s.names.contains_key(p) {
                        Some(unlinked_name_message(p))
                    } else if !s.categories.contains_key(s.names[p]) {
                        Some(unread_parent_message(s.names[p]))
                    } else {
                        None
                    }
                },
                None => None,
            }
        }
    }

    /// The node that an accepted record becomes.
    pub open spec fn node_for(self, record: RecordView) -> NodeView {
        NodeView {
            id: record.id->Some_0,
            name: record.name,
            selectable_as_last: record.selectable_as_last,
            parent_id: match record.parent_name {
                Some(p) => Some(self.register(record).names[p]),
                None => None,
            },
        }
    }

    /// The state after the record has been accepted: its node is stored under
    /// its id, and appended to the root list when it names no parent.
    pub open spec fn accept(self, record: RecordView) -> ConverterView {
        let s = self.register(record);
        let node = self.node_for(record);
        ConverterView {
            categories: s.categories.insert(node.id, node),
            names: s.names,
            root: if record.parent_name is None {
                s.root.push(node)
            } else {
                s.root
            },
        }
    }
}

/// One entry of the converter's tables: the node's handle and what it was
/// built from.
pub struct CategoryEntry {
    pub id: String,
    pub name: String,
    pub selectable_as_last: bool,
    pub parent_id: Option<String>,
    pub node: Rc<RefCell<Category>>,
}

impl View for CategoryEntry {
    type V = NodeView;

    open spec fn view(&self) -> NodeView {
        NodeView {
            id: self.id@,
            name: self.name@,
            selectable_as_last: self.selectable_as_last,
            parent_id: text_view(self.parent_id),
        }
    }
}

/// A link from a category name to the id that it was registered with.
pub struct NameLink {
    pub name: String,
    pub id: String,
}

pub open spec fn category_pairs(entries: Seq<CategoryEntry>) -> Seq<(Seq<char>, NodeView)> {
    entries.map_values(|e: CategoryEntry| (e.id@, e@))
}

pub open spec fn handle_pairs(entries: Seq<CategoryEntry>) -> Seq<
    (Seq<char>, Rc<RefCell<Category>>),
> {
    entries.map_values(|e: CategoryEntry| (e.id@, e.node))
}

pub open spec fn name_pairs(links: Seq<NameLink>) -> Seq<(Seq<char>, Seq<char>)> {
    links.map_values(|l: NameLink| (l.name@, l.id@))
}

/// Converts source category records, one at a time and in arrival order, into
/// a tree of category nodes.
pub struct SourceCategoryConverter {
    categories: Vec<CategoryEntry>,
    name_links: Vec<NameLink>,
    root: Vec<CategoryEntry>,
}

impl View for SourceCategoryConverter {
    type V = ConverterView;

    closed spec fn view(&self) -> ConverterView {
        ConverterView {
            categories: keyed_map(category_pairs(self.categories@)),
            names: keyed_map(name_pairs(self.name_links@)),
            root: self.root@.map_values(|e: CategoryEntry| e@),
        }
    }
}

impl SourceCategoryConverter {
    /// Ids are unique in the identifier table, and names in the name table.
    pub closed spec fn wf(&self) -> bool {
        &&& keys_unique(category_pairs(self.categories@))
        &&& keys_unique(name_pairs(self.name_links@))
    }

    /// The node handle stored under each id.
    pub closed spec fn handles(&self) -> Map<Seq<char>, Rc<RefCell<Category>>> {
        keyed_map(handle_pairs(self.categories@))
    }

    /// The node handles of the root list, in order.
    pub closed spec fn root_handles(&self) -> Seq<Rc<RefCell<Category>>> {
        self.root@.map_values(|e: CategoryEntry| e.node)
    }

    /// Starts a conversion session with empty tables.
    pub fn new() -> (r: SourceCategoryConverter)
        ensures
            r.wf(),
            r@ == ConverterView::empty(),
            r.handles() == Map::<Seq<char>, Rc<RefCell<Category>>>::empty(),
            r.root_handles() == Seq::<Rc<RefCell<Category>>>::empty(),
    {
        let r = SourceCategoryConverter {
            categories: Vec::new(),
            name_links: Vec::new(),
            root: Vec::new(),
        };
        proof {
            assert(r@.categories =~= Map::empty());
            assert(r@.names =~= Map::empty());
            assert(r@.root =~= Seq::empty());
            assert(r.handles() =~= Map::empty());
            assert(r.root_handles() =~= Seq::empty());
        }
        r
    }

    /// The position of `name` in the name table.
    fn find_name(&self, name: &String) -> (r: Option<usize>)
        ensures
            match r {
                Some(i) => i < self.name_links@.len() && self.name_links@[i as int].name@ == name@,
                None => forall|i: int|
                    0 <= i < self.name_links@.len() ==> self.name_links@[i].name@ != name@,
            },
    {
        let mut i: usize = 0;
        while i < self.name_links.len()
            invariant
                i <= self.name_links@.len(),
                forall|j: int| 0 <= j < i ==> self.name_links@[j].name@ != name@,
            decreases self.name_links@.len() - i,
        {
            if self.name_links[i].name == *name {
                return Some(i);
            }
            i += 1;
        }
        None
    }

    /// The position of `id` in the identifier table.
    fn find_category(&self, id: &String) -> (r: Option<usize>)
        ensures
            match r {
                Some(i) => i < self.categories@.len() && self.categories@[i as int].id@ == id@,
                None => forall|i: int|
                    0 <= i < self.categories@.len() ==> self.categories@[i].id@ != id@,
            },
    {
        let mut i: usize = 0;
        while i < self.categories.len()
            invariant
                i <= self.categories@.len(),
                forall|j: int| 0 <= j < i ==> self.categories@[j].id@ != id@,
            decreases self.categories@.len() - i,
        {
            if self.categories[i].id == *id {
                return Some(i);
            }
            i += 1;
        }
        None
    }

    /// Links `name` with `id`, replacing an earlier link of the same name.
    fn register_name(&mut self, name: String, id: String)
        requires
            old(self).wf(),
        ensures
            final(self).wf(),
            final(self)@ == (ConverterView {
                categories: old(self)@.categories,
                names: old(self)@.names.insert(name@, id@),
                root: old(self)@.root,
            }),
            final(self).handles() == old(self).handles(),
            final(self).root_handles() == old(self).root_handles(),
    {
        let ghost pairs = name_pairs(self.name_links@);
        let ghost key = name@;
        let ghost value = id@;
        match self.find_name(&name) {
            Some(i) => {
                proof {
                    lemma_keyed_update(pairs, i as int, value);
                }
                self.name_links.set(i, NameLink { name, id });
                assert(name_pairs(self.name_links@) =~= pairs.update(i as int, (key, value)));
            },
            None => {
                proof {
                    lemma_keyed_push(pairs, key, value);
                }
                self.name_links.push(NameLink { name, id });
                assert(name_pairs(self.name_links@) =~= pairs.push((key, value)));
            },
        }
    }

    /// Stores `entry` under its id, replacing an earlier entry of the same id.
    fn insert_category(&mut self, entry: CategoryEntry)
        requires
            old(self).wf(),
        ensures
            final(self).wf(),
            final(self)@ == (ConverterView {
                categories: old(self)@.categories.insert(entry.id@, entry@),
                names: old(self)@.names,
                root: old(self)@.root,
            }),
            final(self).handles() == old(self).handles().insert(entry.id@, entry.node),
            final(self).root_handles() == old(self).root_handles(),
    {
        let ghost nodes = category_pairs(self.categories@);
        let ghost handles = handle_pairs(self.categories@);
        let ghost key = entry.id@;
        let ghost node = entry@;
        let ghost handle = entry.node;
        match self.find_category(&entry.id) {
            Some(i) => {
                proof {
                    lemma_keyed_update(nodes, i as int, node);
                    self.lemma_handles_unique();
                    lemma_keyed_update(handles, i as int, handle);
                }
                self.categories.set(i, entry);
                assert(category_pairs(self.categories@) =~= nodes.update(i as int, (key, node)));
                assert(handle_pairs(self.categories@) =~= handles.update(i as int, (key, handle)));
            },
            None => {
                proof {
                    lemma_keyed_push(nodes, key, node);
                    self.lemma_handles_unique();
                    lemma_keyed_push(handles, key, handle);
                }
                self.categories.push(entry);
                assert(category_pairs(self.categories@) =~= nodes.push((key, node)));
                assert(handle_pairs(self.categories@) =~= handles.push((key, handle)));
            },
        }
    }
}

/// Linking a record's name twice is linking it once.
proof fn lemma_register_twice(s: ConverterView, record: RecordView)
    ensures
        s.register(record).register(record) == s.register(record),
{
    if let Some(id) = record.id {
        assert(s.names.insert(record.name, id).insert(record.name, id) =~= s.names.insert(
            record.name,
            id,
        ));
    }
}

fn missing_id_error(name: &String) -> (r: Error)
    ensures
        r.kind == ErrorKind::MissingId,
        r.message@ == missing_id_message(name@),
{
    let mut message = String::from_str("source category '");
    message.append(name.as_str());
    message.append("' has no id");
    Error { kind: ErrorKind::MissingId, message }
}

fn unlinked_name_error(name: &String) -> (r: Error)
    ensures
        r.kind == ErrorKind::IdNotFound,
        r.message@ == unlinked_name_message(name@),
{
    let mut message = String::from_str("category name '");
    message.append(name.as_str());
    message.append("' is not linked with an id");
    Error { kind: ErrorKind::IdNotFound, message }
}

fn unread_parent_error(id: &String) -> (r: Error)
    ensures
        r.kind == ErrorKind::ParentNotAvailable,
        r.message@ == unread_parent_message(id@),
{
    let mut message = String::from_str("parent '");
    message.append(id.as_str());
    message.append("' has not been read yet");
    Error { kind: ErrorKind::ParentNotAvailable, message }
}

impl SourceCategoryConverter {
    /// What converting `record` from the state `self` may end in: `r` returned
    /// and the converter left as `after`.
    pub open spec fn conversion_outcome(
        &self,
        record: RecordView,
        r: Result<Rc<RefCell<Category>>, Error>,
        after: SourceCategoryConverter,
    ) -> bool {
        let s = self@;
        &&& after.wf()
        &&& match s.rejection(record) {
            Some(kind) => {
                &&& r matches Err(e) && e.kind == kind
                &&& s.rejection_message(record) matches Some(m) ==> r->Err_0.message@ == m
                &&& after@ == s.register(record)
                &&& after.handles() == self.handles()
                &&& after.root_handles() == self.root_handles()
            },
            None => match r {
                Ok(node) => {
                    &&& after@ == s.accept(record)
                    &&& after.handles() == self.handles().insert(record.id->Some_0, node)
                    &&& after.root_handles() == if record.parent_name is None {
                        self.root_handles().push(node)
                    } else {
                        self.root_handles()
                    }
                },
                // the definitions library may refuse to attach a child
                Err(e) => {
                    &&& record.parent_name is Some
                    &&& e.kind == ErrorKind::ParentNotAvailable || e.kind
                        == ErrorKind::FailedToBorrowCategory
                    &&& after@ == s.register(record)
                    &&& after.handles() == self.handles()
                    &&& after.root_handles() == self.root_handles()
                },
            },
        }
    }

    /// Converts one source category record, in arrival order: links its name
    /// with its id, then builds its node, at the top level or under the node of
    /// the category that its `parent_name` names.
    pub fn convert(&mut self, source_category: SourceCategory) -> (r: Result<
        Rc<RefCell<Category>>,
        Error,
    >)
        requires
            old(self).wf(),
        ensures
            old(self).conversion_outcome(record_view(source_category), r, *final(self)),
    {
        let ghost record = record_view(source_category);
        let id = match &source_category.id {
            Some(id) => id.clone(),
            None => {
                return Err(missing_id_error(&source_category.name));
            },
        };
        self.register_name(source_category.name.clone(), id);
        proof {
            lemma_register_twice(old(self)@, record);
        }
        self.convert_source_category_to_category(source_category)
    }

    fn convert_source_category_to_category(&mut self, source_category: SourceCategory) -> (r:
        Result<Rc<RefCell<Category>>, Error>)
        requires
            old(self).wf(),
            old(self)@.register(record_view(source_category)) == old(self)@,
        ensures
            old(self).conversion_outcome(record_view(source_category), r, *final(self)),
    {
        match &source_category.id {
            Some(_) => match &source_category.parent_name {
                Some(_) => self.create_category_from_source_with_parent(source_category),
                None => self.create_category_from_source(source_category),
            },
            None => Err(missing_id_error(&source_category.name)),
        }
    }

    fn create_category_from_source(&mut self, source_category: SourceCategory) -> (r: Result<
        Rc<RefCell<Category>>,
        Error,
    >)
        requires
            old(self).wf(),
            old(self)@.register(record_view(source_category)) == old(self)@,
            source_category.id is Some,
            source_category.parent_name is None,
        ensures
            old(self).conversion_outcome(record_view(source_category), r, *final(self)),
    {
        let ghost record = record_view(source_category);
        let id = source_category.id.unwrap();
        let attributes = match SourceAttribute::to_attributes(
            source_category.attributes.as_slice(),
        ) {
            Ok(attributes) => attributes,
            Err(error) => return Err(Error::from(error)),
        };
        let selectable_as_last = source_category.selectable_as_last.unwrap_or(false);
        let name = source_category.name;
        let category = Category::new(id.clone(), name.clone(), selectable_as_last, attributes);
        let entry = CategoryEntry {
            id: id.clone(),
            name: name.clone(),
            selectable_as_last,
            parent_id: None,
            node: share(&category),
        };
        assert(entry@ == old(self)@.node_for(record));
        self.insert_category(entry);
        let ghost before_push = self.root@;
        self.root.push(
            CategoryEntry { id, name, selectable_as_last, parent_id: None, node: share(&category) },
        );
        proof {
            assert(self.root@ == before_push.push(self.root@.last()));
            assert(self@.root =~= old(self)@.root.push(old(self)@.node_for(record)));
            assert(self.root_handles() =~= old(self).root_handles().push(category));
        }
        Ok(category)
    }

    fn create_category_from_source_with_parent(&mut self, source_category: SourceCategory) -> (r:
        Result<Rc<RefCell<Category>>, Error>)
        requires
            old(self).wf(),
            old(self)@.register(record_view(source_category)) == old(self)@,
            source_category.id is Some,
        ensures
            source_category.parent_name is None ==> (r matches Err(e) && e.kind
                == ErrorKind::ParentNotFound && *final(self) == *old(self)),
            source_category.parent_name is Some ==> old(self).conversion_outcome(
                record_view(source_category),
                r,
                *final(self),
            ),
    {
        let ghost record = record_view(source_category);
        let id = source_category.id.unwrap();
        if source_category.parent_name.is_none() {
            return Err(Error::new(ErrorKind::ParentNotFound, "unexpected parentless source category"));
        }
        let parent_name = source_category.parent_name.unwrap();
        let parent_id = match self.find_name(&parent_name) {
            Some(i) => {
                proof {
                    lemma_keyed_lookup(name_pairs(self.name_links@), i as int);
                }
                self.name_links[i].id.clone()
            },
            None => {
                proof {
                    lemma_keyed_absent(name_pairs(self.name_links@), parent_name@);
                }
                return Err(unlinked_name_error(&parent_name));
            },
        };
        match self.find_category(&parent_id) {
            Some(j) => {
                proof {
                    lemma_keyed_lookup(category_pairs(self.categories@), j as int);
                }
                let attributes = match SourceAttribute::to_attributes(
                    source_category.attributes.as_slice(),
                ) {
                    Ok(attributes) => attributes,
                    Err(error) => return Err(Error::from(error)),
                };
                let selectable_as_last = source_category.selectable_as_last.unwrap_or(false);
                let name = source_category.name;
                match new_category_into_parent(
                    id.clone(),
                    &self.categories[j].node,
                    name.clone(),
                    selectable_as_last,
                    attributes,
                ) {
                    Ok(category) => {
                        let entry = CategoryEntry {
                            id,
                            name,
                            selectable_as_last,
                            parent_id: Some(parent_id),
                            node: share(&category),
                        };
                        assert(entry@ == old(self)@.node_for(record));
                        self.insert_category(entry);
                        Ok(category)
                    },
                    Err(error) => Err(Error::from(error)),
                }
            },
            None => {
                proof {
                    lemma_keyed_absent(category_pairs(self.categories@), parent_id@);
                }
                Err(unread_parent_error(&parent_id))
            },
        }
    }
}

impl SourceCategoryConverter {
    /// Every id of the identifier table is the id of the node stored under it.
    pub proof fn lemma_keys_are_node_ids(&self)
        requires
            self.wf(),
        ensures
            forall|k: Seq<char>| #[trigger]
                self@.categories.contains_key(k) ==> self@.categories[k].id == k,
    {
        let pairs = category_pairs(self.categories@);
        assert forall|k: Seq<char>| #[trigger] self@.categories.contains_key(k) implies self@.categories[k].id == k by {
            let i = choose|i: int| 0 <= i < pairs.len() && pairs[i].0 == k;
            lemma_keyed_lookup(pairs, i);
        }
    }
}

impl SourceCategoryConverter {
    /// The identifier table: one entry per id.
    pub fn categories(&self) -> (r: &Vec<CategoryEntry>)
        requires
            self.wf(),
        ensures
            keys_unique(category_pairs(r@)),
            keyed_map(category_pairs(r@)) == self@.categories,
            keyed_map(handle_pairs(r@)) == self.handles(),
    {
        &self.categories
    }

    /// The top-level nodes, in arrival order.
    pub fn root(&self) -> (r: &Vec<CategoryEntry>)
        ensures
            r@.map_values(|e: CategoryEntry| e@) == self@.root,
            r@.map_values(|e: CategoryEntry| e.node) == self.root_handles(),
    {
        &self.root
    }

    /// The entry stored under `id`.
    pub fn category(&self, id: &String) -> (r: Option<&CategoryEntry>)
        requires
            self.wf(),
        ensures
            r is Some <==> self@.categories.contains_key(id@),
            r matches Some(e) ==> e@ == self@.categories[id@] && e.node == self.handles()[id@],
    {
        match self.find_category(id) {
            Some(i) => {
                proof {
                    lemma_keyed_lookup(category_pairs(self.categories@), i as int);
                    self.lemma_handles_unique();
                    lemma_keyed_lookup(handle_pairs(self.categories@), i as int);
                }
                Some(&self.categories[i])
            },
            None => {
                proof {
                    lemma_keyed_absent(category_pairs(self.categories@), id@);
                }
                None
            },
        }
    }

    /// The id that `name` is linked with.
    pub fn linked_id(&self, name: &String) -> (r: Option<&String>)
        requires
            self.wf(),
        ensures
            r is Some <==> self@.names.contains_key(name@),
            r matches Some(id) ==> id@ == self@.names[name@],
    {
        match self.find_name(name) {
            Some(i) => {
                proof {
                    lemma_keyed_lookup(name_pairs(self.name_links@), i as int);
                }
                Some(&self.name_links[i].id)
            },
            None => {
                proof {
                    lemma_keyed_absent(name_pairs(self.name_links@), name@);
                }
                None
            },
        }
    }

    proof fn lemma_handles_unique(&self)
        requires
            self.wf(),
        ensures
            keys_unique(handle_pairs(self.categories@)),
    {
        let nodes = category_pairs(self.categories@);
        let handles = handle_pairs(self.categories@);
        assert forall|a: int, b: int|
            0 <= a < handles.len() && 0 <= b < handles.len() && a != b implies handles[a].0
            != handles[b].0 by {
            assert(handles[a].0 == nodes[a].0 && handles[b].0 == nodes[b].0);
        }
    }
}

} // verus!
