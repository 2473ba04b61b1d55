use vstd::prelude::*;

use crate::rpc::RPCDefinitionData;
use crate::value::{model_type, EntryType, EntryValue, ValueModel};

verus! {

/// Why a store operation was refused.
#[derive(Debug, Clone, Copy, PartialEq, Eq, Structural)]
pub enum StoreError {
    /// No live entry has the identifier.
    NotFound,
    /// The value's kind differs from the entry's declared type.
    TypeMismatch,
    /// Every identifier is taken.
    Full,
}

/// The identifier that the protocol reserves for "not assigned yet"; the
/// store never hands it out.
pub const UNASSIGNED_ID: u16 = 0xFFFF;

/// One row of the table.
#[derive(Debug)]
pub struct EntryData {
    pub name: String,
    pub entry_type: EntryType,
    pub value: EntryValue,
}

/// The content of a row.
pub struct EntryModel {
    pub name: Seq<char>,
    pub ty: EntryType,
    pub value: ValueModel,
}

pub open spec fn row_model(r: Option<EntryData>) -> Option<EntryModel> {
    match r {
        Some(e) => Some(EntryModel { name: e.name@, ty: e.entry_type, value: e.value@ }),
        None => None,
    }
}

/// The entry table: the row of identifier `i` stands at index `i`; a
/// deleted entry leaves `None` behind, so identifiers are never reused.
pub struct EntryStore {
    rows: Vec<Option<EntryData>>,
}

impl View for EntryStore {
    type V = Seq<Option<EntryModel>>;

    closed spec fn view(&self) -> Seq<Option<EntryModel>> {
        self.rows@.map_values(|r: Option<EntryData>| row_model(r))
    }
}

/// A row whose value has the row's declared kind.
pub open spec fn row_ok(r: Option<EntryModel>) -> bool {
    r matches Some(e) ==> model_type(e.value) == e.ty
}

/// Whether `id` names a live entry of `rows`.
pub open spec fn live(rows: Seq<Option<EntryModel>>, id: u16) -> bool {
    id < rows.len() && rows[id as int] is Some
}

/// Writes to two different entries touch nothing else and do not depend
/// on their order: each entry ends with the value last written to it.
pub proof fn lemma_distinct_writes_commute(
    rows: Seq<Option<EntryModel>>,
    a: u16,
    x: Option<EntryModel>,
    b: u16,
    y: Option<EntryModel>,
)
    requires
        a != b,
        a < rows.len(),
        b < rows.len(),
    ensures
        rows.update(a as int, x).update(b as int, y) == rows.update(b as int, y).update(a as int, x),
        rows.update(a as int, x).update(b as int, y)[a as int] == x,
        rows.update(a as int, x).update(b as int, y)[b as int] == y,
        forall|c: int|
            0 <= c < rows.len() && c != a && c != b ==> #[trigger] rows.update(a as int, x).update(
                b as int,
                y,
            )[c] == rows[c],
{
    assert(rows.update(a as int, x).update(b as int, y) =~= rows.update(b as int, y).update(a as int, x));
}

impl EntryStore {
    /// Every row holds a value of its declared kind, and the table never
    /// reaches the reserved identifier.
    pub open spec fn wf(&self) -> bool {
        &&& self@.len() <= UNASSIGNED_ID
        &&& forall|i: int| 0 <= i < self@.len() ==> row_ok(#[trigger] self@[i])
    }

    /// An empty table.
    pub fn new() -> (r: EntryStore)
        ensures
            r.wf(),
            r@.len() == 0,
    {
        let r = EntryStore { rows: Vec::new() };
        assert(r@ =~= Seq::<Option<EntryModel>>::empty());
        r
    }

    /// Adds an entry under a fresh identifier, the lowest never handed out.
    pub fn create_entry(&mut self, name: String, entry_type: EntryType, value: EntryValue) -> (r: Result<u16, StoreError>)
        requires
            old(self).wf(),
        ensures
            final(self).wf(),
            model_type(value@) != entry_type ==> r == Err::<u16, StoreError>(StoreError::TypeMismatch) && final(self)@ == old(self)@,
            model_type(value@) == entry_type && old(self)@.len() >= UNASSIGNED_ID ==> r == Err::<u16, StoreError>(StoreError::Full) && final(self)@ == old(self)@,
            model_type(value@) == entry_type && old(self)@.len() < UNASSIGNED_ID ==> {
                &&& r == Ok::<u16, StoreError>(old(self)@.len() as u16)
                &&& final(self)@ == old(self)@.push(Some(EntryModel { name: name@, ty: entry_type, value: value@ }))
            },
    {
        if value.entry_type() != entry_type {
            return Err(StoreError::TypeMismatch);
        }
        if self.rows.len() >= UNASSIGNED_ID as usize {
            return Err(StoreError::Full);
        }
        let id = self.rows.len() as u16;
        let ghost before = self@;
        self.rows.push(Some(EntryData { name, entry_type, value }));
        assert(self@ =~= before.push(Some(EntryModel { name: name@, ty: entry_type, value: value@ })));
        Ok(id)
    }

    /// Whether `id` names a live entry.
    pub fn contains(&self, id: u16) -> (r: bool)
        ensures
            r == live(self@, id),
    {
        (id as usize) < self.rows.len() && self.rows[id as usize].is_some()
    }

    /// A copy of the current value of entry `id`, if it lives.
    pub fn value(&self, id: u16) -> (r: Option<EntryValue>)
        ensures
            r is Some <==> live(self@, id),
            r is Some ==> r->0@ == self@[id as int]->0.value,
    {
        if (id as usize) < self.rows.len() {
            match &self.rows[id as usize] {
                Some(e) => Some(e.value.deep_clone()),
                None => None,
            }
        } else {
            None
        }
    }

    /// The declared type of entry `id`, if it lives.
    pub fn entry_type(&self, id: u16) -> (r: Option<EntryType>)
        ensures
            r is Some <==> live(self@, id),
            r is Some ==> r->0 == self@[id as int]->0.ty,
    {
        if (id as usize) < self.rows.len() {
            match &self.rows[id as usize] {
                Some(e) => Some(e.entry_type),
                None => None,
            }
        } else {
            None
        }
    }

    /// The name of entry `id`, if it lives.
    pub fn name(&self, id: u16) -> (r: Option<String>)
        ensures
            r is Some <==> live(self@, id),
            r is Some ==> r->0@ == self@[id as int]->0.name,
    {
        if (id as usize) < self.rows.len() {
            match &self.rows[id as usize] {
                Some(e) => Some(e.name.clone()),
                None => None,
            }
        } else {
            None
        }
    }

    /// Replaces the value of entry `id`, in place.
    fn overwrite(&mut self, id: u16, value: EntryValue)
        requires
            old(self).wf(),
            live(old(self)@, id),
            model_type(value@) == old(self)@[id as int]->0.ty,
        ensures
            final(self).wf(),
            final(self)@ == old(self)@.update(
                id as int,
                Some(EntryModel { value: value@, ..old(self)@[id as int]->0 }),
            ),
    {
        let ghost before = self@;
        let i = id as usize;
        let row = self.rows[i].take();
        let e = row.unwrap();
        self.rows.set(i, Some(EntryData { name: e.name, entry_type: e.entry_type, value }));
        assert(self@ =~= before.update(
            id as int,
            Some(EntryModel { value: value@, ..before[id as int]->0 }),
        ));
    }

    /// Sets the value of entry `id` from the application side. The value's
    /// kind must be the entry's declared type; other entries are untouched.
    pub fn set_value(&mut self, id: u16, value: EntryValue) -> (r: Result<(), StoreError>)
        requires
            old(self).wf(),
        ensures
            final(self).wf(),
            !live(old(self)@, id) ==> r == Err::<(), StoreError>(StoreError::NotFound),
            live(old(self)@, id) && model_type(value@) != old(self)@[id as int]->0.ty ==> r == Err::<(), StoreError>(StoreError::TypeMismatch),
            r is Err ==> final(self)@ == old(self)@,
            r is Ok ==> final(self)@ == old(self)@.update(
                id as int,
                Some(EntryModel { value: value@, ..old(self)@[id as int]->0 }),
            ),
            live(old(self)@, id) && model_type(value@) == old(self)@[id as int]->0.ty ==> r is Ok,
    {
        match self.entry_type(id) {
            None => Err(StoreError::NotFound),
            Some(t) => {
                if value.entry_type() != t {
                    return Err(StoreError::TypeMismatch);
                }
                self.overwrite(id, value);
                Ok(())
            },
        }
    }

    /// Applies a value that arrived from the network: overwrites entry `id`
    /// if it lives and the kind matches, and reports whether it did.
    pub fn apply_inbound_update(&mut self, id: u16, value: EntryValue) -> (r: bool)
        requires
            old(self).wf(),
        ensures
            final(self).wf(),
            r == (live(old(self)@, id) && model_type(value@) == old(self)@[id as int]->0.ty),
            r ==> final(self)@ == old(self)@.update(
                id as int,
                Some(EntryModel { value: value@, ..old(self)@[id as int]->0 }),
            ),
            !r ==> final(self)@ == old(self)@,
    {
        match self.set_value(id, value) {
            Ok(()) => true,
            Err(_) => false,
        }
    }

    /// Removes entry `id`; its identifier is not handed out again.
    pub fn delete_entry(&mut self, id: u16) -> (r: bool)
        requires
            old(self).wf(),
        ensures
            final(self).wf(),
            r == live(old(self)@, id),
            r ==> final(self)@ == old(self)@.update(id as int, None),
            !r ==> final(self)@ == old(self)@,
    {
        if !self.contains(id) {
            return false;
        }
        let ghost before = self@;
        self.rows.set(id as usize, None);
        assert(self@ =~= before.update(id as int, None));
        true
    }

    /// The procedure definition held by entry `id`, if it lives and holds one.
    pub fn lookup_definition(&self, id: u16) -> (r: Option<RPCDefinitionData>)
        ensures
            r is Some <==> live(self@, id) && self@[id as int]->0.value is RPCDefinition,
            r is Some ==> r->0@ == self@[id as int]->0.value->RPCDefinition_0,
    {
        if (id as usize) < self.rows.len() {
            match &self.rows[id as usize] {
                Some(e) => match &e.value {
                    EntryValue::RPCDefinition(d) => Some(d.deep_clone()),
                    _ => None,
                },
                None => None,
            }
        } else {
            None
        }
    }

    /// Stores a procedure definition that arrived from the network in entry
    /// `id`, if it lives and is declared as a definition; reports whether it
    /// did.
    pub fn register_definition(&mut self, id: u16, definition: RPCDefinitionData) -> (r: bool)
        requires
            old(self).wf(),
        ensures
            final(self).wf(),
            r == (live(old(self)@, id) && old(self)@[id as int]->0.ty == EntryType::RPCDefinition),
            r ==> final(self)@ == old(self)@.update(
                id as int,
                Some(EntryModel { value: ValueModel::RPCDefinition(definition@), ..old(self)@[id as int]->0 }),
            ),
            !r ==> final(self)@ == old(self)@,
    {
        self.apply_inbound_update(id, EntryValue::RPCDefinition(definition))
    }
}

} // verus!
