use vstd::prelude::*;
use crate::value::DynamicValue;

verus! {

/// The contents of a heap item.
#[derive(Debug)]
pub enum SpecialItemData {
    Text(String),
    List(Vec<DynamicValue>),
}

/// What a heap item holds, as a mathematical value.
pub enum ItemValue {
    Text(Seq<char>),
    List(Seq<DynamicValue>),
}

impl View for SpecialItemData {
    type V = ItemValue;

    open spec fn view(&self) -> ItemValue {
        match self {
            SpecialItemData::Text(s) => ItemValue::Text(s@),
            SpecialItemData::List(l) => ItemValue::List(l@),
        }
    }
}

impl SpecialItemData {
    pub fn try_into_str(&self) -> (r: Option<&str>)
        ensures
            self is Text <==> r is Some,
            r matches Some(s) ==> self@ == ItemValue::Text(s@),
    {
        match self {
            SpecialItemData::Text(s) => Some(s.as_str()),
            _ => None,
        }
    }

    pub fn try_into_str_mut(&mut self) -> (r: Option<&mut String>)
        ensures
            *old(self) is Text <==> r is Some,
            r matches Some(s) ==> *old(self) == SpecialItemData::Text(*s) && *final(self)
                == SpecialItemData::Text(*final(s)),
            r is None ==> *final(self) == *old(self),
    {
        match self {
            SpecialItemData::Text(s) => Some(s),
            _ => None,
        }
    }

    pub fn try_into_list(&self) -> (r: Option<&Vec<DynamicValue>>)
        ensures
            self is List <==> r is Some,
            r matches Some(l) ==> self@ == ItemValue::List(l@),
    {
        match self {
            SpecialItemData::List(l) => Some(l),
            _ => None,
        }
    }

    pub fn try_into_list_mut(&mut self) -> (r: Option<&mut Vec<DynamicValue>>)
        ensures
            *old(self) is List <==> r is Some,
            r matches Some(l) ==> *old(self) == SpecialItemData::List(*l) && *final(self)
                == SpecialItemData::List(*final(l)),
            r is None ==> *final(self) == *old(self),
    {
        match self {
            SpecialItemData::List(l) => Some(l),
            _ => None,
        }
    }
}

/// A reference-counted heap item.
#[derive(Debug)]
pub struct SpecialItem {
    data: SpecialItemData,
    item_id: u64,
    ref_count: u64,
}

/// A heap item as a mathematical value.
pub struct ItemModel {
    pub data: ItemValue,
    pub id: u64,
    pub refs: u64,
}

impl View for SpecialItem {
    type V = ItemModel;

    closed spec fn view(&self) -> ItemModel {
        ItemModel { data: self.data@, id: self.item_id, refs: self.ref_count }
    }
}

impl SpecialItem {
    pub fn data(&self) -> (r: &SpecialItemData)
        ensures
            r@ == self@.data,
    {
        &self.data
    }

    pub fn item_id(&self) -> (r: u64)
        ensures
            r == self@.id,
    {
        self.item_id
    }

    pub fn ref_count(&self) -> (r: u64)
        ensures
            r == self@.refs,
    {
        self.ref_count
    }
}

/// The heap: every text and list, each under a handle that is never reused.
#[derive(Debug)]
pub struct SpecialStorage {
    items: Vec<SpecialItem>,
    next_item_id: u64,
}

/// The heap as a mathematical value: its items in order of allocation, and
/// the handle the next allocation receives.
pub struct StorageModel {
    pub items: Seq<ItemModel>,
    pub next_id: u64,
}

impl StorageModel {
    /// Handles increase strictly along the items and stay below the next one.
    pub open spec fn wf(self) -> bool {
        &&& forall|a: int, b: int|
            0 <= a < b < self.items.len() ==> #[trigger] self.items[a].id
                < #[trigger] self.items[b].id
        &&& forall|a: int| 0 <= a < self.items.len() ==> #[trigger] self.items[a].id < self.next_id
    }

    pub open spec fn contains(self, id: u64) -> bool {
        exists|i: int| 0 <= i < self.items.len() && #[trigger] self.items[i].id == id
    }

    /// Position of the item with handle `id` (meaningful when it is contained).
    pub open spec fn index(self, id: u64) -> int {
        choose|i: int| 0 <= i < self.items.len() && #[trigger] self.items[i].id == id
    }

    pub open spec fn item(self, id: u64) -> ItemModel {
        self.items[self.index(id)]
    }

    /// The text stored under `id`, if that item is a text.
    pub open spec fn text(self, id: u64) -> Option<Seq<char>> {
        if self.contains(id) {
            match self.item(id).data {
                ItemValue::Text(s) => Some(s),
                _ => None,
            }
        } else {
            None
        }
    }

    /// The list stored under `id`, if that item is a list.
    pub open spec fn list(self, id: u64) -> Option<Seq<DynamicValue>> {
        if self.contains(id) {
            match self.item(id).data {
                ItemValue::List(l) => Some(l),
                _ => None,
            }
        } else {
            None
        }
    }

    /// The heap after allocating `data` with the given count.
    pub open spec fn added(self, data: ItemValue, refs: u64) -> StorageModel {
        StorageModel {
            items: self.items.push(ItemModel { data, id: self.next_id, refs }),
            next_id: (self.next_id + 1) as u64,
        }
    }

    /// The heap after releasing one reference to `id`: unknown handles are
    /// ignored, an item whose count is at most one is removed.
    pub open spec fn decremented(self, id: u64) -> StorageModel {
        if !self.contains(id) {
            self
        } else if self.item(id).refs <= 1 {
            StorageModel { items: self.items.remove(self.index(id)), ..self }
        } else {
            let it = self.item(id);
            StorageModel {
                items: self.items.update(self.index(id), ItemModel { refs: (it.refs - 1) as u64, ..it }),
                ..self
            }
        }
    }

    /// The heap after taking one more reference to a contained `id`.
    pub open spec fn incremented(self, id: u64) -> StorageModel {
        let it = self.item(id);
        StorageModel {
            items: self.items.update(self.index(id), ItemModel { refs: (it.refs + 1) as u64, ..it }),
            ..self
        }
    }

    /// Whether taking one more reference to `id` succeeds.
    pub open spec fn can_increment(self, id: u64) -> bool {
        self.contains(id) && self.item(id).refs < u64::MAX
    }

    /// The heap with the data under a contained `id` replaced.
    pub open spec fn with_data(self, id: u64, data: ItemValue) -> StorageModel {
        let it = self.item(id);
        StorageModel { items: self.items.update(self.index(id), ItemModel { data, ..it }), ..self }
    }
}

impl View for SpecialStorage {
    type V = StorageModel;

    closed spec fn view(&self) -> StorageModel {
        StorageModel { items: items_view(self.items@), next_id: self.next_item_id }
    }
}

spec fn items_view(s: Seq<SpecialItem>) -> Seq<ItemModel> {
    Seq::new(s.len(), |i: int| s[i]@)
}

broadcast proof fn lemma_items_view_update(s: Seq<SpecialItem>, i: int, x: SpecialItem)
    requires
        0 <= i < s.len(),
    ensures
        #[trigger] items_view(s.update(i, x)) == items_view(s).update(i, x@),
{
    assert(items_view(s.update(i, x)) =~= items_view(s).update(i, x@));
}

impl SpecialStorage {
    pub fn new() -> (r: SpecialStorage)
        ensures
            r@.items.len() == 0,
            r@.next_id == 0,
            r@.wf(),
    {
        SpecialStorage { items: Vec::new(), next_item_id: 0 }
    }

    /// The handle the next allocation receives.
    pub fn next_id(&self) -> (r: u64)
        ensures
            r == self@.next_id,
    {
        self.next_item_id
    }

    /// Allocates an item and returns its handle.
    pub fn add(&mut self, data: SpecialItemData, ref_count: u64) -> (r: u64)
        requires
            old(self)@.wf(),
            old(self)@.next_id < u64::MAX,
        ensures
            r == old(self)@.next_id,
            final(self)@ == old(self)@.added(data@, ref_count),
            final(self)@.wf(),
    {
        let item_id = self.next_item_id;
        self.next_item_id = self.next_item_id + 1;
        let item = SpecialItem { data, item_id, ref_count };
        self.items.push(item);
        assert(self@.items =~= old(self)@.added(data@, ref_count).items);
        item_id
    }

    /// Position of the item with handle `id`.
    fn find(&self, id: u64) -> (r: Option<usize>)
        requires
            self@.wf(),
        ensures
            r is Some <==> self@.contains(id),
            r matches Some(i) ==> i == self@.index(id) && i < self@.items.len(),
    {
        let mut i: usize = 0;
        while i < self.items.len()
            invariant
                i <= self.items@.len(),
                self@.wf(),
                forall|j: int| 0 <= j < i ==> #[trigger] self@.items[j].id != id,
            decreases self.items@.len() - i,
        {
            if self.items[i].item_id == id {
                assert(self@.items[i as int].id == id);
                return Some(i);
            }
            i = i + 1;
        }
        None
    }

    /// Releases one reference to `id`. Unknown handles are ignored; an item
    /// whose count is at most one is removed.
    pub fn decrement_ref(&mut self, id: u64) -> (r: Result<(), crate::value::VmError>)
        requires
            old(self)@.wf(),
        ensures
            r is Ok,
            final(self)@ == old(self)@.decremented(id),
            final(self)@.wf(),
    {
        match self.find(id) {
            Some(i) => {
                if self.items[i].ref_count <= 1 {
                    self.items.remove(i);
                    assert(self@.items =~= old(self)@.items.remove(i as int));
                } else {
                    self.items[i].ref_count = self.items[i].ref_count - 1;
                    assert(self@.items =~= old(self)@.decremented(id).items);
                }
            },
            None => {},
        }
        Ok(())
    }

    /// Takes one more reference to `id`; fails for an unknown handle or a
    /// count that cannot grow.
    pub fn increment_ref(&mut self, id: u64) -> (r: Result<(), crate::value::VmError>)
        requires
            old(self)@.wf(),
        ensures
            r is Ok <==> old(self)@.can_increment(id),
            r is Ok ==> final(self)@ == old(self)@.incremented(id),
            r is Err ==> final(self)@ == old(self)@ && r == Err::<(), _>(
                crate::value::VmError::ResourceError,
            ),
            final(self)@.wf(),
    {
        match self.find(id) {
            Some(i) => {
                if self.items[i].ref_count == u64::MAX {
                    return Err(crate::value::VmError::ResourceError);
                }
                self.items[i].ref_count = self.items[i].ref_count + 1;
                assert(self@.items =~= old(self)@.incremented(id).items);
                Ok(())
            },
            None => Err(crate::value::VmError::ResourceError),
        }
    }

    pub fn get_ref(&self, id: u64) -> (r: Option<&SpecialItem>)
        requires
            self@.wf(),
        ensures
            r is Some <==> self@.contains(id),
            r matches Some(it) ==> it@ == self@.item(id),
    {
        match self.find(id) {
            Some(i) => Some(&self.items[i]),
            None => None,
        }
    }

    /// The item stored under `id`, for changing in place; a caller that
    /// changes its handle takes on keeping the heap well formed.
    pub fn get_mut(&mut self, id: u64) -> (r: Option<&mut SpecialItem>)
        requires
            old(self)@.wf(),
        ensures
            r is Some <==> old(self)@.contains(id),
            r matches Some(it) ==> it@ == old(self)@.item(id) && final(self)@ == (StorageModel {
                items: old(self)@.items.update(old(self)@.index(id), final(it)@),
                ..old(self)@
            }),
            r is None ==> final(self)@ == old(self)@,
    {
        match self.find(id) {
            Some(i) => {
                proof {
                    broadcast use lemma_items_view_update;
                }
                Some(&mut self.items[i])
            },
            None => None,
        }
    }

    pub fn get_data_ref(&self, id: u64) -> (r: Option<&SpecialItemData>)
        requires
            self@.wf(),
        ensures
            r is Some <==> self@.contains(id),
            r matches Some(d) ==> d@ == self@.item(id).data,
    {
        match self.find(id) {
            Some(i) => Some(&self.items[i].data),
            None => None,
        }
    }

    pub fn get_data_mut(&mut self, id: u64) -> (r: Option<&mut SpecialItemData>)
        requires
            old(self)@.wf(),
        ensures
            r is Some <==> old(self)@.contains(id),
            r matches Some(d) ==> d@ == old(self)@.item(id).data && final(self)@ == old(
                self,
            )@.with_data(id, final(d)@) && final(self)@.wf(),
            r is None ==> final(self)@ == old(self)@,
    {
        match self.find(id) {
            Some(i) => {
                proof {
                    broadcast use lemma_items_view_update;
                }
                Some(&mut self.items[i].data)
            },
            None => None,
        }
    }

    /// The elements of the list stored under `id`, for changing in place.
    pub fn list_mut(&mut self, id: u64) -> (r: Option<&mut Vec<DynamicValue>>)
        requires
            old(self)@.wf(),
        ensures
            r is Some <==> old(self)@.list(id) is Some,
            r matches Some(l) ==> l@ == old(self)@.list(id)->Some_0 && final(self)@ == old(
                self,
            )@.with_data(id, ItemValue::List(final(l)@)) && final(self)@.wf(),
            r is None ==> final(self)@ == old(self)@,
    {
        match self.find(id) {
            Some(i) => {
                if !matches!(self.items[i].data, SpecialItemData::List(_)) {
                    return None;
                }
                proof {
                    broadcast use lemma_items_view_update;
                }
                match &mut self.items[i].data {
                    SpecialItemData::List(l) => Some(l),
                    _ => None,
                }
            },
            None => None,
        }
    }
}

} // verus!
