use vstd::prelude::*;

use crate::world::chunk::Material;

verus! {

pub const HOTBAR_SIZE: usize = 9;
pub const BACKPACK_SIZE: usize = 27;
pub const TOTAL_SLOTS: usize = 36;

#[derive(Clone, Copy, Debug, PartialEq, Eq, Hash, Structural)]
pub enum ToolType {
    Pickaxe,
    Sword,
    Shield,
    Armor,
}

#[derive(Clone, Copy, Debug, PartialEq, Eq, Hash, Structural)]
pub enum SpellType {
    Fireball,
    Freeze,
    Lightning,
}

#[derive(Clone, Copy, Debug, PartialEq, Eq, Hash, Structural)]
pub enum ConsumableType {
    Bomb,
    HealPotion,
}

#[derive(Clone, Copy, Debug, PartialEq, Eq, Hash, Structural)]
pub enum ItemType {
    Block(Material),
    Tool(ToolType),
    Spell(SpellType),
    Consumable(ConsumableType),
}

/// A slot's contents: an item type and how many of it, or nothing.
#[derive(Clone, Copy, Debug, PartialEq, Eq, Structural)]
pub struct ItemStack {
    pub item_type: Option<ItemType>,
    pub count: u32,
}

pub open spec fn empty_stack() -> ItemStack {
    ItemStack { item_type: None, count: 0 }
}

impl ItemStack {
    pub fn empty() -> (r: ItemStack)
        ensures
            r == empty_stack(),
    {
        ItemStack { item_type: None, count: 0 }
    }

    pub fn new(item_type: ItemType, count: u32) -> (r: ItemStack)
        ensures
            r == (ItemStack { item_type: Some(item_type), count }),
    {
        ItemStack { item_type: Some(item_type), count }
    }

    pub fn is_empty(&self) -> (r: bool)
        ensures
            r == (self.item_type is None),
    {
        self.item_type.is_none()
    }

    pub fn default() -> (r: ItemStack)
        ensures
            r == empty_stack(),
    {
        ItemStack::empty()
    }
}

/// The first slot at or after `i` whose item type is `t`, or the number of
/// slots when there is none.
pub open spec fn first_of_type(s: Seq<ItemStack>, t: Option<ItemType>, i: int) -> int
    decreases s.len() - i,
{
    if i >= s.len() || i < 0 {
        s.len() as int
    } else if s[i].item_type == t {
        i
    } else {
        first_of_type(s, t, i + 1)
    }
}

/// The slot that `add_item` puts `item` into: the first one already holding
/// it, else the first empty one; the number of slots when neither exists.
pub open spec fn add_target(s: Seq<ItemStack>, item: ItemType) -> int {
    if first_of_type(s, Some(item), 0) < s.len() {
        first_of_type(s, Some(item), 0)
    } else {
        first_of_type(s, None, 0)
    }
}

/// How many of item `t` the first `n` slots hold together.
pub open spec fn total_in(s: Seq<ItemStack>, t: ItemType, n: int) -> int
    decreases n,
{
    if n <= 0 {
        0
    } else {
        total_in(s, t, n - 1) + if s[n - 1].item_type == Some(t) { s[n - 1].count as int } else { 0 }
    }
}

/// How many of item `t` the slots hold together.
pub open spec fn total(s: Seq<ItemStack>, t: ItemType) -> int {
    total_in(s, t, s.len() as int)
}

pub open spec fn held(st: ItemStack, t: ItemType) -> int {
    if st.item_type == Some(t) { st.count as int } else { 0 }
}

pub proof fn lemma_total_in_update(s: Seq<ItemStack>, t: ItemType, n: int, j: int, v: ItemStack)
    requires
        0 <= j < s.len(),
        0 <= n <= s.len(),
    ensures
        total_in(s.update(j, v), t, n) == total_in(s, t, n) + if j < n { held(v, t) - held(s[j], t) } else { 0 },
    decreases n,
{
    if n > 0 {
        lemma_total_in_update(s, t, n - 1, j, v);
    }
}

/// Replacing one slot changes each item's total by the difference between
/// the new and the old contents of that slot.
pub proof fn lemma_total_update(s: Seq<ItemStack>, t: ItemType, j: int, v: ItemStack)
    requires
        0 <= j < s.len(),
    ensures
        total(s.update(j, v), t) == total(s, t) + held(v, t) - held(s[j], t),
{
    lemma_total_in_update(s, t, s.len() as int, j, v);
}

pub proof fn lemma_total_nonneg(s: Seq<ItemStack>, t: ItemType, n: int)
    requires
        0 <= n <= s.len(),
    ensures
        total_in(s, t, n) >= 0,
        forall|k: int| 0 <= k < n ==> held(s[k], t) <= total_in(s, t, n),
    decreases n,
{
    if n > 0 {
        lemma_total_nonneg(s, t, n - 1);
    }
}

/// `add_item` on slots `s`: the new slots and whether the item found room.
pub open spec fn add_item_spec(s: Seq<ItemStack>, item: ItemType, count: u32) -> (Seq<ItemStack>, bool) {
    let j = first_of_type(s, Some(item), 0);
    let e = first_of_type(s, None, 0);
    if j < s.len() {
        (s.update(j, ItemStack { item_type: Some(item), count: (s[j].count + count) as u32 }), true)
    } else if e < s.len() {
        (s.update(e, ItemStack { item_type: Some(item), count }), true)
    } else {
        (s, false)
    }
}

/// `add_item` never overflows a stack.
pub open spec fn add_item_fits(s: Seq<ItemStack>, item: ItemType, count: u32) -> bool {
    let j = first_of_type(s, Some(item), 0);
    j < s.len() ==> s[j].count + count <= u32::MAX
}

/// `remove_from_slot` on slots `s`: the new slots and whether the removal
/// happened. A stack that reaches zero becomes empty.
pub open spec fn remove_spec(s: Seq<ItemStack>, slot: int, count: u32) -> (Seq<ItemStack>, bool) {
    if slot < 0 || slot >= s.len() || s[slot].count < count {
        (s, false)
    } else if s[slot].count - count == 0 {
        (s.update(slot, empty_stack()), true)
    } else {
        (s.update(slot, ItemStack { item_type: s[slot].item_type, count: (s[slot].count - count) as u32 }), true)
    }
}

/// Nine hotbar slots followed by twenty-seven backpack slots, and a
/// selected hotbar slot.
#[derive(Debug)]
pub struct Inventory {
    slots: Vec<ItemStack>,
    selected_slot: usize,
}

proof fn lemma_first_of_type_bounds(s: Seq<ItemStack>, t: Option<ItemType>, i: int)
    requires
        0 <= i <= s.len(),
    ensures
        i <= first_of_type(s, t, i) <= s.len(),
        first_of_type(s, t, i) < s.len() ==> s[first_of_type(s, t, i)].item_type == t,
        forall|k: int| i <= k < first_of_type(s, t, i) ==> s[k].item_type != t,
    decreases s.len() - i,
{
    if i < s.len() && s[i].item_type != t {
        lemma_first_of_type_bounds(s, t, i + 1);
    }
}

impl Inventory {
    pub closed spec fn slots_view(&self) -> Seq<ItemStack> {
        self.slots@
    }

    pub closed spec fn selected(&self) -> int {
        self.selected_slot as int
    }

    /// Thirty-six slots, and the selection in the hotbar.
    pub open spec fn wf(&self) -> bool {
        &&& self.slots_view().len() == TOTAL_SLOTS
        &&& 0 <= self.selected() < HOTBAR_SIZE
    }

    pub fn new() -> (r: Inventory)
        ensures
            r.wf(),
            r.slots_view() == Seq::new(TOTAL_SLOTS as nat, |i: int| empty_stack()),
            r.selected() == 0,
    {
        let mut slots: Vec<ItemStack> = Vec::new();
        let mut i: usize = 0;
        while i < TOTAL_SLOTS
            invariant
                i <= TOTAL_SLOTS,
                slots@ == Seq::new(i as nat, |k: int| empty_stack()),
            decreases TOTAL_SLOTS - i,
        {
            slots.push(ItemStack::empty());
            i = i + 1;
        }
        Inventory { slots, selected_slot: 0 }
    }

    pub fn clone(&self) -> (r: Inventory)
        ensures
            r.slots_view() == self.slots_view(),
            r.selected() == self.selected(),
    {
        let mut slots: Vec<ItemStack> = Vec::new();
        let mut i: usize = 0;
        while i < self.slots.len()
            invariant
                i <= self.slots@.len(),
                slots@ == self.slots@.subrange(0, i as int),
            decreases self.slots@.len() - i,
        {
            slots.push(self.slots[i]);
            i = i + 1;
        }
        proof { assert(slots@ =~= self.slots@); }
        Inventory { slots, selected_slot: self.selected_slot }
    }

    pub fn default() -> (r: Inventory)
        ensures
            r.wf(),
            r.slots_view() == Seq::new(TOTAL_SLOTS as nat, |i: int| empty_stack()),
            r.selected() == 0,
    {
        Inventory::new()
    }

    fn find_slot(&self, t: Option<ItemType>) -> (r: usize)
        requires
            self.wf(),
        ensures
            r == first_of_type(self.slots_view(), t, 0),
    {
        let mut i: usize = 0;
        while i < TOTAL_SLOTS
            invariant
                self.wf(),
                i <= TOTAL_SLOTS,
                first_of_type(self.slots_view(), t, 0) == first_of_type(self.slots_view(), t, i as int),
            decreases TOTAL_SLOTS - i,
        {
            if self.slots[i].item_type == t {
                return i;
            }
            i = i + 1;
        }
        i
    }

    /// Adds `count` of `item` to the first stack of it, or else to the first
    /// empty slot. Returns false, changing nothing, if all 36 slots hold other
    /// item types.
    pub fn add_item(&mut self, item: ItemType, count: u32) -> (r: bool)
        requires
            old(self).wf(),
            add_item_fits(old(self).slots_view(), item, count),
        ensures
            final(self).wf(),
            final(self).selected() == old(self).selected(),
            (final(self).slots_view(), r) == add_item_spec(old(self).slots_view(), item, count),
    {
        proof {
            lemma_first_of_type_bounds(self.slots_view(), Some(item), 0);
            lemma_first_of_type_bounds(self.slots_view(), None, 0);
        }
        let j = self.find_slot(Some(item));
        if j < TOTAL_SLOTS {
            let c = self.slots[j].count;
            self.slots.set(j, ItemStack { item_type: Some(item), count: c + count });
            return true;
        }
        let e = self.find_slot(None);
        if e < TOTAL_SLOTS {
            self.slots.set(e, ItemStack::new(item, count));
            return true;
        }
        false
    }

    /// Takes `count` items from a slot; returns false, changing nothing, if
    /// the slot is out of range or holds fewer.
    pub fn remove_from_slot(&mut self, slot: usize, count: u32) -> (r: bool)
        requires
            old(self).wf(),
        ensures
            final(self).wf(),
            final(self).selected() == old(self).selected(),
            (final(self).slots_view(), r) == remove_spec(old(self).slots_view(), slot as int, count),
    {
        if slot >= TOTAL_SLOTS {
            return false;
        }
        let stack = self.slots[slot];
        if stack.count < count {
            return false;
        }
        let left = stack.count - count;
        if left == 0 {
            self.slots.set(slot, ItemStack::empty());
        } else {
            self.slots.set(slot, ItemStack { item_type: stack.item_type, count: left });
        }
        true
    }

    /// The selected stack, unless it is empty.
    pub fn get_selected(&self) -> (r: Option<&ItemStack>)
        requires
            self.wf(),
        ensures
            ({
                let s = self.slots_view()[self.selected()];
                if s.item_type is None { r is None } else { r == Some(&s) }
            }),
    {
        let stack = &self.slots[self.selected_slot];
        if stack.is_empty() {
            None
        } else {
            Some(stack)
        }
    }

    /// The selected stack for changing, unless it is empty.
    pub fn get_selected_mut(&mut self) -> (r: Option<&mut ItemStack>)
        requires
            old(self).wf(),
        ensures
            ({
                let i = old(self).selected();
                let s = old(self).slots_view()[i];
                match r {
                    Some(m) => {
                        &&& !(s.item_type is None)
                        &&& *m == s
                        &&& final(self).slots_view() == old(self).slots_view().update(i, *final(m))
                        &&& final(self).selected() == i
                        &&& final(self).wf()
                    },
                    None => s.item_type is None && *final(self) == *old(self),
                }
            }),
    {
        let slot = self.selected_slot;
        if self.slots[slot].is_empty() {
            None
        } else {
            Some(&mut self.slots[slot])
        }
    }

    /// Selects a hotbar slot; a larger number selects the last one.
    pub fn select_slot(&mut self, slot: usize)
        requires
            old(self).wf(),
        ensures
            final(self).wf(),
            final(self).slots_view() == old(self).slots_view(),
            final(self).selected() == if slot < HOTBAR_SIZE { slot as int } else { HOTBAR_SIZE - 1 },
    {
        self.selected_slot = if slot < HOTBAR_SIZE - 1 { slot } else { HOTBAR_SIZE - 1 };
    }

    pub fn selected_slot(&self) -> (r: usize)
        ensures
            r == self.selected(),
    {
        self.selected_slot
    }

    pub fn is_hotbar(slot: usize) -> (r: bool)
        ensures
            r == (slot < HOTBAR_SIZE),
    {
        slot < HOTBAR_SIZE
    }

    pub fn get_slot(&self, index: usize) -> (r: Option<&ItemStack>)
        requires
            self.wf(),
        ensures
            if index < TOTAL_SLOTS { r == Some(&self.slots_view()[index as int]) } else { r is None },
    {
        if index < TOTAL_SLOTS {
            Some(&self.slots[index])
        } else {
            None
        }
    }

    pub fn get_slot_mut(&mut self, index: usize) -> (r: Option<&mut ItemStack>)
        requires
            old(self).wf(),
        ensures
            match r {
                Some(m) => {
                    &&& index < TOTAL_SLOTS
                    &&& *m == old(self).slots_view()[index as int]
                    &&& final(self).slots_view() == old(self).slots_view().update(index as int, *final(m))
                    &&& final(self).selected() == old(self).selected()
                    &&& final(self).wf()
                },
                None => index >= TOTAL_SLOTS && *final(self) == *old(self),
            },
    {
        if index < TOTAL_SLOTS {
            Some(&mut self.slots[index])
        } else {
            None
        }
    }

    /// Takes one block from the selected stack and returns its material, if
    /// the stack holds blocks.
    pub fn place_block(&mut self) -> (r: Option<Material>)
        requires
            old(self).wf(),
        ensures
            final(self).wf(),
            final(self).selected() == old(self).selected(),
            ({
                let i = old(self).selected();
                let s = old(self).slots_view()[i];
                match s.item_type {
                    Some(ItemType::Block(m)) if s.count > 0 => {
                        &&& r == Some(m)
                        &&& final(self).slots_view() == remove_spec(old(self).slots_view(), i, 1).0
                    },
                    _ => r is None && final(self).slots_view() == old(self).slots_view(),
                }
            }),
    {
        let slot = self.selected_slot;
        let stack = self.slots[slot];
        match stack.item_type {
            Some(ItemType::Block(material)) => {
                if stack.count > 0 && self.remove_from_slot(slot, 1) {
                    Some(material)
                } else {
                    None
                }
            },
            _ => None,
        }
    }
}


/// Adding `count` of `item` that finds room raises the total of `item` by
/// `count` and leaves every other item's total as it was; when it finds no
/// room nothing changes.
pub proof fn lemma_add_item_totals(s: Seq<ItemStack>, item: ItemType, count: u32, t: ItemType)
    requires
        s.len() == TOTAL_SLOTS,
        add_item_fits(s, item, count),
    ensures
        total(add_item_spec(s, item, count).0, t) == total(s, t) + if add_item_spec(s, item, count).1 && t == item { count as int } else { 0 },
        !add_item_spec(s, item, count).1 ==> add_item_spec(s, item, count).0 == s,
{
    lemma_first_of_type_bounds(s, Some(item), 0);
    lemma_first_of_type_bounds(s, None, 0);
    let j = first_of_type(s, Some(item), 0);
    let e = first_of_type(s, None, 0);
    if j < s.len() {
        lemma_total_update(s, t, j, ItemStack { item_type: Some(item), count: (s[j].count + count) as u32 });
    } else if e < s.len() {
        lemma_total_update(s, t, e, ItemStack { item_type: Some(item), count });
    }
}

/// Removing `count` from a slot that holds at least that many lowers the
/// total of its item by `count`; every other item keeps its total.
pub proof fn lemma_remove_totals(s: Seq<ItemStack>, slot: int, count: u32, t: ItemType)
    requires
        s.len() == TOTAL_SLOTS,
    ensures
        total(remove_spec(s, slot, count).0, t) == total(s, t) - if remove_spec(s, slot, count).1 && s[slot].item_type == Some(t) { count as int } else { 0 },
        remove_spec(s, slot, count).1 <==> (0 <= slot < s.len() && s[slot].count >= count),
{
    if 0 <= slot < s.len() && s[slot].count >= count {
        if s[slot].count - count == 0 {
            lemma_total_update(s, t, slot, empty_stack());
        } else {
            lemma_total_update(s, t, slot, ItemStack { item_type: s[slot].item_type, count: (s[slot].count - count) as u32 });
        }
    }
}

/// Removing from the slot that `add_item` filled as many items as it added
/// gives back the slots as they were, when the stack it grew held a positive
/// count, or the slot it filled was exactly empty.
pub proof fn lemma_remove_undoes_add(s: Seq<ItemStack>, item: ItemType, count: u32)
    requires
        s.len() == TOTAL_SLOTS,
        add_item_fits(s, item, count),
        add_item_spec(s, item, count).1,
        count > 0,
        if first_of_type(s, Some(item), 0) < s.len() {
            s[first_of_type(s, Some(item), 0)].count > 0
        } else {
            s[first_of_type(s, None, 0)] == empty_stack()
        },
    ensures
        remove_spec(add_item_spec(s, item, count).0, add_target(s, item), count) == (s, true),
{
    lemma_first_of_type_bounds(s, Some(item), 0);
    lemma_first_of_type_bounds(s, None, 0);
    let j = add_target(s, item);
    let s1 = add_item_spec(s, item, count).0;
    if first_of_type(s, Some(item), 0) < s.len() {
        assert(s1[j] == ItemStack { item_type: Some(item), count: (s[j].count + count) as u32 });
        assert(remove_spec(s1, j, count).0 =~= s);
    } else {
        assert(remove_spec(s1, j, count).0 =~= s);
    }
}

/// Where `add_item` puts `count` of `item`: it finds room exactly when some
/// slot already holds the item or some slot is empty. Then it changes one
/// slot only: the first that holds the item, whose count grows by `count`;
/// or, when no slot holds it, the first empty slot, which now holds
/// `count` of it.
pub proof fn lemma_add_item_slot(s: Seq<ItemStack>, item: ItemType, count: u32)
    requires
        s.len() == TOTAL_SLOTS,
        add_item_fits(s, item, count),
    ensures
        add_item_spec(s, item, count).1 <==> exists|k: int| 0 <= k < s.len()
            && (#[trigger] s[k].item_type == Some(item) || s[k].item_type is None),
        add_item_spec(s, item, count).1 ==> exists|j: int| {
            &&& 0 <= j < s.len()
            &&& #[trigger] add_item_spec(s, item, count).0 == s.update(j, ItemStack {
                item_type: Some(item),
                count: (if s[j].item_type == Some(item) { s[j].count + count } else { count as int }) as u32,
            })
            &&& s[j].item_type == Some(item) ==> forall|k: int| 0 <= k < j ==> s[k].item_type != Some(item)
            &&& s[j].item_type != Some(item) ==> s[j].item_type is None
                && (forall|k: int| 0 <= k < s.len() ==> s[k].item_type != Some(item))
                && (forall|k: int| 0 <= k < j ==> !(s[k].item_type is None))
        },
{
    lemma_first_of_type_bounds(s, Some(item), 0);
    lemma_first_of_type_bounds(s, None, 0);
    let j = first_of_type(s, Some(item), 0);
    let e = first_of_type(s, None, 0);
    if j < s.len() {
        assert(s[j].item_type == Some(item));
    } else if e < s.len() {
        assert(s[e].item_type is None);
    } else {
        assert forall|k: int| 0 <= k < s.len() implies !(#[trigger] s[k].item_type == Some(item) || s[k].item_type is None) by {
            assert(s[k].item_type != Some(item));
            assert(s[k].item_type != None::<ItemType>);
        }
    }
}

} // verus!
