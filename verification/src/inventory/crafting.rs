use vstd::prelude::*;

use crate::inventory::inventory::{
    add_item_fits, add_item_spec, lemma_total_in_update, lemma_total_nonneg, lemma_total_update, remove_spec, held,
    total, total_in, ConsumableType, Inventory, ItemStack, ItemType, SpellType, ToolType,
    TOTAL_SLOTS,
};
use crate::world::chunk::Material;

verus! {

/// A recipe: the items it takes and the item it makes.
pub struct CraftingRecipe {
    pub name: &'static str,
    pub ingredients: Vec<(ItemType, u32)>,
    pub result: ItemType,
    pub result_count: u32,
}

pub open spec fn blk(m: Material) -> ItemType {
    ItemType::Block(m)
}

/// The ingredients of the `i`-th recipe.
pub open spec fn recipe_ingredients(i: int) -> Seq<(ItemType, u32)> {
    if i == 0 {
        seq![(blk(Material::Wood), 3u32)]
    } else if i == 1 {
        seq![(blk(Material::Stone), 3u32), (blk(Material::Wood), 2u32)]
    } else if i == 2 {
        seq![(blk(Material::Sand), 4u32)]
    } else if i == 3 {
        seq![(blk(Material::Metal), 5u32), (blk(Material::Wood), 2u32)]
    } else if i == 4 {
        seq![(blk(Material::Sand), 2u32), (blk(Material::Wood), 1u32)]
    } else if i == 5 {
        seq![(blk(Material::Ice), 2u32), (blk(Material::Dirt), 1u32)]
    } else if i == 6 {
        seq![(blk(Material::Sand), 3u32), (blk(Material::Metal), 1u32)]
    } else if i == 7 {
        seq![(blk(Material::Metal), 3u32), (blk(Material::Wood), 1u32)]
    } else if i == 8 {
        seq![(blk(Material::Dirt), 3u32)]
    } else {
        seq![(blk(Material::Metal), 5u32)]
    }
}

/// The item the `i`-th recipe makes.
pub open spec fn recipe_result(i: int) -> ItemType {
    if i == 0 {
        ItemType::Tool(ToolType::Pickaxe)
    } else if i == 1 {
        ItemType::Tool(ToolType::Sword)
    } else if i == 2 {
        blk(Material::Stone)
    } else if i == 3 {
        ItemType::Tool(ToolType::Shield)
    } else if i == 4 {
        ItemType::Spell(SpellType::Fireball)
    } else if i == 5 {
        ItemType::Spell(SpellType::Freeze)
    } else if i == 6 {
        ItemType::Consumable(ConsumableType::Bomb)
    } else if i == 7 {
        ItemType::Spell(SpellType::Lightning)
    } else if i == 8 {
        ItemType::Consumable(ConsumableType::HealPotion)
    } else {
        ItemType::Tool(ToolType::Armor)
    }
}

/// The name of the `i`-th recipe.
pub open spec fn recipe_name(i: int) -> Seq<char> {
    if i == 0 {
        "Pickaxe"@
    } else if i == 1 {
        "Sword"@
    } else if i == 2 {
        "Glass"@
    } else if i == 3 {
        "Shield"@
    } else if i == 4 {
        "Fireball Scroll"@
    } else if i == 5 {
        "Freeze Scroll"@
    } else if i == 6 {
        "Bomb"@
    } else if i == 7 {
        "Lightning Scroll"@
    } else if i == 8 {
        "Heal Potion"@
    } else {
        "Armor"@
    }
}

fn recipe(name: &'static str, ingredients: Vec<(ItemType, u32)>, result: ItemType) -> (r: CraftingRecipe)
    ensures
        r.name == name,
        r.ingredients@ == ingredients@,
        r.result == result,
        r.result_count == 1,
{
    CraftingRecipe { name, ingredients, result, result_count: 1 }
}

/// The ten recipes, each making one item.
pub fn all_recipes() -> (r: Vec<CraftingRecipe>)
    ensures
        r@.len() == 10,
        forall|i: int| 0 <= i < 10 ==> {
            &&& (#[trigger] r@[i]).name@ == recipe_name(i)
            &&& r@[i].ingredients@ == recipe_ingredients(i)
            &&& r@[i].result == recipe_result(i)
            &&& r@[i].result_count == 1
        },
{
    let mut r: Vec<CraftingRecipe> = Vec::new();
    r.push(recipe("Pickaxe", vec![(ItemType::Block(Material::Wood), 3)], ItemType::Tool(ToolType::Pickaxe)));
    r.push(recipe("Sword", vec![(ItemType::Block(Material::Stone), 3), (ItemType::Block(Material::Wood), 2)], ItemType::Tool(ToolType::Sword)));
    r.push(recipe("Glass", vec![(ItemType::Block(Material::Sand), 4)], ItemType::Block(Material::Stone)));
    r.push(recipe("Shield", vec![(ItemType::Block(Material::Metal), 5), (ItemType::Block(Material::Wood), 2)], ItemType::Tool(ToolType::Shield)));
    r.push(recipe("Fireball Scroll", vec![(ItemType::Block(Material::Sand), 2), (ItemType::Block(Material::Wood), 1)], ItemType::Spell(SpellType::Fireball)));
    r.push(recipe("Freeze Scroll", vec![(ItemType::Block(Material::Ice), 2), (ItemType::Block(Material::Dirt), 1)], ItemType::Spell(SpellType::Freeze)));
    r.push(recipe("Bomb", vec![(ItemType::Block(Material::Sand), 3), (ItemType::Block(Material::Metal), 1)], ItemType::Consumable(ConsumableType::Bomb)));
    r.push(recipe("Lightning Scroll", vec![(ItemType::Block(Material::Metal), 3), (ItemType::Block(Material::Wood), 1)], ItemType::Spell(SpellType::Lightning)));
    r.push(recipe("Heal Potion", vec![(ItemType::Block(Material::Dirt), 3)], ItemType::Consumable(ConsumableType::HealPotion)));
    r.push(recipe("Armor", vec![(ItemType::Block(Material::Metal), 5)], ItemType::Tool(ToolType::Armor)));
    r
}


/// Whether the slots hold at least the needed amount of each of the first
/// `n` ingredients.
pub open spec fn has_first(s: Seq<ItemStack>, ing: Seq<(ItemType, u32)>, n: int) -> bool {
    forall|j: int| 0 <= j < n ==> total(s, #[trigger] ing[j].0) >= ing[j].1
}

/// Whether the slots hold every ingredient.
pub open spec fn can_craft_spec(s: Seq<ItemStack>, ing: Seq<(ItemType, u32)>) -> bool {
    has_first(s, ing, ing.len() as int)
}

/// The checks of `can_craft` never overflow: every ingredient it counts,
/// up to the first that is short, fits in a `u32`.
pub open spec fn counts_fit(s: Seq<ItemStack>, ing: Seq<(ItemType, u32)>) -> bool {
    forall|i: int| 0 <= i < ing.len() && has_first(s, ing, i) ==> total(s, #[trigger] ing[i].0) <= u32::MAX
}

/// How many of `target` the inventory holds.
pub fn count_item_in_inventory(inventory: &Inventory, target: &ItemType) -> (r: u32)
    requires
        inventory.wf(),
        total(inventory.slots_view(), *target) <= u32::MAX,
    ensures
        r == total(inventory.slots_view(), *target),
{
    let ghost s = inventory.slots_view();
    let mut sum: u32 = 0;
    let mut i: usize = 0;
    proof { lemma_total_nonneg(s, *target, 36); }
    while i < TOTAL_SLOTS
        invariant
            inventory.wf(),
            s == inventory.slots_view(),
            i <= 36,
            sum == total_in(s, *target, i as int),
            total(s, *target) <= u32::MAX,
        decreases 36 - i,
    {
        proof {
            lemma_total_prefix(s, *target, (i + 1) as int);
        }
        if let Some(slot) = inventory.get_slot(i) {
            if slot.item_type == Some(*target) {
                sum = sum + slot.count;
            }
        }
        i = i + 1;
    }
    sum
}

proof fn lemma_total_prefix(s: Seq<ItemStack>, t: ItemType, n: int)
    requires
        0 <= n <= s.len(),
    ensures
        total_in(s, t, n) <= total(s, t),
        total_in(s, t, n) >= 0,
    decreases s.len() - n,
{
    lemma_total_nonneg(s, t, n);
    if n < s.len() {
        lemma_total_prefix(s, t, n + 1);
    }
}

/// Whether the inventory holds every ingredient of the recipe.
pub fn can_craft(recipe: &CraftingRecipe, inventory: &Inventory) -> (r: bool)
    requires
        inventory.wf(),
        counts_fit(inventory.slots_view(), recipe.ingredients@),
    ensures
        r == can_craft_spec(inventory.slots_view(), recipe.ingredients@),
{
    let ghost s = inventory.slots_view();
    let ghost ing = recipe.ingredients@;
    let mut i: usize = 0;
    while i < recipe.ingredients.len()
        invariant
            inventory.wf(),
            s == inventory.slots_view(),
            ing == recipe.ingredients@,
            i <= ing.len(),
            has_first(s, ing, i as int),
            counts_fit(s, ing),
        decreases ing.len() - i,
    {
        let (item_type, needed) = recipe.ingredients[i];
        assert(total(s, ing[i as int].0) <= u32::MAX);
        let have = count_item_in_inventory(inventory, &item_type);
        if have < needed {
            return false;
        }
        i = i + 1;
    }
    true
}

/// Taking up to `remaining` of item `t` from the slots `i..`, in slot order;
/// each touched stack gives what it can.
pub open spec fn consume(s: Seq<ItemStack>, t: ItemType, remaining: u32, i: int) -> Seq<ItemStack>
    decreases s.len() - i,
{
    if i < 0 || i >= s.len() || remaining == 0 {
        s
    } else if s[i].item_type == Some(t) {
        let take = if remaining < s[i].count { remaining } else { s[i].count };
        consume(remove_spec(s, i, take).0, t, (remaining - take) as u32, i + 1)
    } else {
        consume(s, t, remaining, i + 1)
    }
}

/// Taking the first `n` ingredients, one after the other.
pub open spec fn consume_all(s: Seq<ItemStack>, ing: Seq<(ItemType, u32)>, n: int) -> Seq<ItemStack>
    decreases n,
{
    if n <= 0 {
        s
    } else {
        let prev = consume_all(s, ing, n - 1);
        consume(prev, ing[n - 1].0, ing[n - 1].1, 0)
    }
}

proof fn lemma_consume_len(s: Seq<ItemStack>, t: ItemType, remaining: u32, i: int)
    ensures
        consume(s, t, remaining, i).len() == s.len(),
    decreases s.len() - i,
{
    if !(i < 0 || i >= s.len() || remaining == 0) {
        if s[i].item_type == Some(t) {
            let take = if remaining < s[i].count { remaining } else { s[i].count };
            lemma_consume_len(remove_spec(s, i, take).0, t, (remaining - take) as u32, i + 1);
        } else {
            lemma_consume_len(s, t, remaining, i + 1);
        }
    }
}

proof fn lemma_consume_all_len(s: Seq<ItemStack>, ing: Seq<(ItemType, u32)>, n: int)
    ensures
        consume_all(s, ing, n).len() == s.len(),
    decreases n,
{
    if n > 0 {
        lemma_consume_all_len(s, ing, n - 1);
        lemma_consume_len(consume_all(s, ing, n - 1), ing[n - 1].0, ing[n - 1].1, 0);
    }
}

/// Takes `remaining` of `t` from the inventory's slots in slot order.
fn consume_item(inventory: &mut Inventory, t: ItemType, needed: u32)
    requires
        old(inventory).wf(),
    ensures
        final(inventory).wf(),
        final(inventory).slots_view() == consume(old(inventory).slots_view(), t, needed, 0),
{
    let mut remaining = needed;
    let mut i: usize = 0;
    while i < TOTAL_SLOTS
        invariant_except_break
            inventory.wf(),
            i <= 36,
            consume(old(inventory).slots_view(), t, needed, 0) == consume(inventory.slots_view(), t, remaining, i as int),
        ensures
            inventory.wf(),
            consume(old(inventory).slots_view(), t, needed, 0) == inventory.slots_view(),
        decreases 36 - i,
    {
        if remaining == 0 {
            break;
        }
        let ghost before = inventory.slots_view();
        if let Some(slot) = inventory.get_slot(i) {
            if slot.item_type == Some(t) {
                let take = if remaining < slot.count { remaining } else { slot.count };
                inventory.remove_from_slot(i, take);
                remaining = remaining - take;
            }
        }
        i = i + 1;
    }
}

/// Crafts the recipe if the inventory holds every ingredient: takes each
/// ingredient in turn, then adds the result (which is lost when no slot has
/// room for it).
pub fn craft(recipe: &CraftingRecipe, inventory: &mut Inventory) -> (r: bool)
    requires
        old(inventory).wf(),
        counts_fit(old(inventory).slots_view(), recipe.ingredients@),
        can_craft_spec(old(inventory).slots_view(), recipe.ingredients@) ==> add_item_fits(
            consume_all(old(inventory).slots_view(), recipe.ingredients@, recipe.ingredients@.len() as int),
            recipe.result,
            recipe.result_count,
        ),
    ensures
        final(inventory).wf(),
        r == can_craft_spec(old(inventory).slots_view(), recipe.ingredients@),
        r ==> final(inventory).slots_view() == add_item_spec(
            consume_all(old(inventory).slots_view(), recipe.ingredients@, recipe.ingredients@.len() as int),
            recipe.result,
            recipe.result_count,
        ).0,
        !r ==> final(inventory).slots_view() == old(inventory).slots_view(),
        r && distinct_items(recipe.ingredients@) ==> forall|t: ItemType| #[trigger] total(final(inventory).slots_view(), t)
            == total(old(inventory).slots_view(), t) - needed_of(recipe.ingredients@, t, recipe.ingredients@.len() as int)
            + crafted_gain(
                consume_all(old(inventory).slots_view(), recipe.ingredients@, recipe.ingredients@.len() as int),
                recipe.result,
                recipe.result_count,
                t,
            ),
{
    if !can_craft(recipe, inventory) {
        return false;
    }
    let ghost s0 = inventory.slots_view();
    let ghost ing = recipe.ingredients@;
    let mut i: usize = 0;
    while i < recipe.ingredients.len()
        invariant
            inventory.wf(),
            ing == recipe.ingredients@,
            i <= ing.len(),
            inventory.slots_view() == consume_all(s0, ing, i as int),
        decreases ing.len() - i,
    {
        let (item_type, needed) = recipe.ingredients[i];
        consume_item(inventory, item_type, needed);
        i = i + 1;
    }
    inventory.add_item(recipe.result, recipe.result_count);
    proof {
        if distinct_items(ing) {
            assert forall|t: ItemType| #[trigger] total(inventory.slots_view(), t) == total(s0, t) - needed_of(ing, t, ing.len() as int)
                + crafted_gain(consume_all(s0, ing, ing.len() as int), recipe.result, recipe.result_count, t) by {
                lemma_craft_totals(s0, ing, recipe.result, recipe.result_count, t);
                if exists|j: int| 0 <= j < ing.len() && ing[j].0 == t {
                    let j = choose|j: int| 0 <= j < ing.len() && ing[j].0 == t;
                    lemma_needed_of_one(ing, t, ing.len() as int, j);
                } else {
                    lemma_needed_of_none(ing, t, ing.len() as int);
                }
            }
        }
    }
    true
}


pub open spec fn min_int(a: int, b: int) -> int {
    if a < b { a } else { b }
}

proof fn lemma_consume_totals_from(s: Seq<ItemStack>, t: ItemType, remaining: u32, i: int, t2: ItemType)
    requires
        s.len() == TOTAL_SLOTS,
        0 <= i <= s.len(),
    ensures
        consume(s, t, remaining, i).len() == s.len(),
        total(consume(s, t, remaining, i), t) == total(s, t) - min_int(remaining as int, total(s, t) - total_in(s, t, i)),
        t2 != t ==> total(consume(s, t, remaining, i), t2) == total(s, t2),
    decreases s.len() - i,
{
    lemma_total_prefix(s, t, i);
    lemma_consume_len(s, t, remaining, i);
    if i >= s.len() || remaining == 0 {
    } else if s[i].item_type == Some(t) {
        let c = s[i].count;
        let take: u32 = if remaining < c { remaining } else { c };
        let s1 = remove_spec(s, i, take).0;
        let v = s1[i];
        assert(s1 == s.update(i, v));
        lemma_total_update(s, t, i, v);
        lemma_total_update(s, t2, i, v);
        lemma_total_in_update(s, t, i, i, v);
        lemma_total_prefix(s, t, i + 1);
        assert(held(v, t) == c - take);
        assert(total_in(s1, t, i + 1) == total_in(s, t, i) + c - take);
        lemma_consume_totals_from(s1, t, (remaining - take) as u32, i + 1, t2);
    } else {
        lemma_total_prefix(s, t, i + 1);
        lemma_consume_totals_from(s, t, remaining, i + 1, t2);
    }
}

/// Taking up to `remaining` of item `t` lowers its total by `remaining`, or
/// to zero when there are fewer, and leaves every other item's total as it
/// was.
pub proof fn lemma_consume_totals(s: Seq<ItemStack>, t: ItemType, remaining: u32, t2: ItemType)
    requires
        s.len() == TOTAL_SLOTS,
    ensures
        total(consume(s, t, remaining, 0), t) == total(s, t) - min_int(remaining as int, total(s, t)),
        t2 != t ==> total(consume(s, t, remaining, 0), t2) == total(s, t2),
{
    lemma_consume_totals_from(s, t, remaining, 0, t2);
}

/// How many of `t` the first `n` ingredients ask for.
pub open spec fn needed_of(ing: Seq<(ItemType, u32)>, t: ItemType, n: int) -> int
    decreases n,
{
    if n <= 0 {
        0
    } else {
        needed_of(ing, t, n - 1) + if ing[n - 1].0 == t { ing[n - 1].1 as int } else { 0 }
    }
}

/// How many of `t` adding `count` of `result` to the slots puts in: all of
/// them when `t` is the result and there is room, none otherwise.
pub open spec fn crafted_gain(s: Seq<ItemStack>, result: ItemType, count: u32, t: ItemType) -> int {
    if add_item_spec(s, result, count).1 && t == result { count as int } else { 0 }
}

proof fn lemma_needed_of_none(ing: Seq<(ItemType, u32)>, t: ItemType, n: int)
    requires
        n <= ing.len(),
        forall|j: int| 0 <= j < n ==> (#[trigger] ing[j]).0 != t,
    ensures
        needed_of(ing, t, n) == 0,
    decreases n,
{
    if n > 0 {
        lemma_needed_of_none(ing, t, n - 1);
    }
}

proof fn lemma_needed_of_one(ing: Seq<(ItemType, u32)>, t: ItemType, n: int, j: int)
    requires
        n <= ing.len(),
        distinct_items(ing),
        0 <= j < n,
        ing[j].0 == t,
    ensures
        needed_of(ing, t, n) == ing[j].1,
    decreases n,
{
    if j == n - 1 {
        lemma_needed_of_none(ing, t, n - 1);
    } else {
        lemma_needed_of_one(ing, t, n - 1, j);
        assert(ing[j].0 != ing[n - 1].0);
    }
}

/// No item type occurs twice among the ingredients.
pub open spec fn distinct_items(ing: Seq<(ItemType, u32)>) -> bool {
    forall|a: int, b: int| 0 <= a < b < ing.len() ==> #[trigger] ing[a].0 != #[trigger] ing[b].0
}

proof fn lemma_consume_all_totals(s: Seq<ItemStack>, ing: Seq<(ItemType, u32)>, n: int, t: ItemType)
    requires
        s.len() == TOTAL_SLOTS,
        0 <= n <= ing.len(),
        distinct_items(ing),
        can_craft_spec(s, ing),
    ensures
        consume_all(s, ing, n).len() == s.len(),
        forall|j: int| 0 <= j < n ==> (#[trigger] ing[j]).0 == t ==> total(consume_all(s, ing, n), t) == total(s, t) - ing[j].1,
        (forall|j: int| 0 <= j < n ==> (#[trigger] ing[j]).0 != t) ==> total(consume_all(s, ing, n), t) == total(s, t),
    decreases n,
{
    lemma_consume_all_len(s, ing, n);
    if n > 0 {
        lemma_consume_all_totals(s, ing, n - 1, t);
        let prev = consume_all(s, ing, n - 1);
        lemma_consume_all_len(s, ing, n - 1);
        lemma_consume_totals(prev, ing[n - 1].0, ing[n - 1].1, t);
        if ing[n - 1].0 == t {
            assert(forall|j: int| 0 <= j < n - 1 ==> (#[trigger] ing[j]).0 != t);
            assert(total(s, ing[n - 1].0) >= ing[n - 1].1);
        }
    }
}

/// Crafting a recipe whose ingredients are distinct item types, when the
/// inventory holds them all, takes exactly the needed amount of each
/// ingredient, adds the result when there is room for it, and leaves every
/// other item's total as it was.
pub proof fn lemma_craft_totals(s: Seq<ItemStack>, ing: Seq<(ItemType, u32)>, result: ItemType, count: u32, t: ItemType)
    requires
        s.len() == TOTAL_SLOTS,
        distinct_items(ing),
        can_craft_spec(s, ing),
        add_item_fits(consume_all(s, ing, ing.len() as int), result, count),
    ensures
        ({
            let after = consume_all(s, ing, ing.len() as int);
            let fin = add_item_spec(after, result, count);
            let added = if fin.1 && t == result { count as int } else { 0 };
            &&& forall|j: int| 0 <= j < ing.len() ==> (#[trigger] ing[j]).0 == t ==> total(fin.0, t) == total(s, t) - ing[j].1 + added
            &&& (forall|j: int| 0 <= j < ing.len() ==> (#[trigger] ing[j]).0 != t) ==> total(fin.0, t) == total(s, t) + added
        }),
{
    lemma_consume_all_totals(s, ing, ing.len() as int, t);
    let after = consume_all(s, ing, ing.len() as int);
    crate::inventory::inventory::lemma_add_item_totals(after, result, count, t);
}

} // verus!
