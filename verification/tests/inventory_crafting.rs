use voxel_game::inventory::crafting::{all_recipes, can_craft, count_item_in_inventory, craft};
use voxel_game::inventory::inventory::{
    ConsumableType, Inventory, ItemStack, ItemType, SpellType, ToolType, TOTAL_SLOTS,
};
use voxel_game::world::chunk::Material;

#[test]
fn test_add_item_to_empty_slot() {
    let mut inv = Inventory::new();
    let added = inv.add_item(ItemType::Block(Material::Stone), 10);
    assert!(added);
    let slot = inv.get_slot(0).unwrap();
    assert_eq!(slot.item_type, Some(ItemType::Block(Material::Stone)));
    assert_eq!(slot.count, 10);
}

#[test]
fn test_add_multiple_items() {
    let mut inv = Inventory::new();
    assert!(inv.add_item(ItemType::Block(Material::Stone), 10));
    assert!(inv.add_item(ItemType::Block(Material::Sand), 5));
    let slot0 = inv.get_slot(0).unwrap();
    assert_eq!(slot0.item_type, Some(ItemType::Block(Material::Stone)));
    assert_eq!(slot0.count, 10);
    let slot1 = inv.get_slot(1).unwrap();
    assert_eq!(slot1.item_type, Some(ItemType::Block(Material::Sand)));
    assert_eq!(slot1.count, 5);
}

#[test]
fn test_place_block_consumes_item() {
    let mut inv = Inventory::new();
    inv.add_item(ItemType::Block(Material::Stone), 3);
    inv.select_slot(0);
    let placed = inv.place_block();
    assert_eq!(placed, Some(Material::Stone));
    let slot = inv.get_slot(0).unwrap();
    assert_eq!(slot.count, 2);
}

#[test]
fn test_hotbar_selection() {
    let mut inv = Inventory::new();
    inv.add_item(ItemType::Block(Material::Stone), 10);
    inv.add_item(ItemType::Block(Material::Sand), 5);
    inv.add_item(ItemType::Tool(ToolType::Pickaxe), 1);
    assert_eq!(inv.selected_slot(), 0);
    let sel = inv.get_selected().unwrap();
    assert_eq!(sel.item_type, Some(ItemType::Block(Material::Stone)));
    inv.select_slot(2);
    assert_eq!(inv.selected_slot(), 2);
    let sel = inv.get_selected().unwrap();
    assert_eq!(sel.item_type, Some(ItemType::Tool(ToolType::Pickaxe)));
    inv.select_slot(100);
    assert_eq!(inv.selected_slot(), 8);
}

#[test]
fn test_remove_from_slot() {
    let mut inv = Inventory::new();
    inv.add_item(ItemType::Block(Material::Dirt), 5);
    assert!(inv.remove_from_slot(0, 3));
    assert_eq!(inv.get_slot(0).unwrap().count, 2);
    assert!(inv.remove_from_slot(0, 2));
    assert!(inv.get_slot(0).unwrap().is_empty());
}

#[test]
fn test_is_hotbar() {
    assert!(Inventory::is_hotbar(0));
    assert!(Inventory::is_hotbar(8));
    assert!(!Inventory::is_hotbar(9));
    assert!(!Inventory::is_hotbar(35));
}

#[test]
fn test_full_inventory() {
    let mut inv = Inventory::new();
    for i in 0..TOTAL_SLOTS {
        *inv.get_slot_mut(i).unwrap() = ItemStack::new(ItemType::Block(Material::Stone), 1);
    }
    assert!(!inv.add_item(ItemType::Block(Material::Wood), 1));
    assert!(!inv.add_item(ItemType::Tool(ToolType::Pickaxe), 1));
}

#[test]
fn removal_is_refused_when_short_or_out_of_range() {
    let mut inv = Inventory::default();
    inv.add_item(ItemType::Block(Material::Dirt), 2);
    assert!(!inv.remove_from_slot(0, 3));
    assert_eq!(inv.get_slot(0).unwrap().count, 2);
    assert!(!inv.remove_from_slot(36, 0));
    assert!(inv.get_slot(36).is_none());
    assert!(inv.get_slot_mut(40).is_none());
}

#[test]
fn add_then_remove_restores() {
    let mut inv = Inventory::new();
    inv.add_item(ItemType::Block(Material::Sand), 4);
    let before = inv.clone();
    assert!(inv.add_item(ItemType::Block(Material::Sand), 6));
    assert_eq!(inv.get_slot(0).unwrap().count, 10);
    assert!(inv.remove_from_slot(0, 6));
    for i in 0..TOTAL_SLOTS {
        assert_eq!(inv.get_slot(i), before.get_slot(i));
    }
}

#[test]
fn selected_stack_can_be_changed_and_empty_selection_places_nothing() {
    let mut inv = Inventory::new();
    assert!(inv.get_selected().is_none());
    assert!(inv.get_selected_mut().is_none());
    assert_eq!(inv.place_block(), None);
    inv.add_item(ItemType::Tool(ToolType::Sword), 1);
    inv.get_selected_mut().unwrap().count = 7;
    assert_eq!(inv.get_slot(0).unwrap().count, 7);
    assert_eq!(inv.place_block(), None);
    assert_eq!(inv.get_slot(0).unwrap().count, 7);
    assert_eq!(ItemStack::default(), ItemStack::empty());
}

#[test]
fn last_block_empties_the_slot() {
    let mut inv = Inventory::new();
    inv.add_item(ItemType::Block(Material::Wood), 1);
    assert_eq!(inv.place_block(), Some(Material::Wood));
    assert!(inv.get_slot(0).unwrap().is_empty());
    assert_eq!(inv.place_block(), None);
}

#[test]
fn test_can_craft_with_materials() {
    let mut inv = Inventory::new();
    inv.add_item(ItemType::Block(Material::Wood), 3);
    let recipes = all_recipes();
    assert!(can_craft(&recipes[0], &inv));
}

#[test]
fn test_cannot_craft_without() {
    let inv = Inventory::new();
    let recipes = all_recipes();
    for recipe in &recipes {
        assert!(!can_craft(recipe, &inv));
    }
}

#[test]
fn test_crafting_consumes_materials() {
    let mut inv = Inventory::new();
    inv.add_item(ItemType::Block(Material::Wood), 5);
    let recipes = all_recipes();
    assert!(craft(&recipes[0], &mut inv));
    assert_eq!(count_item_in_inventory(&inv, &ItemType::Block(Material::Wood)), 2);
    assert_eq!(count_item_in_inventory(&inv, &ItemType::Tool(ToolType::Pickaxe)), 1);
}

#[test]
fn crafting_takes_from_several_stacks() {
    let mut inv = Inventory::new();
    *inv.get_slot_mut(3).unwrap() = ItemStack::new(ItemType::Block(Material::Metal), 2);
    *inv.get_slot_mut(7).unwrap() = ItemStack::new(ItemType::Block(Material::Metal), 4);
    inv.add_item(ItemType::Block(Material::Wood), 2);
    let recipes = all_recipes();
    assert_eq!(recipes[3].name, "Shield");
    assert!(craft(&recipes[3], &mut inv));
    assert!(inv.get_slot(3).unwrap().is_empty());
    assert_eq!(inv.get_slot(7).unwrap().count, 1);
    assert_eq!(count_item_in_inventory(&inv, &ItemType::Block(Material::Wood)), 0);
    assert_eq!(count_item_in_inventory(&inv, &ItemType::Tool(ToolType::Shield)), 1);
}

#[test]
fn failed_craft_changes_nothing() {
    let mut inv = Inventory::new();
    inv.add_item(ItemType::Block(Material::Sand), 2);
    let recipes = all_recipes();
    assert!(!craft(&recipes[6], &mut inv));
    assert_eq!(count_item_in_inventory(&inv, &ItemType::Block(Material::Sand)), 2);
    assert_eq!(count_item_in_inventory(&inv, &ItemType::Consumable(ConsumableType::Bomb)), 0);
}

#[test]
fn recipe_list() {
    let recipes = all_recipes();
    assert_eq!(recipes.len(), 10);
    let names: Vec<&str> = recipes.iter().map(|r| r.name).collect();
    assert_eq!(
        names,
        vec!["Pickaxe", "Sword", "Glass", "Shield", "Fireball Scroll", "Freeze Scroll", "Bomb", "Lightning Scroll", "Heal Potion", "Armor"]
    );
    assert_eq!(recipes[2].result, ItemType::Block(Material::Stone));
    assert_eq!(recipes[4].ingredients, vec![(ItemType::Block(Material::Sand), 2), (ItemType::Block(Material::Wood), 1)]);
    assert_eq!(recipes[7].result, ItemType::Spell(SpellType::Lightning));
    assert!(recipes.iter().all(|r| r.result_count == 1));
}
