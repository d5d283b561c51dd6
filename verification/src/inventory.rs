pub mod inventory;
pub mod crafting;
