pub mod boss;
pub mod difficulty;
pub mod monster;
pub mod spell;
