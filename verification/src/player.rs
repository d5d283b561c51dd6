pub mod interaction;
