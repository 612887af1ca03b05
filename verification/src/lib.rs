pub mod split;
pub mod table;
