pub mod feed;
pub mod item;
