pub mod feed;
pub mod item;
pub mod syndication;
