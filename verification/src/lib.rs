pub mod text;
pub mod color;
pub mod theme;
pub mod tree;
pub mod editor;
pub mod nav;
pub mod order;
pub mod store;
pub mod builtin;
pub mod preview;
