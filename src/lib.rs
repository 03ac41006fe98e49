pub mod components;
pub mod compositor;
pub mod entity;
pub mod search;
pub mod systems;
