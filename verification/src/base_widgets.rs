//! The widgets that the library brings along.

pub mod box_container;
pub mod margin_container;
pub mod sized_container;
pub mod spacer;
pub mod stack_container;
