//! Value types of a small task-list application, with their encodings as
//! type-erased values.

pub mod app;
pub mod root;
pub mod style_context;
pub mod task;

pub use root::ViewType;
pub use style_context::StyleType;
pub use task::Task;
