//! The administration console's own rules: editing a link list as rows,
//! which controls are enabled,
//! labels for states, the page shell and the routes it shows.

pub mod editor;
pub mod panel;
pub mod shell;
pub mod view;
