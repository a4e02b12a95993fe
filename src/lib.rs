pub mod pointer;
pub mod json;
pub mod lemmas;
pub mod ui;
pub mod args;
