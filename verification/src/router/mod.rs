//! Request models and decision logic behind the HTTP interface.
pub mod api;
pub mod indice_history;
pub mod mode1;
