//! A verified core for a table viewer of a hosted REST database: building the
//! request, turning a JSON response into a table, ordering rows, exporting
//! CSV, and the state machine behind the viewer's controls.

pub mod text;
pub mod ordering;
pub mod json;
pub mod table;
pub mod request;
pub mod csv;
pub mod viewer;
pub mod laws;
