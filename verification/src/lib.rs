//! Verified core of the ingestion monitor: marker parsing, step catalogues,
//! script declarations, run state, update selection and the fleet views.

pub mod text;
pub mod steps;
pub mod marker_syntax;
pub mod markers;
pub mod updates;
pub mod probe;
pub mod process;
pub mod scripts;
pub mod state;
pub mod stepper;
pub mod format;
pub mod model;
pub mod fleet_view;
pub mod trace_view;
pub mod ui;
pub mod icons;
pub mod trace_tree;
pub mod transit;
pub mod trace_steps;
pub mod trace_card;
pub mod trace_panels;
pub mod trace_logs;
