//! Process-view and telemetry logic of a terminal resource monitor:
//! temperature conversion and ordering, process grouping and sorting,
//! substring and regular-expression search, and the decisions of the event
//! loop (freeze, input throttling, key mapping, start-up configuration).
pub mod names;
pub mod temperature;
pub mod process;
pub mod search;
pub mod pattern;
pub mod view;
pub mod events;
