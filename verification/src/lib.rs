//! Decision logic of a load-testing tool: rate control, coordination, scheduling, reporting and
//! the control API, each operation with a machine-checked contract.

pub mod api;
pub mod capture;
pub mod cli;
pub mod controller;
pub mod coordinator;
pub mod decimal;
pub mod dropping;
pub mod engine;
pub mod generator;
pub mod histogram;
pub mod in_flight;
pub mod io_worker;
pub mod isolation;
pub mod num;
pub mod order;
pub mod precision;
pub mod report;
pub mod rounding;
pub mod scheduler;
pub mod signal;
pub mod text;
pub mod timer_thread;
pub mod types;
