//! What the commands of the program decide and print.

pub mod agent;
pub mod leader;
pub mod output;
pub mod test;
