//! Finds the application bundles whose executables hold an architecture that
//! this machine does not need, and removes that architecture from the
//! bundles that the user chooses.
//!
//! The library holds the rules: how the architecture tool's reports are
//! read, which bundles are listed and in what order, what the keys do, and
//! which commands a trim runs. It touches neither files nor processes; the
//! program around it does, and hands it plain values.

pub mod app;
pub mod command;
pub mod discovery;
pub mod order;
pub mod reports;
pub mod scanner;
pub mod selection;
pub mod slot;
pub mod text;
pub mod trim;
