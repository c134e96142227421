//! Verified host-side logic of the aarch64-vmsa FVP test runner.
pub mod text;
pub mod protocol;
pub mod args;
pub mod terminal;
pub mod report;
pub mod catalog_plan;
pub mod process;
pub mod supervisor;
pub mod run;
pub mod podman;
