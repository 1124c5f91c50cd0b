//! What the routers promise beyond single calls.
pub mod history;
pub mod module;
pub mod module_steps;
pub mod nexus;
pub mod nexus_steps;
pub mod supervisor;
pub mod supervisor_steps;
