//! Earlier designs (of the typed interface and of the threaded getter), kept for comparison.
pub mod api_build;
pub mod logic;
pub mod preventative;
pub mod generated;
pub mod reo;
pub mod rba_builder;
pub mod shared_get;
