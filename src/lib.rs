//! Resolution of per-example run configurations for the example targets of a
//! workspace, and the pure decisions around running them.
pub mod config_args;
pub mod struct_merge;
pub mod example_config;
pub mod templates;
pub mod fallback;
pub mod read_example_configuration;
pub mod runs;
