pub mod text;
pub mod cargo_config;
pub mod patch_laws;
pub mod error;
pub mod build_system;
pub mod dependency_checker;
pub mod platform_helper;
