//! Declares deployable stacks in layered configuration files and reconciles
//! each one with a Portainer server or an SSH host running `docker compose`.

pub mod config;
pub mod engine;
pub mod envfile;
pub mod paths;
pub mod portainer;
pub mod ssh;
pub mod text;
pub mod timefmt;
