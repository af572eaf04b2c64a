//! Routing of commands from cloud endpoints to the devices that listen for them.
pub mod commands;
pub mod config;
pub mod handler;
pub mod http;
pub mod registry;
pub mod router;
