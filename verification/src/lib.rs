//! A programmable reverse proxy with a service registry, a service bus and Lua
//! scripting: the logic of the gateway, without its sockets and its virtual machine.

pub mod cache;
pub mod clock;
pub mod config;
pub mod dto;
pub mod gateway;
pub mod headers;
pub mod json;
pub mod lua;
pub mod models;
pub mod net;
pub mod net_laws;
pub mod observability;
pub mod registry;
pub mod retry;
pub mod service_bus;
pub mod sorted;
pub mod string_map;
pub mod table;
pub mod text;
pub mod text_laws;
