//! Verified core of the aipack scripting layer: the text, path, markdown-free
//! string utilities that the Lua and Rhai modules expose, and the decoding of
//! the special `_aipack_` / `_devai_` values that scripts return.

pub mod text;
pub mod path;
pub mod json;
pub mod error;
pub mod custom_value;
pub mod aipack_custom;
pub mod devai_custom;
pub mod devai_action;
pub mod rhai_devai;
pub mod dynamic_support;
pub mod code;
pub mod cmd;
pub mod lua_error;
pub mod lua_support;
pub mod lua_dump;
pub mod config_table;
pub mod web;
pub mod md;
