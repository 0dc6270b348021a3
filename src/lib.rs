//! A reaction-role bot core: a registry mapping emoji to role ids, built from
//! administrator-authored configuration, and a dispatcher for text commands.

pub mod commands;
pub mod reactions;
pub mod registry;
pub mod role_map;
