//! Plugin management core of the Saya desktop application: manifest
//! validation, the plugin network-isolation scanner, the signed plugin
//! marketplace, SQL statement planning for plugin item tables, and the
//! LLM-based classification helpers.

pub mod text;
pub mod plugins;
pub mod llm;
pub mod db;
