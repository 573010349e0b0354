//! Allay: a configurable blog engine. This crate holds its verified core:
//! the template language, the data model, the dependency graph and the
//! path rules of the site generator.

pub mod text;
pub mod dependency;
pub mod data;
pub mod env;
pub mod ast;
pub mod cache;
pub mod compare;
pub mod compiler;
pub mod config;
pub mod error;
pub mod extract;
pub mod file;
pub mod grammar;
pub mod interpreter;
pub mod keyed;
pub mod markdown;
pub mod parser;
pub mod path;
pub mod plugin;
pub mod prefix;
pub mod scope;
pub mod semantics;
pub mod sitemap;
pub mod template;
pub mod url;
pub mod vars;
