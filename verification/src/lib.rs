//! A library for managing academic papers and other resources: validating
//! what is stored against templates and resource configurations, turning API
//! responses into resources, keeping the registry of configurations, and the
//! SQL and ordering behind the paper database.
use vstd::prelude::*;

pub mod configuration;
pub mod database;
pub mod datetime;
pub mod environment;
pub mod error;
pub mod json;
pub mod keyed;
pub mod llm;
pub mod pattern;
pub mod pdf;
pub mod record;
pub mod resource;
pub mod retriever;
pub mod template;
pub mod text;
