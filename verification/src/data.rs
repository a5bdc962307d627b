//! Data schema and request planning for the Open-Meteo data source.

pub mod schema;
pub mod api;
