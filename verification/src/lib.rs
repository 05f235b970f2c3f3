//! Records, rules and decisions of a food-inspection service: the import of
//! health-department inspection results, the grouping of places, inspections
//! and violations for the map view, and the asset pipeline that rebuilds
//! static files when the files they are built from change.

pub mod assets;
pub mod datetime;
pub mod manifest;
pub mod models;
pub mod scraper;
pub mod text;
pub mod web;
pub mod xml;
