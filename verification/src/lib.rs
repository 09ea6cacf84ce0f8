//! A library for building bills of materials of electronic projects: projects and the list
//! of recently opened ones, the CSV import of component lists, the resolution of generic part
//! identifiers against a parts database, and the grouped rows of the exported BOM.

pub mod text;
pub mod bom;
pub mod clock;
pub mod recent_projects;
pub mod project_data;
pub mod commands;
pub mod state;
pub mod template;
pub mod xml_text;
pub mod db;
pub mod nextdb;
pub mod export;
pub mod hf_drawing;
