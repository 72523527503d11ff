//! Builds the contents of a Windows Installer (MSI) package for a compiled
//! application and its resource files: the directory tree, the cabinets that
//! carry the file bytes, the content-seeded identifiers, and every row of the
//! installer database tables.  Writing the container itself is left to the
//! caller, which hands the plans computed here to the database and cabinet
//! codecs.
pub mod text;
pub mod path;
pub mod settings;
pub mod resources;
pub mod cabinets;
pub mod directories;
pub mod guid;
pub mod table;
pub mod core_tables;
pub mod ui_tables;
pub mod package;
