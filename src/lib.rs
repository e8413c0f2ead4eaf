pub mod container;
pub mod discover;
pub mod importer;
pub mod leaf;
pub mod options;
pub mod parser;
pub mod paths;
pub mod text;
pub mod tree;
pub mod url_to_matcher;
pub mod views;
