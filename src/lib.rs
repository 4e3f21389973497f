//! Import, normalisation and maintenance of a corpus of markdown documents
//! whose assets are tied to their document by file name alone.

pub mod document;
pub mod event;
pub mod html;
pub mod importer;
pub mod manager;
pub mod naming;
pub mod resolver;
pub mod site;
pub mod summary;
pub mod text;
pub mod toc;
