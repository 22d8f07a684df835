//! A file-sharing gateway's storage rules: containment of request paths under a
//! content root, directory listings, upload bookkeeping and relocation of files,
//! each stated as a contract and proved.

pub mod error;
pub mod text;
pub mod order;
pub mod path;
pub mod size;
pub mod jstemplate;
pub mod filetree;
pub mod upload;
pub mod filemove;
pub mod config;
