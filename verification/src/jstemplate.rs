//! The data that the presentation layer renders.

use vstd::prelude::*;

verus! {

/// What the upload script is rendered from: the URL that uploads are posted to.
pub struct JsTemplate<'a> {
    pub host: &'a str,
}

/// The style sheet; it takes no data.
pub struct CssTemplate {}

/// What a listing page is rendered from.
pub struct IndexTemplate<'a> {
    pub path: &'a str,
    pub items: Vec<FileItem>,
    pub script: &'a str,
    pub style: &'a str,
}

/// One row of a listing, ready for display.
pub struct FileItem {
    pub name: String,
    pub link: String,
    pub date: String,
    pub size: String,
}

} // verus!
