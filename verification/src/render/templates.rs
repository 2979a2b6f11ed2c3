//! The pages and static files of the site.
use vstd::prelude::*;

use crate::render::renderer::{Preload, PreloadType};

verus! {

/// The shell of a page: its head and its body.
pub struct IndexHtml<'a> {
    pub head: &'a str,
    pub body: &'a str,
}

/// A page that sends its reader on to another.
pub struct RedirectHtml<'a> {
    pub target: &'a str,
}

/// The links that preload files.
pub struct PrefetchHtml<'a> {
    pub preload: &'a [(String, Preload)],
}

/// A file that the site is built with: its path, its contents, and how it
/// is preloaded where it is.
pub struct StaticFile<'a> {
    pub path: &'a str,
    pub contents: &'a [u8],
    pub preload_as: Option<PreloadType>,
}

} // verus!
