//! The listing of the known templates.

use crate::text::string_views;
use crate::cache::{live_among, live_templates, loaded, CacheFile, FoundTemplate, TemplateCache};
use crate::cache_model::{listing_lines, refresh_model, CategoryModel};
use crate::error::Failure;
use vstd::prelude::*;

verus! {

/// The command that lists the known templates.
pub struct CmdList;

/// What a listing comes to.
pub struct Listing {
    /// The index, brought up to date.
    pub cache: TemplateCache,
    /// Whether the index changed and is to be written back.
    pub changed: bool,
    /// The lines to show.
    pub lines: Vec<String>,
}

impl CmdList {
    /// The command; a listing takes no arguments.
    pub fn new(_cmd: Vec<String>) -> Self {
        CmdList
    }

    /// Lists the templates: loads the index from what the index file holds,
    /// refreshes it against the templates that the scan of the
    /// configuration directory found, and shows it. Fails, as loading does,
    /// where the index file cannot be read or understood.
    pub fn init(&mut self, file: CacheFile, found: &Vec<FoundTemplate>) -> (result: Result<
        Listing,
        Failure,
    >)
        ensures
            match result {
                Ok(listing) => {
                    &&& loaded(file) is Ok
                    &&& (listing.cache@, listing.changed) == refresh_model(
                        loaded(file)->Ok_0,
                        live_among(found@),
                    )
                    &&& string_views(listing.lines@) == listing_lines(listing.cache@)
                },
                Err(failure) => loaded(file) == Err::<Seq<CategoryModel>, Failure>(failure),
            },
    {
        match TemplateCache::load(file) {
            Err(failure) => Err(failure),
            Ok(cache) => {
                let mut cache = cache;
                let live = live_templates(found);
                let changed = cache.refresh(&live);
                let lines = cache.display();
                Ok(Listing { cache, changed, lines })
            },
        }
    }
}

} // verus!
