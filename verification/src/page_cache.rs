//! The store of page contents, keyed by page identifier.

use crate::error::IntegrityError;
use crate::protocol::message::PAGE_SIZE;
use std::collections::BTreeMap;
use vstd::prelude::*;

verus! {

/// Maps a page identifier to the content of exactly one page. A later page
/// under the same identifier replaces the earlier one; nothing is ever removed.
pub struct PageCache {
    pages: BTreeMap<u32, Vec<u8>>,
}

impl View for PageCache {
    type V = Map<u32, Seq<u8>>;

    closed spec fn view(&self) -> Map<u32, Seq<u8>> {
        self.pages@.map_values(|page: Vec<u8>| page@)
    }
}

/// Every page in the map has exactly the size of a page.
pub open spec fn pages_whole(pages: Map<u32, Seq<u8>>) -> bool {
    forall|page_id: u32| #[trigger]
        pages.contains_key(page_id) ==> pages[page_id].len() == PAGE_SIZE
}

impl PageCache {
    /// The invariant of the cache.
    pub open spec fn wf(&self) -> bool {
        pages_whole(self@)
    }

    /// The empty cache.
    pub fn new() -> (cache: PageCache)
        ensures
            cache.wf(),
            cache@ == Map::<u32, Seq<u8>>::empty(),
    {
        let cache = PageCache { pages: BTreeMap::new() };
        assert(cache@ =~= Map::<u32, Seq<u8>>::empty());
        cache
    }

    /// Admits a page under `page_id`, in place of any earlier page with that
    /// identifier. A page of the wrong size is refused and the cache stays as
    /// it is.
    pub fn insert(&mut self, page_id: u32, page: Vec<u8>) -> (r: Result<(), IntegrityError>)
        requires
            old(self).wf(),
        ensures
            final(self).wf(),
            match r {
                Ok(()) => page@.len() == PAGE_SIZE && final(self)@ == old(self)@.insert(
                    page_id,
                    page@,
                ),
                Err(e) => page@.len() != PAGE_SIZE && final(self)@ == old(self)@ && e == (
                IntegrityError::WrongPageLength { page_id, len: page@.len() as usize }),
            },
    {
        if page.len() != PAGE_SIZE {
            return Err(IntegrityError::WrongPageLength { page_id, len: page.len() });
        }
        let ghost content = page@;
        self.pages.insert(page_id, page);
        assert(self@ =~= old(self)@.insert(page_id, content));
        Ok(())
    }

    /// The page stored under `page_id`, if there is one.
    pub fn get(&self, page_id: u32) -> (r: Option<&Vec<u8>>)
        ensures
            match r {
                Some(page) => self@.contains_key(page_id) && page@ == self@[page_id],
                None => !self@.contains_key(page_id),
            },
    {
        self.pages.get(&page_id)
    }

    /// Whether a page is stored under `page_id`.
    pub fn contains(&self, page_id: u32) -> (r: bool)
        ensures
            r == self@.contains_key(page_id),
    {
        self.pages.contains_key(&page_id)
    }
}

} // verus!
