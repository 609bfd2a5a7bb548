//! A fixed-capacity buffer pool backed by a flat heap file of fixed-size
//! pages, with clock-sweep eviction and write-back of modified pages.
//!
//! The heap file is modelled as the in-memory sequence of its pages; the
//! code that moves those bytes to and from an actual file lives outside
//! this library.

use vstd::prelude::*;

pub mod disk;
pub mod manager;
pub mod pool;

verus! {

/// Size in bytes of one page, the unit of storage and of caching.
pub const PAGE_SIZE: usize = 4096;

/// Identifier of one page of the heap file.  Page `id` occupies bytes
/// `id * PAGE_SIZE .. (id + 1) * PAGE_SIZE` of the file; identifiers are
/// assigned monotonically and never recycled.
#[derive(Debug, PartialEq, Eq, Hash, Copy, Clone, Structural)]
pub struct PageId(pub u64);

impl PageId {
    /// The raw 64-bit value of this identifier.
    pub fn to_u64(self) -> (r: u64)
        ensures
            r == self.0,
    {
        self.0
    }
}

impl Default for PageId {
    fn default() -> (r: Self)
        ensures
            r == (PageId(0)),
    {
        PageId(0)
    }
}

/// Index of one frame of a buffer pool, in `[0, pool_size)`.
#[derive(Debug, PartialEq, Eq, Copy, Clone, Structural)]
pub struct BufferId(pub usize);

impl Default for BufferId {
    fn default() -> (r: Self)
        ensures
            r == (BufferId(0)),
    {
        BufferId(0)
    }
}

/// The errors of the pool.
#[derive(Debug, PartialEq, Eq, Copy, Clone, Structural)]
pub enum MyError {
    /// A page read went past the end of the heap file.
    Io,
    /// A full eviction sweep found every frame pinned.
    NoFreeBuffer,
}

/// Link header that a higher layer may store at the front of a page.
/// This library never interprets page contents; the type is provided
/// for callers that chain pages together.
pub struct Header {
    pub prev_page_id: PageId,
    pub next_page_id: PageId,
}

} // verus!
