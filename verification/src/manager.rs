//! The orchestrator: page-identifier to frame-slot lookup, cache-hit and
//! cache-miss handling, eviction, flushing of displaced modified pages,
//! and maintenance of the page table.

use vstd::prelude::*;

use std::collections::HashMap;

use vstd::set::{axiom_set_choose_len, axiom_set_remove_len};

use crate::disk::{copy_page_into, write_page_model, DiskManager};
use crate::pool::{clock_sweep, Buffer, BufferPool, Frame};
use crate::{BufferId, MyError, PageId, PAGE_SIZE};

verus! {

broadcast use vstd::std_specs::hash::group_hash_axioms;

/// `c + 1`, stopping at the top of the counter's range.
pub open spec fn saturating_inc(c: u64) -> u64 {
    if c == u64::MAX {
        c
    } else {
        (c + 1) as u64
    }
}

/// Coordinates the disk and the pool.  The page table maps the identifier
/// of each resident page to the slot that holds it; it is keyed by the
/// raw `u64` of the `PageId` so that the hash-table model applies.
pub struct BufferPoolManager {
    pub disk: DiskManager,
    pub pool: BufferPool,
    pub page_table: HashMap<u64, usize>,
}

impl BufferPoolManager {
    /// The page table as a map from raw page identifier to slot index.
    pub open spec fn table(self) -> Map<u64, usize> {
        self.page_table@
    }

    /// The frames of the pool.
    pub open spec fn frames(self) -> Seq<Frame> {
        self.pool.buffers@
    }

    /// Number of slots in the pool.
    pub open spec fn pool_size(self) -> int {
        self.pool.buffers@.len() as int
    }

    /// Page `page_id` is resident exactly when the page table maps it.
    pub open spec fn resident(self, page_id: PageId) -> bool {
        self.table().contains_key(page_id.0)
    }

    /// Well-formedness, preserved by every operation:
    /// - the disk and the pool are themselves well-formed;
    /// - every page-table entry names a slot of the pool whose frame holds
    ///   exactly that page, and the page exists on disk;
    /// - no two pages share a slot (with the previous point: the table is
    ///   a bijection between resident pages and the slots holding them);
    /// - a pinned or modified frame is always reachable through the table,
    ///   so eviction can never discard a page still in use, and a flush
    ///   always targets a page that exists on disk.
    pub open spec fn wf(self) -> bool {
        &&& self.disk.wf()
        &&& self.pool.wf()
        &&& forall|p: u64|
            #[trigger] self.table().contains_key(p) ==> {
                &&& (self.table()[p] as int) < self.frames().len()
                &&& self.frames()[self.table()[p] as int].buffer.page_id.0 == p
                &&& (p as int) < self.disk.file().len()
            }
        &&& forall|p1: u64, p2: u64|
            #![trigger self.table()[p1], self.table()[p2]]
            self.table().contains_key(p1) && self.table().contains_key(p2) && p1 != p2
                ==> self.table()[p1] != self.table()[p2]
        &&& forall|i: int|
            0 <= i < self.frames().len() && ((#[trigger] self.frames()[i]).pin_count > 0
                || self.frames()[i].buffer.is_dirty) ==> {
                &&& self.table().contains_key(self.frames()[i].buffer.page_id.0)
                &&& self.table()[self.frames()[i].buffer.page_id.0] == i
            }
    }

    /// A manager over `disk` and a pool of untouched frames, with an
    /// empty page table.
    pub fn new(disk: DiskManager, pool: BufferPool) -> (r: Self)
        requires
            disk.wf(),
            pool.wf(),
            forall|i: int|
                0 <= i < pool.buffers@.len() ==> (#[trigger] pool.buffers@[i]).pin_count == 0
                    && !pool.buffers@[i].buffer.is_dirty,
        ensures
            r.wf(),
            r.disk == disk,
            r.pool == pool,
            r.table() == Map::<u64, usize>::empty(),
    {
        let page_table: HashMap<u64, usize> = HashMap::new();
        BufferPoolManager { disk, pool, page_table }
    }

    /// The slot holding `page_id`, if that page is resident.
    pub fn lookup(&self, page_id: PageId) -> (r: Option<BufferId>)
        ensures
            match r {
                Some(b) => self.resident(page_id) && self.table()[page_id.0] == b.0,
                None => !self.resident(page_id),
            },
    {
        match self.page_table.get(&page_id.0) {
            Some(b) => Some(BufferId(*b)),
            None => None,
        }
    }

    /// Returns a handle to the page `page_id`, loading it if necessary.
    ///
    /// On a hit the page is served from its frame with no disk I/O: the
    /// frame gains one unit of recency credit and one pin, and nothing
    /// else changes.  On a miss a victim frame is reclaimed: the victim's
    /// prior content is written back first if and only if it was modified,
    /// then the requested page is read from disk into the frame (exactly
    /// one read), the frame restarts with one unit of recency credit and
    /// one pin, and the page table drops the displaced page and registers
    /// the new one.
    ///
    /// The fetch fails with `NoFreeBuffer` exactly when the page is not
    /// resident and every frame is pinned, and with `Io` exactly when the
    /// page is not resident, some frame is evictable, and the page lies
    /// past the end of the heap file; a failed fetch leaves the disk and
    /// the page table unchanged and only spends recency credit.
    pub fn fetch_page(&mut self, page_id: PageId) -> (r: Result<BufferId, MyError>)
        requires
            old(self).wf(),
        ensures
            final(self).wf(),
            final(self).pool_size() == old(self).pool_size(),
            final(self).disk.next_page_id == old(self).disk.next_page_id,
            match r {
                Ok(bid) => {
                    let i = bid.0 as int;
                    &&& i < old(self).pool_size()
                    &&& final(self).resident(page_id)
                    &&& final(self).table()[page_id.0] == bid.0
                    &&& final(self).frames()[i].buffer.page_id == page_id
                    &&& if old(self).resident(page_id) {
                        // hit: served from memory, zero disk reads and writes
                        &&& bid.0 == old(self).table()[page_id.0]
                        &&& final(self).disk == old(self).disk
                        &&& final(self).table() == old(self).table()
                        &&& final(self).frames()[i].buffer == old(self).frames()[i].buffer
                        &&& final(self).frames()[i].usage_count == saturating_inc(
                            old(self).frames()[i].usage_count,
                        )
                        &&& final(self).frames()[i].pin_count == saturating_inc(
                            old(self).frames()[i].pin_count,
                        )
                        &&& forall|j: int|
                            0 <= j < old(self).pool_size() && j != i
                                ==> #[trigger] final(self).frames()[j] == old(self).frames()[j]
                    } else {
                        // miss: the victim was unpinned; exactly one page is
                        // read, and the victim's prior content is written
                        // back if and only if it was modified
                        let victim = old(self).frames()[i];
                        &&& Some(i) == clock_sweep(
                            old(self).frames(),
                            old(self).pool.next_victim_id.0 as int,
                            0,
                        ).0
                        &&& victim.pin_count == 0
                        &&& (page_id.0 as int) < old(self).disk.file().len()
                        &&& final(self).frames()[i].usage_count == 1
                        &&& final(self).frames()[i].pin_count == 1
                        &&& !final(self).frames()[i].buffer.is_dirty
                        &&& final(self).frames()[i].buffer.page@ == old(self).disk.file()[
                            page_id.0 as int]
                        &&& final(self).disk.file() == if victim.buffer.is_dirty {
                            write_page_model(
                                old(self).disk.file(),
                                victim.buffer.page_id.0 as int,
                                victim.buffer.page@,
                            )
                        } else {
                            old(self).disk.file()
                        }
                        &&& final(self).disk.reads@ == old(self).disk.reads@ + 1
                        &&& final(self).disk.writes@ == old(self).disk.writes@ + (
                        if victim.buffer.is_dirty {
                            1nat
                        } else {
                            0nat
                        })
                        &&& final(self).table() == (
                        if old(self).table().contains_key(victim.buffer.page_id.0) && old(
                            self,
                        ).table()[victim.buffer.page_id.0] == bid.0 {
                            old(self).table().remove(victim.buffer.page_id.0)
                        } else {
                            old(self).table()
                        }).insert(page_id.0, bid.0)
                        &&& forall|j: int|
                            0 <= j < old(self).pool_size() && j != i ==> {
                                &&& (#[trigger] final(self).frames()[j]).pin_count == old(
                                    self,
                                ).frames()[j].pin_count
                                &&& final(self).frames()[j].buffer == old(self).frames()[j].buffer
                                &&& final(self).frames()[j].usage_count <= old(
                                    self,
                                ).frames()[j].usage_count
                            }
                    }
                },
                Err(e) => {
                    &&& !old(self).resident(page_id)
                    &&& final(self).table() == old(self).table()
                    &&& final(self).disk == old(self).disk
                    &&& forall|j: int|
                        0 <= j < old(self).pool_size() ==> {
                            &&& (#[trigger] final(self).frames()[j]).pin_count == old(
                                self,
                            ).frames()[j].pin_count
                            &&& final(self).frames()[j].buffer == old(self).frames()[j].buffer
                            &&& final(self).frames()[j].usage_count <= old(
                                self,
                            ).frames()[j].usage_count
                        }
                    &&& match e {
                        MyError::NoFreeBuffer => old(self).pool.all_pinned() && final(self).frames()
                            == old(self).frames(),
                        MyError::Io => {
                            &&& !old(self).pool.all_pinned()
                            &&& (page_id.0 as int) >= old(self).disk.file().len()
                            &&& final(self).frames() == clock_sweep(
                                old(self).frames(),
                                old(self).pool.next_victim_id.0 as int,
                                0,
                            ).1
                        },
                    }
                },
            },
            (r is Err) <==> (!old(self).resident(page_id) && (old(self).pool.all_pinned() || (
            page_id.0 as int) >= old(self).disk.file().len())),
    {
        // hit: bump the frame's recency credit and hand out one more pin
        if let Some(bid) = self.lookup(page_id) {
            let i = bid.0;
            proof {
                assert(self.table().contains_key(page_id.0));
                assert((i as int) < self.frames().len());
            }
            let u = self.pool.buffers[i].usage_count;
            if u < u64::MAX {
                self.pool.buffers[i].usage_count = u + 1;
            }
            let pc = self.pool.buffers[i].pin_count;
            if pc < u64::MAX {
                self.pool.buffers[i].pin_count = pc + 1;
            }
            return Ok(bid);
        }
        // miss: choose a victim frame
        let vic = match self.pool.evict() {
            Some(v) => v,
            None => {
                return Err(MyError::NoFreeBuffer);
            },
        };
        let i = vic.0;
        // the load would fail if the page lies past the end of the file;
        // nothing has been displaced yet, so give up with the pool intact
        let flen = self.disk.pages.len();
        if page_id.0 >= flen as u64 {
            return Err(MyError::Io);
        }
        // flush the victim's prior content before it is overwritten
        let evict_pid = self.pool.buffers[i].buffer.page_id;
        let dirty = self.pool.buffers[i].buffer.is_dirty;
        if dirty {
            proof {
                assert(self.table().contains_key(evict_pid.0));
                assert((evict_pid.0 as int) < self.disk.file().len());
            }
            let _ = self.disk.write_page_data(evict_pid, &self.pool.buffers[i].buffer.page);
        }
        // load the requested page into the victim's buffer
        let loaded = self.disk.read_page_data(page_id, &mut self.pool.buffers[i].buffer.page);
        proof {
            assert((page_id.0 as int) < self.disk.file().len());
            assert(loaded is Ok);
        }
        // repurpose the frame: new identity, clean, fresh recency, pinned
        // by the handle being returned
        self.pool.buffers[i].buffer.page_id = page_id;
        self.pool.buffers[i].buffer.is_dirty = false;
        self.pool.buffers[i].usage_count = 1;
        self.pool.buffers[i].pin_count = 1;
        // page table: drop the displaced page's entry if this slot held
        // it, then register the new mapping
        let remove_old = match self.page_table.get(&evict_pid.0) {
            Some(j) => *j == i,
            None => false,
        };
        if remove_old {
            self.page_table.remove(&evict_pid.0);
        }
        self.page_table.insert(page_id.0, i);
        proof {
            lemma_fetch_miss_wf(*old(self), *self, page_id, i, evict_pid, remove_old);
        }
        Ok(vic)
    }

    /// Releases one handle to the page in slot `buffer_id`: the pin the
    /// handle held is dropped, and once no pins remain the frame becomes
    /// eligible for eviction.
    pub fn release_page(&mut self, buffer_id: BufferId)
        requires
            old(self).wf(),
            (buffer_id.0 as int) < old(self).pool_size(),
            old(self).frames()[buffer_id.0 as int].pin_count > 0,
        ensures
            final(self).wf(),
            final(self).table() == old(self).table(),
            final(self).disk == old(self).disk,
            final(self).frames() == old(self).frames().update(
                buffer_id.0 as int,
                (Frame {
                    usage_count: old(self).frames()[buffer_id.0 as int].usage_count,
                    pin_count: (old(self).frames()[buffer_id.0 as int].pin_count - 1) as u64,
                    buffer: old(self).frames()[buffer_id.0 as int].buffer,
                }),
            ),
    {
        let pc = self.pool.buffers[buffer_id.0].pin_count;
        self.pool.buffers[buffer_id.0].pin_count = pc - 1;
        proof {
            assert(self.frames() =~= old(self).frames().update(
                buffer_id.0 as int,
                self.frames()[buffer_id.0 as int],
            ));
        }
    }

    /// Sets the modified flag of the buffer in slot `buffer_id`, an
    /// operation a holder performs through its handle: the bytes now
    /// differ from the on-disk page and will be flushed before the frame
    /// is reused.
    pub fn mark_modified(&mut self, buffer_id: BufferId)
        requires
            old(self).wf(),
            (buffer_id.0 as int) < old(self).pool_size(),
            old(self).frames()[buffer_id.0 as int].pin_count > 0,
        ensures
            final(self).wf(),
            final(self).table() == old(self).table(),
            final(self).disk == old(self).disk,
            final(self).frames() == old(self).frames().update(
                buffer_id.0 as int,
                (Frame {
                    usage_count: old(self).frames()[buffer_id.0 as int].usage_count,
                    pin_count: old(self).frames()[buffer_id.0 as int].pin_count,
                    buffer: Buffer {
                        page_id: old(self).frames()[buffer_id.0 as int].buffer.page_id,
                        page: old(self).frames()[buffer_id.0 as int].buffer.page,
                        is_dirty: true,
                    },
                }),
            ),
    {
        self.pool.buffers[buffer_id.0].buffer.is_dirty = true;
        proof {
            assert(self.frames() =~= old(self).frames().update(
                buffer_id.0 as int,
                self.frames()[buffer_id.0 as int],
            ));
        }
    }

    /// Replaces the bytes of the buffer in slot `buffer_id`, an operation
    /// a holder performs through its handle.  The modified flag is left
    /// alone: a holder that wants the new bytes to outlive the frame must
    /// also mark the buffer modified.
    pub fn write_buffer_data(&mut self, buffer_id: BufferId, data: &Vec<u8>)
        requires
            old(self).wf(),
            (buffer_id.0 as int) < old(self).pool_size(),
            old(self).frames()[buffer_id.0 as int].pin_count > 0,
            data@.len() == PAGE_SIZE,
        ensures
            final(self).wf(),
            final(self).table() == old(self).table(),
            final(self).disk == old(self).disk,
            final(self).frames().len() == old(self).frames().len(),
            final(self).frames()[buffer_id.0 as int].buffer.page@ == data@,
            final(self).frames()[buffer_id.0 as int].buffer.page_id == old(self).frames()[
                buffer_id.0 as int].buffer.page_id,
            final(self).frames()[buffer_id.0 as int].buffer.is_dirty == old(self).frames()[
                buffer_id.0 as int].buffer.is_dirty,
            final(self).frames()[buffer_id.0 as int].usage_count == old(self).frames()[
                buffer_id.0 as int].usage_count,
            final(self).frames()[buffer_id.0 as int].pin_count == old(self).frames()[
                buffer_id.0 as int].pin_count,
            forall|j: int|
                0 <= j < old(self).pool_size() && j != buffer_id.0 as int
                    ==> #[trigger] final(self).frames()[j] == old(self).frames()[j],
    {
        copy_page_into(&mut self.pool.buffers[buffer_id.0].buffer.page, data);
    }

    /// The bytes of the buffer in slot `buffer_id`, read through a handle.
    pub fn buffer_bytes(&self, buffer_id: BufferId) -> (r: &Vec<u8>)
        requires
            self.wf(),
            (buffer_id.0 as int) < self.pool_size(),
            self.frames()[buffer_id.0 as int].pin_count > 0,
        ensures
            r@ == self.frames()[buffer_id.0 as int].buffer.page@,
    {
        &self.pool.buffers[buffer_id.0].buffer.page
    }
}

/// Law: at all times the number of distinct pages resident in the page
/// table is at most the pool size.
pub proof fn lemma_capacity_bound(m: BufferPoolManager)
    requires
        m.wf(),
    ensures
        m.table().dom().len() <= m.pool_size(),
{
    lemma_injective_table_len(m.table(), m.pool_size());
}

/// Law: a page whose frame is pinned, or whose buffer carries unflushed
/// changes, is always resident: the page table reaches it, so no fetch
/// can ever load a second copy of it, and eviction (which takes only
/// unpinned frames and flushes modified ones) can never discard data
/// still in use.
pub proof fn lemma_pinned_page_stays_resident(m: BufferPoolManager, i: int)
    requires
        m.wf(),
        0 <= i < m.pool_size(),
        m.frames()[i].pin_count > 0 || m.frames()[i].buffer.is_dirty,
    ensures
        m.resident(m.frames()[i].buffer.page_id),
        m.table()[m.frames()[i].buffer.page_id.0] == i,
{
}

/// Law: the page table is a bijection between resident pages and the
/// slots that hold them.  It is a map, so a page has at most one slot;
/// this direction says that no two resident pages share a slot.
pub proof fn lemma_page_table_bijective(m: BufferPoolManager, p1: u64, p2: u64)
    requires
        m.wf(),
        m.table().contains_key(p1),
        m.table().contains_key(p2),
        p1 != p2,
    ensures
        m.table()[p1] != m.table()[p2],
{
}

/// A finite map whose values are distinct slot indices below `n` has at
/// most `n` entries.
proof fn lemma_injective_table_len(t: Map<u64, usize>, n: int)
    requires
        t.dom().finite(),
        n >= 0,
        forall|p: u64| #[trigger] t.contains_key(p) ==> (t[p] as int) < n,
        forall|p1: u64, p2: u64|
            #![trigger t[p1], t[p2]]
            t.contains_key(p1) && t.contains_key(p2) && p1 != p2 ==> t[p1] != t[p2],
    ensures
        t.dom().len() <= n,
    decreases n,
{
    if n == 0 {
        if t.dom().len() != 0 {
            axiom_set_choose_len(t.dom());
            let p = t.dom().choose();
            assert(t.contains_key(p));
            assert(false);
        }
    } else {
        if exists|p: u64| #[trigger] t.contains_key(p) && (t[p] as int) == n - 1 {
            let p0 = choose|p: u64| #[trigger] t.contains_key(p) && (t[p] as int) == n - 1;
            let t2 = t.remove(p0);
            assert(t2.dom() =~= t.dom().remove(p0));
            assert forall|p: u64| #[trigger] t2.contains_key(p) implies (t2[p] as int) < n
                - 1 by {
                assert(t.contains_key(p) && p != p0);
                assert(t[p] != t[p0]);
            }
            lemma_injective_table_len(t2, n - 1);
            axiom_set_remove_len(t.dom(), p0);
        } else {
            assert forall|p: u64| #[trigger] t.contains_key(p) implies (t[p] as int) < n - 1 by {
                assert((t[p] as int) != n - 1);
            }
            lemma_injective_table_len(t, n - 1);
        }
    }
}

/// The page-table and frame bookkeeping at the end of a cache miss keeps
/// the manager well-formed.
proof fn lemma_fetch_miss_wf(
    pre: BufferPoolManager,
    post: BufferPoolManager,
    page_id: PageId,
    i: usize,
    evict_pid: PageId,
    removed: bool,
)
    requires
        pre.wf(),
        !pre.resident(page_id),
        (i as int) < pre.pool_size(),
        post.pool_size() == pre.pool_size(),
        post.pool.wf(),
        post.disk.wf(),
        evict_pid == pre.frames()[i as int].buffer.page_id,
        pre.frames()[i as int].pin_count == 0,
        post.disk.file().len() >= pre.disk.file().len(),
        (page_id.0 as int) < pre.disk.file().len(),
        post.frames()[i as int].buffer.page_id == page_id,
        !post.frames()[i as int].buffer.is_dirty,
        post.frames()[i as int].pin_count == 1,
        removed == (pre.table().contains_key(evict_pid.0) && pre.table()[evict_pid.0] == i),
        post.table() == (
        if removed {
            pre.table().remove(evict_pid.0)
        } else {
            pre.table()
        }).insert(page_id.0, i),
        forall|j: int|
            0 <= j < pre.pool_size() && j != i as int ==> {
                &&& (#[trigger] post.frames()[j]).pin_count == pre.frames()[j].pin_count
                &&& post.frames()[j].buffer == pre.frames()[j].buffer
            },
    ensures
        post.wf(),
{
    assert forall|p: u64| #[trigger] post.table().contains_key(p) implies {
        &&& (post.table()[p] as int) < post.frames().len()
        &&& post.frames()[post.table()[p] as int].buffer.page_id.0 == p
        &&& (p as int) < post.disk.file().len()
    } by {
        if p == page_id.0 {
            assert(post.table()[p] == i);
        } else {
            assert(pre.table().contains_key(p));
            assert(pre.table()[p] == post.table()[p]);
            let s = pre.table()[p] as int;
            if s == i as int {
                assert(pre.frames()[i as int].buffer.page_id.0 == p);
                assert(p == evict_pid.0);
                assert(removed);
                assert(!post.table().contains_key(p));
            }
            assert(s != i as int);
            assert(post.frames()[s].buffer == pre.frames()[s].buffer);
        }
    }
    assert forall|p1: u64, p2: u64|
        #![trigger post.table()[p1], post.table()[p2]]
        post.table().contains_key(p1) && post.table().contains_key(p2) && p1
            != p2 implies post.table()[p1] != post.table()[p2] by {
        if p1 != page_id.0 && p2 != page_id.0 {
            assert(pre.table().contains_key(p1) && pre.table().contains_key(p2));
            assert(pre.table()[p1] != pre.table()[p2]);
        } else {
            let q = if p1 == page_id.0 {
                p2
            } else {
                p1
            };
            assert(pre.table().contains_key(q));
            if pre.table()[q] == i {
                assert(pre.frames()[i as int].buffer.page_id.0 == q);
                assert(q == evict_pid.0);
                assert(removed);
                assert(!post.table().contains_key(q));
            }
        }
    }
    assert forall|j: int|
        0 <= j < post.frames().len() && ((#[trigger] post.frames()[j]).pin_count > 0
            || post.frames()[j].buffer.is_dirty) implies {
        &&& post.table().contains_key(post.frames()[j].buffer.page_id.0)
        &&& post.table()[post.frames()[j].buffer.page_id.0] == j
    } by {
        if j == i as int {
            assert(post.table()[page_id.0] == i);
        } else {
            assert(pre.frames()[j].pin_count > 0 || pre.frames()[j].buffer.is_dirty);
            let q = pre.frames()[j].buffer.page_id.0;
            assert(pre.table().contains_key(q) && pre.table()[q] == j);
            assert(q != page_id.0);
            if removed {
                assert(q != evict_pid.0) by {
                    if q == evict_pid.0 {
                        assert(pre.table()[evict_pid.0] == i);
                    }
                }
            }
            assert(post.table().contains_key(q) && post.table()[q] == j);
        }
    }
}

} // verus!
