//! The in-memory side of the cache: buffers, the frames that hold them,
//! and the fixed-capacity pool with its clock-sweep victim selection.

use vstd::prelude::*;

use vstd::arithmetic::div_mod::{lemma_add_mod_noop_right, lemma_mod_bound, lemma_small_mod};

use crate::disk::{new_zero_page, zero_page};
use crate::{BufferId, PageId, PAGE_SIZE};

verus! {

/// The in-memory materialization of one page: the identifier of the page
/// it holds, the page's bytes, and whether those bytes still have to be
/// written back before the buffer may be reused.
pub struct Buffer {
    /// Identifier of the page this buffer currently holds.
    pub page_id: PageId,
    /// The cached copy of the page's bytes.
    pub page: Vec<u8>,
    /// Whether the bytes differ from the on-disk page and must be flushed
    /// before the buffer is overwritten.
    pub is_dirty: bool,
}

impl Buffer {
    /// The cached bytes always span exactly one page.
    pub open spec fn wf(self) -> bool {
        self.page@.len() == PAGE_SIZE
    }
}

impl Default for Buffer {
    /// An empty placeholder: page 0, zero bytes, not modified.
    fn default() -> (r: Self)
        ensures
            r.page_id == (PageId(0)),
            r.page@ == zero_page(),
            !r.is_dirty,
            r.wf(),
    {
        Buffer { page_id: PageId(0), page: new_zero_page(), is_dirty: false }
    }
}

/// A pool slot: one buffer together with the counters that drive and
/// restrain its eviction.
pub struct Frame {
    /// Recency credit: raised on access, consumed by the clock sweep.
    pub usage_count: u64,
    /// Number of handles held outside the pool.  A pinned frame (nonzero
    /// count) is never chosen as a victim.
    pub pin_count: u64,
    /// The buffer this slot owns; repurposed in place on eviction.
    pub buffer: Buffer,
}

impl Frame {
    pub open spec fn wf(self) -> bool {
        self.buffer.wf()
    }
}

impl Default for Frame {
    /// A fresh slot: no recency, no pins, an empty placeholder buffer.
    fn default() -> (r: Self)
        ensures
            r.usage_count == 0,
            r.pin_count == 0,
            r.buffer.page_id == (PageId(0)),
            r.buffer.page@ == zero_page(),
            !r.buffer.is_dirty,
            r.wf(),
    {
        Frame { usage_count: 0, pin_count: 0, buffer: Buffer::default() }
    }
}

/// Total recency credit held by a sequence of frames; the measure that
/// shrinks each time the clock sweep gives a frame its second chance.
pub open spec fn sum_usage(frames: Seq<Frame>) -> nat
    decreases frames.len(),
{
    if frames.len() == 0 {
        0
    } else {
        frames[0].usage_count as nat + sum_usage(frames.drop_first())
    }
}

proof fn lemma_sum_usage_update(frames: Seq<Frame>, i: int, f: Frame)
    requires
        0 <= i < frames.len(),
    ensures
        sum_usage(frames.update(i, f)) + frames[i].usage_count == sum_usage(frames)
            + f.usage_count,
    decreases frames.len(),
{
    let updated = frames.update(i, f);
    if i == 0 {
        assert(updated.drop_first() =~= frames.drop_first());
    } else {
        assert(updated.drop_first() =~= frames.drop_first().update(i - 1, f));
        lemma_sum_usage_update(frames.drop_first(), i - 1, f);
    }
}

/// The clock sweep as a function: from the frames, the cursor and the
/// length of the current streak of pinned frames, the victim chosen (if
/// any), the frames as the scan leaves them, and where the cursor comes
/// to rest.  `BufferPool::evict` returns exactly this.
pub open spec fn clock_sweep(frames: Seq<Frame>, cursor: int, streak: int) -> (
    Option<int>,
    Seq<Frame>,
    int,
)
    decreases sum_usage(frames), frames.len() - streak,
    when 0 <= cursor < frames.len() && 0 <= streak < frames.len()
    via clock_sweep_decreases
{
    let n = frames.len() as int;
    let f = frames[cursor];
    if f.pin_count == 0 {
        if f.usage_count == 0 {
            (Some(cursor), frames, (cursor + 1) % n)
        } else {
            clock_sweep(
                frames.update(
                    cursor,
                    Frame {
                        usage_count: (f.usage_count - 1) as u64,
                        pin_count: f.pin_count,
                        buffer: f.buffer,
                    },
                ),
                (cursor + 1) % n,
                0,
            )
        }
    } else {
        if streak + 1 >= n {
            (None, frames, cursor)
        } else {
            clock_sweep(frames, (cursor + 1) % n, streak + 1)
        }
    }
}

#[via_fn]
proof fn clock_sweep_decreases(frames: Seq<Frame>, cursor: int, streak: int) {
    let n = frames.len() as int;
    let f = frames[cursor];
    lemma_mod_bound(cursor + 1, n);
    if f.pin_count == 0 && f.usage_count != 0 {
        lemma_sum_usage_update(
            frames,
            cursor,
            Frame {
                usage_count: (f.usage_count - 1) as u64,
                pin_count: f.pin_count,
                buffer: f.buffer,
            },
        );
    }
}

/// A fixed array of frames plus the rotating cursor of the clock-sweep
/// victim scan.
pub struct BufferPool {
    /// The frames; allocated once, never grown or shrunk.
    pub buffers: Vec<Frame>,
    /// Where the next eviction scan starts.
    pub next_victim_id: BufferId,
}

impl BufferPool {
    pub open spec fn wf(self) -> bool {
        &&& self.buffers@.len() >= 1
        &&& (self.next_victim_id.0 as int) < self.buffers@.len()
        &&& forall|i: int| 0 <= i < self.buffers@.len() ==> (#[trigger] self.buffers@[i]).wf()
    }

    /// Every frame of the pool is pinned.
    pub open spec fn all_pinned(self) -> bool {
        forall|i: int|
            0 <= i < self.buffers@.len() ==> (#[trigger] self.buffers@[i]).pin_count > 0
    }

    /// A pool of `pool_size` fresh frames, with the scan cursor at slot 0.
    pub fn new(pool_size: usize) -> (r: Self)
        requires
            pool_size >= 1,
        ensures
            r.wf(),
            r.buffers@.len() == pool_size,
            r.next_victim_id == (BufferId(0)),
            forall|i: int|
                0 <= i < pool_size ==> {
                    &&& (#[trigger] r.buffers@[i]).usage_count == 0
                    &&& r.buffers@[i].pin_count == 0
                    &&& r.buffers@[i].buffer.page_id == (PageId(0))
                    &&& r.buffers@[i].buffer.page@ == zero_page()
                    &&& !r.buffers@[i].buffer.is_dirty
                },
    {
        let mut buffers: Vec<Frame> = Vec::new();
        let mut k: usize = 0;
        while k < pool_size
            invariant
                k <= pool_size,
                buffers@.len() == k,
                forall|i: int|
                    0 <= i < k ==> {
                        &&& (#[trigger] buffers@[i]).usage_count == 0
                        &&& buffers@[i].pin_count == 0
                        &&& buffers@[i].buffer.page_id == (PageId(0))
                        &&& buffers@[i].buffer.page@ == zero_page()
                        &&& !buffers@[i].buffer.is_dirty
                    },
            decreases pool_size - k,
        {
            buffers.push(Frame::default());
            k = k + 1;
        }
        BufferPool { buffers, next_victim_id: BufferId(0) }
    }

    /// Number of frames in the pool.
    pub fn size(&self) -> (r: usize)
        ensures
            r == self.buffers@.len(),
    {
        self.buffers.len()
    }

    /// The slot after `buffer_id`, wrapping around the frame array.
    pub fn increment_id(&self, buffer_id: BufferId) -> (r: BufferId)
        requires
            self.wf(),
            (buffer_id.0 as int) < self.buffers@.len(),
        ensures
            r.0 as int == (buffer_id.0 + 1) % (self.buffers@.len() as int),
            (r.0 as int) < self.buffers@.len(),
    {
        let n = self.size();
        BufferId((buffer_id.0 + 1) % n)
    }

    /// Clock-sweep victim selection.  The cursor walks the frame array; a
    /// frame that is unpinned and out of recency credit is taken as the
    /// victim, an unpinned frame with credit left loses one unit and is
    /// passed over, and a pinned frame is skipped.  Once a full lap meets
    /// nothing but pinned frames the sweep gives up.  The cursor always
    /// advances past the frame just examined, the chosen victim included,
    /// so later calls continue the round-robin fairly.
    ///
    /// Policy decision: a frame is selected only when it is unpinned
    /// *and* out of credit, jointly.  Recency never overrides a pin, so
    /// a page still in use can never be reclaimed, even if its credit
    /// reached zero while it was pinned.
    ///
    /// Selection never changes a pin count or a buffer; it only spends
    /// recency credit.  A victim is found exactly when some frame is
    /// unpinned, and when every frame is pinned the pool is left
    /// untouched.
    pub fn evict(&mut self) -> (r: Option<BufferId>)
        requires
            old(self).wf(),
        ensures
            final(self).wf(),
            final(self).buffers@.len() == old(self).buffers@.len(),
            forall|i: int|
                0 <= i < old(self).buffers@.len() ==> {
                    &&& (#[trigger] final(self).buffers@[i]).pin_count == old(
                        self,
                    ).buffers@[i].pin_count
                    &&& final(self).buffers@[i].buffer == old(self).buffers@[i].buffer
                    &&& final(self).buffers@[i].usage_count <= old(self).buffers@[i].usage_count
                },
            match r {
                Some(v) => {
                    &&& (v.0 as int) < old(self).buffers@.len()
                    &&& final(self).buffers@[v.0 as int].pin_count == 0
                    &&& final(self).buffers@[v.0 as int].usage_count == 0
                    &&& final(self).next_victim_id.0 as int == (v.0 + 1) % (
                    old(self).buffers@.len() as int)
                },
                None => {
                    &&& final(self).buffers@ == old(self).buffers@
                    &&& final(self).next_victim_id.0 as int == (old(self).next_victim_id.0
                        + old(self).buffers@.len() - 1) % (old(self).buffers@.len() as int)
                },
            },
            (r is None) <==> old(self).all_pinned(),
            ({
                let sw = clock_sweep(old(self).buffers@, old(self).next_victim_id.0 as int, 0);
                &&& (match r {
                    Some(v) => sw.0 == Some(v.0 as int),
                    None => sw.0 is None,
                })
                &&& final(self).buffers@ == sw.1
                &&& final(self).next_victim_id.0 as int == sw.2
            }),
    {
        let pool_size = self.size();
        let mut consecutive_pinned: usize = 0;
        let ghost mut streak_start: int = self.next_victim_id.0 as int;
        proof {
            lemma_small_mod(streak_start as nat, pool_size as nat);
        }
        loop
            invariant
                self.wf(),
                pool_size == self.buffers@.len(),
                self.buffers@.len() == old(self).buffers@.len(),
                consecutive_pinned < pool_size,
                0 <= streak_start < pool_size,
                self.next_victim_id.0 as int == (streak_start + consecutive_pinned) % (
                pool_size as int),
                forall|j: int|
                    0 <= j < consecutive_pinned ==> (#[trigger] self.buffers@[(streak_start + j)
                        % (pool_size as int)]).pin_count > 0,
                forall|i: int|
                    0 <= i < old(self).buffers@.len() ==> {
                        &&& (#[trigger] self.buffers@[i]).pin_count == old(
                            self,
                        ).buffers@[i].pin_count
                        &&& self.buffers@[i].buffer == old(self).buffers@[i].buffer
                        &&& self.buffers@[i].usage_count <= old(self).buffers@[i].usage_count
                    },
                old(self).all_pinned() ==> self.buffers@ == old(self).buffers@ && streak_start
                    == old(self).next_victim_id.0 as int,
                clock_sweep(old(self).buffers@, old(self).next_victim_id.0 as int, 0)
                    == clock_sweep(
                    self.buffers@,
                    self.next_victim_id.0 as int,
                    consecutive_pinned as int,
                ),
            decreases sum_usage(self.buffers@), pool_size - consecutive_pinned,
        {
            let ghost pre_bufs = self.buffers@;
            let ghost pre_cursor = self.next_victim_id.0 as int;
            let ghost pre_streak = consecutive_pinned as int;
            let cur = self.next_victim_id;
            if self.buffers[cur.0].pin_count == 0 {
                proof {
                    assert(old(self).buffers@[cur.0 as int].pin_count == 0);
                    assert(!old(self).all_pinned());
                }
                if self.buffers[cur.0].usage_count == 0 {
                    self.next_victim_id = self.increment_id(cur);
                    proof {
                        assert(clock_sweep(pre_bufs, pre_cursor, pre_streak) == (
                            Some(pre_cursor),
                            pre_bufs,
                            (pre_cursor + 1) % (pool_size as int),
                        ));
                    }
                    return Some(cur);
                }
                let ghost before = self.buffers@;
                let u = self.buffers[cur.0].usage_count;
                self.buffers[cur.0].usage_count = u - 1;
                proof {
                    assert(self.buffers@ =~= before.update(
                        cur.0 as int,
                        self.buffers@[cur.0 as int],
                    ));
                    lemma_sum_usage_update(before, cur.0 as int, self.buffers@[cur.0 as int]);
                    assert(sum_usage(self.buffers@) < sum_usage(before));
                }
                consecutive_pinned = 0;
                self.next_victim_id = self.increment_id(cur);
                proof {
                    streak_start = self.next_victim_id.0 as int;
                    lemma_small_mod(streak_start as nat, pool_size as nat);
                    assert(self.buffers@ == pre_bufs.update(
                        pre_cursor,
                        Frame {
                            usage_count: (pre_bufs[pre_cursor].usage_count - 1) as u64,
                            pin_count: pre_bufs[pre_cursor].pin_count,
                            buffer: pre_bufs[pre_cursor].buffer,
                        },
                    ));
                    assert(clock_sweep(pre_bufs, pre_cursor, pre_streak) == clock_sweep(
                        self.buffers@,
                        self.next_victim_id.0 as int,
                        0,
                    ));
                }
            } else {
                consecutive_pinned = consecutive_pinned + 1;
                if consecutive_pinned >= pool_size {
                    proof {
                        let n = pool_size as int;
                        assert forall|i: int|
                            0 <= i < old(self).buffers@.len() implies (#[trigger] old(
                            self,
                        ).buffers@[i]).pin_count > 0 by {
                            let jj: int = (i - streak_start) % n;
                            lemma_mod_bound(i - streak_start, n);
                            lemma_add_mod_noop_right(streak_start, i - streak_start, n);
                            lemma_small_mod(i as nat, n as nat);
                            assert((streak_start + jj) % n == i);
                            if jj < n - 1 {
                                assert(self.buffers@[(streak_start + jj) % n].pin_count > 0);
                            } else {
                                assert((streak_start + jj) % n == cur.0 as int);
                                assert(self.buffers@[cur.0 as int].pin_count > 0);
                            }
                            assert(self.buffers@[i].pin_count == old(self).buffers@[i].pin_count);
                        }
                        assert(old(self).all_pinned());
                        assert(clock_sweep(pre_bufs, pre_cursor, pre_streak) == (
                            None::<int>,
                            pre_bufs,
                            pre_cursor,
                        ));
                    }
                    return None;
                }
                self.next_victim_id = self.increment_id(cur);
                proof {
                    lemma_add_mod_noop_right(
                        1,
                        streak_start + (consecutive_pinned - 1),
                        pool_size as int,
                    );
                    assert(clock_sweep(pre_bufs, pre_cursor, pre_streak) == clock_sweep(
                        self.buffers@,
                        self.next_victim_id.0 as int,
                        consecutive_pinned as int,
                    ));
                }
            }
        }
    }
}

} // verus!
