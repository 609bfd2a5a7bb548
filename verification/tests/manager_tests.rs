use buffer_pool::disk::DiskManager;
use buffer_pool::manager::BufferPoolManager;
use buffer_pool::pool::BufferPool;
use buffer_pool::{BufferId, MyError, PageId, PAGE_SIZE};

fn page_filled(b: u8) -> Vec<u8> {
    vec![b; PAGE_SIZE]
}

/// A manager over a heap file of `n_pages` pages, page `i` filled with
/// the byte `i + 1`, and a pool of `pool_size` frames.
fn manager(n_pages: u8, pool_size: usize) -> BufferPoolManager {
    let mut bytes = Vec::new();
    for i in 0..n_pages {
        bytes.extend_from_slice(&page_filled(i + 1));
    }
    BufferPoolManager::new(DiskManager::new(bytes), BufferPool::new(pool_size))
}

fn read_from_disk(mgr: &mut BufferPoolManager, id: PageId) -> Vec<u8> {
    let mut out = page_filled(0);
    mgr.disk.read_page_data(id, &mut out).unwrap();
    out
}

#[test]
fn fetch_miss_loads_page_from_disk() {
    let mut mgr = manager(2, 2);
    let bid = mgr.fetch_page(PageId(1)).unwrap();
    assert_eq!(bid, BufferId(0));
    assert_eq!(mgr.pool.buffers[0].buffer.page_id, PageId(1));
    assert_eq!(mgr.pool.buffers[0].buffer.page, page_filled(2));
    assert_eq!(mgr.pool.buffers[0].usage_count, 1);
    assert_eq!(mgr.pool.buffers[0].pin_count, 1);
    assert!(!mgr.pool.buffers[0].buffer.is_dirty);
}

#[test]
fn fetch_hit_returns_same_slot_without_io() {
    let mut mgr = manager(2, 2);
    let before = read_from_disk(&mut mgr, PageId(0));
    let b1 = mgr.fetch_page(PageId(0)).unwrap();
    let b2 = mgr.fetch_page(PageId(0)).unwrap();
    assert_eq!(b1, b2);
    // one cached copy, not two
    assert_eq!(mgr.page_table.len(), 1);
    // the hit raised recency and pinned once more
    assert_eq!(mgr.pool.buffers[b1.0].usage_count, 2);
    assert_eq!(mgr.pool.buffers[b1.0].pin_count, 2);
    // the disk was not touched
    assert_eq!(mgr.disk.pages.len(), 2);
    assert_eq!(read_from_disk(&mut mgr, PageId(0)), before);
}

#[test]
fn capacity_bound_holds_under_pressure() {
    let mut mgr = manager(5, 2);
    for id in 0..5u64 {
        let bid = mgr.fetch_page(PageId(id)).unwrap();
        mgr.release_page(bid);
        assert!(mgr.page_table.len() <= 2);
    }
}

#[test]
fn page_table_never_maps_two_pages_to_one_slot() {
    let mut mgr = manager(4, 2);
    for id in 0..4u64 {
        let bid = mgr.fetch_page(PageId(id)).unwrap();
        mgr.release_page(bid);
        let mut slots: Vec<usize> = mgr.page_table.values().copied().collect();
        slots.sort();
        slots.dedup();
        assert_eq!(slots.len(), mgr.page_table.len());
        for (page, slot) in mgr.page_table.iter() {
            assert_eq!(mgr.pool.buffers[*slot].buffer.page_id, PageId(*page));
        }
    }
}

#[test]
fn fetch_fails_when_every_frame_is_pinned() {
    let mut mgr = manager(3, 2);
    let a = mgr.fetch_page(PageId(0)).unwrap();
    let b = mgr.fetch_page(PageId(1)).unwrap();
    assert_eq!(mgr.fetch_page(PageId(2)), Err(MyError::NoFreeBuffer));
    // dropping one pin makes the fetch succeed again
    mgr.release_page(a);
    let c = mgr.fetch_page(PageId(2)).unwrap();
    assert_ne!(c, b);
    mgr.release_page(b);
    mgr.release_page(c);
}

#[test]
fn fetch_of_page_past_end_of_file_is_io_error() {
    let mut mgr = manager(1, 2);
    assert_eq!(mgr.fetch_page(PageId(5)), Err(MyError::Io));
    // the failure displaced nothing
    assert_eq!(mgr.page_table.len(), 0);
    assert_eq!(mgr.disk.pages.len(), 1);
}

#[test]
fn clock_sweep_scenario() {
    // pool of two frames; pages A = 0, B = 1, C = 2
    let a = PageId(0);
    let b = PageId(1);
    let c = PageId(2);
    let mut mgr = manager(3, 2);

    // fetch A: miss into slot 0, recency 1
    let ha = mgr.fetch_page(a).unwrap();
    assert_eq!(ha, BufferId(0));
    assert_eq!(mgr.pool.buffers[0].usage_count, 1);

    // fetch B: miss into slot 1, recency 1 (slot 0 is pinned by A's handle)
    let hb = mgr.fetch_page(b).unwrap();
    assert_eq!(hb, BufferId(1));
    assert_eq!(mgr.pool.buffers[1].usage_count, 1);

    // fetch A again: hit on slot 0, recency 2
    let ha2 = mgr.fetch_page(a).unwrap();
    assert_eq!(ha2, BufferId(0));
    assert_eq!(mgr.pool.buffers[0].usage_count, 2);

    // drop every handle
    mgr.release_page(ha);
    mgr.release_page(ha2);
    mgr.release_page(hb);

    // fetch C: the sweep spends recency (slot 0: 2 -> 1, slot 1: 1 -> 0,
    // slot 0: 1 -> 0) and selects slot 1 on the next lap
    let before_b = read_from_disk(&mut mgr, b);
    let hc = mgr.fetch_page(c).unwrap();
    assert_eq!(hc, BufferId(1));
    assert_eq!(mgr.pool.buffers[1].buffer.page_id, c);
    // B was clean, so nothing was flushed
    assert_eq!(read_from_disk(&mut mgr, b), before_b);
    // page table is now exactly {A -> slot 0, C -> slot 1}
    assert_eq!(mgr.page_table.len(), 2);
    assert_eq!(mgr.page_table.get(&a.0), Some(&0));
    assert_eq!(mgr.page_table.get(&c.0), Some(&1));
    assert_eq!(mgr.page_table.get(&b.0), None);
}

#[test]
fn dirty_victim_is_flushed_before_reuse() {
    // fetch A, modify it in memory, release it, then force its eviction
    let a = PageId(0);
    let mut mgr = manager(4, 2);
    let ha = mgr.fetch_page(a).unwrap();
    assert_eq!(ha, BufferId(0));
    let mutated = page_filled(0xEE);
    mgr.mark_modified(ha);
    mgr.write_buffer_data(ha, &mutated);
    assert_eq!(mgr.buffer_bytes(ha), &mutated);
    mgr.release_page(ha);

    // before eviction the disk still holds the original bytes
    assert_eq!(read_from_disk(&mut mgr, a), page_filled(1));

    // fetch enough distinct pages to force A out of the pool
    let h1 = mgr.fetch_page(PageId(1)).unwrap();
    mgr.release_page(h1);
    let h2 = mgr.fetch_page(PageId(2)).unwrap();
    mgr.release_page(h2);
    let h3 = mgr.fetch_page(PageId(3)).unwrap();
    mgr.release_page(h3);
    assert_eq!(mgr.page_table.get(&a.0), None);

    // the mutated bytes, not the originals, are on disk
    assert_eq!(read_from_disk(&mut mgr, a), mutated);
}

#[test]
fn clean_victim_is_not_flushed() {
    let a = PageId(0);
    let mut mgr = manager(4, 1);
    let ha = mgr.fetch_page(a).unwrap();
    // modify the bytes but do not mark the buffer: the pool owes the
    // change nothing, and eviction discards it
    mgr.write_buffer_data(ha, &page_filled(0xEE));
    mgr.release_page(ha);
    let h1 = mgr.fetch_page(PageId(1)).unwrap();
    mgr.release_page(h1);
    assert_eq!(read_from_disk(&mut mgr, a), page_filled(1));
}

#[test]
fn eviction_replaces_table_entry() {
    let mut mgr = manager(3, 1);
    let h0 = mgr.fetch_page(PageId(0)).unwrap();
    mgr.release_page(h0);
    let h1 = mgr.fetch_page(PageId(1)).unwrap();
    mgr.release_page(h1);
    assert_eq!(mgr.page_table.len(), 1);
    assert_eq!(mgr.page_table.get(&1), Some(&0));
    assert_eq!(mgr.page_table.get(&0), None);
}

#[test]
fn allocate_write_fetch_cycle() {
    let mut mgr = manager(0, 2);
    let id = mgr.disk.allocate_page();
    assert_eq!(id, PageId(0));
    // the identifier exists before any bytes are written for it: fetching
    // it now fails, because the file does not reach it yet
    assert_eq!(mgr.fetch_page(id), Err(MyError::Io));
    mgr.disk.write_page_data(id, &page_filled(7)).unwrap();
    let h = mgr.fetch_page(id).unwrap();
    assert_eq!(mgr.buffer_bytes(h), &page_filled(7));
    mgr.release_page(h);
}
