use buffer_pool::disk::DiskManager;
use buffer_pool::{MyError, PageId, PAGE_SIZE};

fn page_filled(b: u8) -> Vec<u8> {
    vec![b; PAGE_SIZE]
}

#[test]
fn to_u64_returns_raw_value() {
    assert_eq!(PageId(7).to_u64(), 7);
    assert_eq!(PageId(0).to_u64(), 0);
}

#[test]
fn new_splits_file_into_pages() {
    let mut bytes = page_filled(1);
    bytes.extend_from_slice(&page_filled(2));
    let disk = DiskManager::new(bytes);
    assert_eq!(disk.pages.len(), 2);
    assert_eq!(disk.next_page_id, 2);
    assert_eq!(disk.pages[0], page_filled(1));
    assert_eq!(disk.pages[1], page_filled(2));
}

#[test]
fn new_on_empty_file_starts_at_zero() {
    let disk = DiskManager::new(Vec::new());
    assert_eq!(disk.pages.len(), 0);
    assert_eq!(disk.next_page_id, 0);
}

#[test]
fn allocate_page_is_monotonic() {
    let mut disk = DiskManager::new(Vec::new());
    assert_eq!(disk.allocate_page(), PageId(0));
    assert_eq!(disk.allocate_page(), PageId(1));
    assert_eq!(disk.allocate_page(), PageId(2));
}

#[test]
fn allocate_page_starts_after_existing_pages() {
    let mut bytes = page_filled(1);
    bytes.extend_from_slice(&page_filled(2));
    let mut disk = DiskManager::new(bytes);
    assert_eq!(disk.allocate_page(), PageId(2));
}

#[test]
fn write_then_read_round_trip() {
    let mut disk = DiskManager::new(Vec::new());
    let data = page_filled(0xAB);
    disk.write_page_data(PageId(0), &data).unwrap();
    let mut out = page_filled(0);
    disk.read_page_data(PageId(0), &mut out).unwrap();
    assert_eq!(out, data);
}

#[test]
fn write_overwrites_prior_content() {
    let mut disk = DiskManager::new(page_filled(1));
    let data = page_filled(9);
    disk.write_page_data(PageId(0), &data).unwrap();
    let mut out = page_filled(0);
    disk.read_page_data(PageId(0), &mut out).unwrap();
    assert_eq!(out, data);
}

#[test]
fn write_extends_file_with_zero_pages() {
    let mut disk = DiskManager::new(Vec::new());
    let data = page_filled(5);
    disk.write_page_data(PageId(2), &data).unwrap();
    assert_eq!(disk.pages.len(), 3);
    let mut out = page_filled(7);
    disk.read_page_data(PageId(0), &mut out).unwrap();
    assert_eq!(out, page_filled(0));
    disk.read_page_data(PageId(1), &mut out).unwrap();
    assert_eq!(out, page_filled(0));
    disk.read_page_data(PageId(2), &mut out).unwrap();
    assert_eq!(out, data);
}

#[test]
fn read_past_end_of_file_is_an_error() {
    let mut disk = DiskManager::new(page_filled(1));
    let mut out = page_filled(3);
    let r = disk.read_page_data(PageId(1), &mut out);
    assert_eq!(r, Err(MyError::Io));
    // the buffer is left untouched
    assert_eq!(out, page_filled(3));
}

#[test]
fn write_does_not_touch_other_pages() {
    let mut bytes = page_filled(1);
    bytes.extend_from_slice(&page_filled(2));
    let mut disk = DiskManager::new(bytes);
    disk.write_page_data(PageId(1), &page_filled(8)).unwrap();
    let mut out = page_filled(0);
    disk.read_page_data(PageId(0), &mut out).unwrap();
    assert_eq!(out, page_filled(1));
    disk.read_page_data(PageId(1), &mut out).unwrap();
    assert_eq!(out, page_filled(8));
}
