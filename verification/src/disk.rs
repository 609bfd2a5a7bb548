//! Page-granular I/O against the heap file, and assignment of new page
//! identifiers.
//!
//! The heap file is held here as the sequence of its pages.  Reading the
//! bytes of an actual file into that sequence, and writing them back, is
//! plain byte movement that a caller performs outside this library.

use vstd::prelude::*;

use crate::{MyError, PageId, PAGE_SIZE};

verus! {

/// A page filled with zero bytes.
pub open spec fn zero_page() -> Seq<u8> {
    Seq::new(PAGE_SIZE as nat, |i: int| 0u8)
}

/// The heap file after page `id` is overwritten with `data`: the file is
/// extended with zero pages until page `id` exists, then page `id` is
/// replaced.
pub open spec fn write_page_model(file: Seq<Seq<u8>>, id: int, data: Seq<u8>) -> Seq<Seq<u8>> {
    let grown = if id < file.len() {
        file
    } else {
        file + Seq::new((id + 1 - file.len()) as nat, |j: int| zero_page())
    };
    grown.update(id, data)
}

/// A fresh `PAGE_SIZE`-byte buffer of zero bytes.
pub fn new_zero_page() -> (v: Vec<u8>)
    ensures
        v@ == zero_page(),
{
    let mut v: Vec<u8> = Vec::new();
    let mut j: usize = 0;
    while j < PAGE_SIZE
        invariant
            j <= PAGE_SIZE,
            v@.len() == j,
            forall|m: int| 0 <= m < j ==> v@[m] == 0u8,
        decreases PAGE_SIZE - j,
    {
        v.push(0u8);
        j = j + 1;
    }
    proof {
        assert(v@ =~= zero_page());
    }
    v
}

/// Copies one page's bytes from `src` over `dst`; both must already span
/// exactly one page.
pub fn copy_page_into(dst: &mut Vec<u8>, src: &Vec<u8>)
    requires
        old(dst)@.len() == PAGE_SIZE,
        src@.len() == PAGE_SIZE,
    ensures
        final(dst)@ == src@,
{
    let mut j: usize = 0;
    while j < PAGE_SIZE
        invariant
            j <= PAGE_SIZE,
            dst@.len() == PAGE_SIZE,
            src@.len() == PAGE_SIZE,
            forall|m: int| 0 <= m < j ==> dst@[m] == src@[m],
        decreases PAGE_SIZE - j,
    {
        let b = src[j];
        dst.set(j, b);
        j = j + 1;
    }
    proof {
        assert(dst@ =~= src@);
    }
}

/// Owns the heap file: a flat sequence of `PAGE_SIZE`-byte pages, where
/// page `id` occupies file bytes `id * PAGE_SIZE .. (id + 1) * PAGE_SIZE`.
pub struct DiskManager {
    /// The pages of the heap file.
    pub pages: Vec<Vec<u8>>,
    /// Counter deciding the next page identifier to hand out.
    pub next_page_id: u64,
    /// Number of page reads served so far (ghost; lets callers state how
    /// much I/O an operation performed).
    pub reads: Ghost<nat>,
    /// Number of page writes performed so far (ghost).
    pub writes: Ghost<nat>,
}

impl DiskManager {
    /// The heap file as a sequence of pages.
    pub open spec fn file(self) -> Seq<Seq<u8>> {
        self.pages@.map_values(|p: Vec<u8>| p@)
    }

    /// Every page of the file is exactly `PAGE_SIZE` bytes.
    pub open spec fn wf(self) -> bool {
        forall|i: int| 0 <= i < self.pages@.len() ==> (#[trigger] self.pages@[i])@.len() == PAGE_SIZE
    }

    /// Takes the raw bytes of the heap file, whose length must be a whole
    /// number of pages, and computes the next identifier to allocate as
    /// `file length / PAGE_SIZE`.
    pub fn new(file_bytes: Vec<u8>) -> (r: Self)
        requires
            file_bytes@.len() % (PAGE_SIZE as nat) == 0,
        ensures
            r.wf(),
            r.file().len() * PAGE_SIZE == file_bytes@.len(),
            forall|i: int|
                0 <= i < r.file().len() ==> r.file()[i] == file_bytes@.subrange(
                    i * (PAGE_SIZE as int),
                    (i + 1) * (PAGE_SIZE as int),
                ),
            r.next_page_id == r.file().len(),
            r.reads@ == 0,
            r.writes@ == 0,
    {
        let total = file_bytes.len();
        let mut pages: Vec<Vec<u8>> = Vec::new();
        let mut t: usize = 0;
        while t < total
            invariant
                t <= total,
                total == file_bytes@.len(),
                total % PAGE_SIZE == 0,
                t == pages@.len() * PAGE_SIZE,
                forall|i: int| 0 <= i < pages@.len() ==> (#[trigger] pages@[i])@.len() == PAGE_SIZE,
                forall|i: int|
                    0 <= i < pages@.len() ==> (#[trigger] pages@[i])@ == file_bytes@.subrange(
                        i * (PAGE_SIZE as int),
                        (i + 1) * (PAGE_SIZE as int),
                    ),
            decreases total - t,
        {
            proof {
                // a positive multiple of the page size is at least one page long
                vstd::arithmetic::div_mod::lemma_sub_mod_noop(
                    total as int,
                    t as int,
                    PAGE_SIZE as int,
                );
                vstd::arithmetic::div_mod::lemma_mod_self_0(PAGE_SIZE as int);
                if (total - t) % (PAGE_SIZE as int) == 0 && total - t < PAGE_SIZE {
                    vstd::arithmetic::div_mod::lemma_small_mod(
                        (total - t) as nat,
                        PAGE_SIZE as nat,
                    );
                }
            }
            let mut page: Vec<u8> = Vec::new();
            let mut j: usize = 0;
            while j < PAGE_SIZE
                invariant
                    j <= PAGE_SIZE,
                    t + PAGE_SIZE <= total,
                    total == file_bytes@.len(),
                    page@.len() == j,
                    forall|m: int| 0 <= m < j ==> page@[m] == file_bytes@[t + m],
                decreases PAGE_SIZE - j,
            {
                page.push(file_bytes[t + j]);
                j = j + 1;
            }
            proof {
                assert(page@ =~= file_bytes@.subrange(
                    pages@.len() * (PAGE_SIZE as int),
                    (pages@.len() + 1) * (PAGE_SIZE as int),
                ));
            }
            pages.push(page);
            t = t + PAGE_SIZE;
        }
        let n_pages = pages.len();
        let r = DiskManager {
            pages,
            next_page_id: n_pages as u64,
            reads: Ghost(0),
            writes: Ghost(0),
        };
        proof {
            assert(r.file().len() == r.pages@.len());
        }
        r
    }

    /// Returns a fresh unique page identifier by advancing the internal
    /// counter; performs no I/O.
    pub fn allocate_page(&mut self) -> (r: PageId)
        requires
            old(self).next_page_id < u64::MAX,
        ensures
            r == (PageId(old(self).next_page_id)),
            final(self).next_page_id == old(self).next_page_id + 1,
            final(self).pages == old(self).pages,
            final(self).reads == old(self).reads,
            final(self).writes == old(self).writes,
    {
        let page_id = self.next_page_id;
        self.next_page_id = self.next_page_id + 1;
        PageId(page_id)
    }

    /// Reads page `page_id` into the caller's `PAGE_SIZE`-byte buffer.
    /// Reading a page past the end of the file is an error and leaves the
    /// buffer untouched.
    pub fn read_page_data(&mut self, page_id: PageId, data: &mut Vec<u8>) -> (r: Result<
        (),
        MyError,
    >)
        requires
            old(self).wf(),
            old(data)@.len() == PAGE_SIZE,
        ensures
            final(self).wf(),
            final(self).pages == old(self).pages,
            final(self).next_page_id == old(self).next_page_id,
            final(self).writes == old(self).writes,
            final(data)@.len() == PAGE_SIZE,
            match r {
                Ok(()) => {
                    &&& (page_id.0 as int) < old(self).file().len()
                    &&& final(data)@ == old(self).file()[page_id.0 as int]
                    &&& final(self).reads@ == old(self).reads@ + 1
                },
                Err(e) => {
                    &&& e == MyError::Io
                    &&& (page_id.0 as int) >= old(self).file().len()
                    &&& final(data)@ == old(data)@
                    &&& final(self).reads == old(self).reads
                },
            },
    {
        let n = self.pages.len();
        if page_id.0 >= n as u64 {
            return Err(MyError::Io);
        }
        let idx = page_id.0 as usize;
        copy_page_into(data, &self.pages[idx]);
        self.reads = Ghost(self.reads@ + 1);
        proof {
            assert(data@ =~= self.file()[page_id.0 as int]);
        }
        Ok(())
    }

    /// Writes the caller's `PAGE_SIZE`-byte buffer as page `page_id`,
    /// extending the file with zero pages if it does not yet reach that
    /// page.
    pub fn write_page_data(&mut self, page_id: PageId, data: &Vec<u8>) -> (r: Result<(), MyError>)
        requires
            old(self).wf(),
            data@.len() == PAGE_SIZE,
            page_id.0 < usize::MAX as u64,
        ensures
            final(self).wf(),
            r == Ok::<(), MyError>(()),
            final(self).file() == write_page_model(old(self).file(), page_id.0 as int, data@),
            final(self).next_page_id == old(self).next_page_id,
            final(self).reads == old(self).reads,
            final(self).writes@ == old(self).writes@ + 1,
            final(self).file().len() >= old(self).file().len(),
            (page_id.0 as int) < final(self).file().len(),
    {
        let idx = page_id.0 as usize;
        let ghost orig_file = self.file();
        while self.pages.len() <= idx
            invariant
                idx < usize::MAX,
                self.pages@.len() >= orig_file.len(),
                self.pages@.len() == orig_file.len() || self.pages@.len() <= idx + 1,
                forall|i: int| 0 <= i < orig_file.len() ==> (#[trigger] self.pages@[i])@
                    == orig_file[i],
                forall|i: int|
                    orig_file.len() <= i < self.pages@.len() ==> (#[trigger] self.pages@[i])@
                        == zero_page(),
                self.next_page_id == old(self).next_page_id,
                self.reads == old(self).reads,
                self.writes == old(self).writes,
            decreases idx + 1 - self.pages@.len(),
        {
            let z = new_zero_page();
            self.pages.push(z);
        }
        let mut page = new_zero_page();
        copy_page_into(&mut page, data);
        self.pages.set(idx, page);
        self.writes = Ghost(self.writes@ + 1);
        proof {
            if (page_id.0 as int) < orig_file.len() {
                assert(self.pages@.len() == orig_file.len());
            } else {
                assert(self.pages@.len() == page_id.0 as int + 1);
            }
            assert(self.file() =~= write_page_model(orig_file, page_id.0 as int, data@));
        }
        Ok(())
    }
}

/// Law: writing a page and then reading the same page back yields exactly
/// the bytes that were written, whatever the file held before.
pub proof fn lemma_write_read_round_trip(file: Seq<Seq<u8>>, id: int, data: Seq<u8>)
    requires
        0 <= id,
    ensures
        id < write_page_model(file, id, data).len(),
        write_page_model(file, id, data)[id] == data,
{
}

} // verus!
