//! The record of what has been asked of the operating system for the
//! address space: which ranges were to be mapped, set aside or given back.
//!
//! The toolkit decides what to map; the embedding performs it. The decisions
//! are kept here in the order in which they were made, together with the
//! number of pages that may still be committed.

use crate::util::address::Address;
use crate::util::constants::BYTES_IN_PAGE;
use vstd::prelude::*;

verus! {

/// What is asked for a range of pages.
#[derive(Debug, Clone, Copy, PartialEq, Eq, Structural)]
pub enum MmapKind {
    /// Map the range and commit memory to it.
    Commit,
    /// Set the range aside for the caller without committing memory.
    Quarantine,
    /// Give the range back.
    Release,
}

/// One request: `pages` pages from `start` on.
#[derive(Debug, Clone, Copy, PartialEq, Eq, Structural)]
pub struct MmapRequest {
    pub kind: MmapKind,
    pub start: Address,
    pub pages: usize,
}

/// The page budget does not cover a request to map.
#[derive(Debug, Clone, Copy, PartialEq, Eq, Structural)]
pub struct MmapError {
    /// The first address of the range that was refused.
    pub start: Address,
    /// The number of pages that were asked for.
    pub pages: usize,
}

impl MmapRequest {
    /// Whether the request takes in the byte at `addr`.
    pub open spec fn covers(self, addr: int) -> bool {
        self.start@ <= addr < self.start@ + self.pages * BYTES_IN_PAGE
    }
}

/// Whether the byte at `addr` is mapped after `requests`: the last request
/// that takes it in is one to map.
pub open spec fn spec_is_mapped(requests: Seq<MmapRequest>, addr: int) -> bool
    decreases requests.len(),
{
    if requests.len() == 0 {
        false
    } else if requests.last().covers(addr) {
        requests.last().kind == MmapKind::Commit
    } else {
        spec_is_mapped(requests.drop_last(), addr)
    }
}

/// The requests made so far and the pages that may still be committed.
pub struct Mmapper {
    requests: Vec<MmapRequest>,
    pages_left: usize,
}

impl Mmapper {
    /// The requests made so far, oldest first.
    pub closed spec fn requests(&self) -> Seq<MmapRequest> {
        self.requests@
    }

    /// The number of pages that may still be committed.
    pub closed spec fn pages_left(&self) -> int {
        self.pages_left as int
    }

    /// Whether the byte at `addr` is mapped.
    pub open spec fn is_mapped(&self, addr: int) -> bool {
        spec_is_mapped(self.requests(), addr)
    }

    /// No request yet, and `page_budget` pages to commit.
    pub fn new(page_budget: usize) -> (m: Mmapper)
        ensures
            m.requests() == Seq::<MmapRequest>::empty(),
            m.pages_left() == page_budget,
    {
        Mmapper { requests: Vec::new(), pages_left: page_budget }
    }

    /// Asks for `pages` pages from `start` on to be mapped. The request is
    /// refused, and nothing recorded, when the budget does not cover it.
    pub fn ensure_mapped(&mut self, start: Address, pages: usize) -> (res: Result<(), MmapError>)
        ensures
            pages <= old(self).pages_left() ==> res == Ok::<(), MmapError>(())
                && final(self).requests() == old(self).requests().push(
                MmapRequest { kind: MmapKind::Commit, start, pages },
            ) && final(self).pages_left() == old(self).pages_left() - pages,
            pages > old(self).pages_left() ==> res == Err::<(), MmapError>(
                MmapError { start, pages },
            ) && final(self).requests() == old(self).requests() && final(self).pages_left() == old(
                self,
            ).pages_left(),
    {
        if pages > self.pages_left {
            return Err(MmapError { start, pages });
        }
        self.pages_left = self.pages_left - pages;
        self.requests.push(MmapRequest { kind: MmapKind::Commit, start, pages });
        Ok(())
    }

    /// Sets `pages` pages from `start` on aside without committing memory
    /// to them. This takes nothing from the budget and is never refused.
    pub fn quarantine_address_range(&mut self, start: Address, pages: usize) -> (res: Result<
        (),
        MmapError,
    >)
        ensures
            res == Ok::<(), MmapError>(()),
            final(self).requests() == old(self).requests().push(
                MmapRequest { kind: MmapKind::Quarantine, start, pages },
            ),
            final(self).pages_left() == old(self).pages_left(),
    {
        self.requests.push(MmapRequest { kind: MmapKind::Quarantine, start, pages });
        Ok(())
    }

    /// Gives `pages` pages from `start` on back. The budget stays as it is.
    pub fn ensure_unmapped(&mut self, start: Address, pages: usize)
        ensures
            final(self).requests() == old(self).requests().push(
                MmapRequest { kind: MmapKind::Release, start, pages },
            ),
            final(self).pages_left() == old(self).pages_left(),
    {
        self.requests.push(MmapRequest { kind: MmapKind::Release, start, pages });
    }

    /// Whether the byte at `addr` is mapped.
    pub fn is_mapped_address(&self, addr: Address) -> (b: bool)
        ensures
            b == self.is_mapped(addr@),
    {
        let mut i: usize = self.requests.len();
        assert(self.requests@.subrange(0, i as int) =~= self.requests@);
        while i > 0
            invariant
                i <= self.requests@.len(),
                spec_is_mapped(self.requests@, addr@) == spec_is_mapped(
                    self.requests@.subrange(0, i as int),
                    addr@,
                ),
            decreases i,
        {
            let r = self.requests[i - 1];
            let ghost prefix = self.requests@.subrange(0, i as int);
            assert(prefix.last() == r);
            assert(prefix.drop_last() =~= self.requests@.subrange(0, i - 1));
            // the range of r is [start, start + pages * page): test without overflow
            if addr.0 >= r.start.0 {
                let off: usize = addr.0 - r.start.0;
                if off / BYTES_IN_PAGE < r.pages {
                    assert(r.covers(addr@)) by (nonlinear_arith)
                        requires
                            off == addr@ - r.start@,
                            off / BYTES_IN_PAGE < r.pages,
                            r.covers(addr@) == (r.start@ <= addr@ < r.start@ + r.pages * 4096),
                            BYTES_IN_PAGE == 4096,
                            off >= 0,
                    ;
                    return matches!(r.kind, MmapKind::Commit);
                }
                assert(!r.covers(addr@)) by (nonlinear_arith)
                    requires
                        off == addr@ - r.start@,
                        off / BYTES_IN_PAGE >= r.pages,
                        r.covers(addr@) == (r.start@ <= addr@ < r.start@ + r.pages * 4096),
                        BYTES_IN_PAGE == 4096,
                        off >= 0,
                ;
            }
            i = i - 1;
        }
        assert(self.requests@.subrange(0, 0).len() == 0);
        false
    }

    /// The number of pages that may still be committed.
    pub fn get_pages_left(&self) -> (n: usize)
        ensures
            n == self.pages_left(),
    {
        self.pages_left
    }

    /// The requests made so far, oldest first.
    pub fn get_requests(&self) -> (r: &Vec<MmapRequest>)
        ensures
            r@ == self.requests(),
    {
        &self.requests
    }
}

} // verus!
