//! The address-space model behind `mmap`/`munmap`: which virtual pages the
//! mapping mechanism currently backs with its own frames, and the decoding
//! of the user-facing `port` permission bits.
//!
//! The page table and the physical-frame allocator live beneath this
//! abstraction; this core decides only which page ranges are inserted or
//! removed, and both operations are all-or-nothing.

use vstd::prelude::*;

verus! {

broadcast use vstd::seq_lib::lemma_seq_contains_after_push;

/// Bytes per virtual page.
pub const PAGE_SIZE: usize = 4096;

/// Access permissions of one mapping: read/write/execute plus the
/// user-accessible bit.
#[derive(Clone, Copy, Debug, PartialEq, Eq, Structural)]
pub struct MapPermission {
    pub r: bool,
    pub w: bool,
    pub x: bool,
    pub u: bool,
}

/// Whether a `port` argument is well-formed: at least one of the three
/// R/W/X bits set and no other bits set.
pub open spec fn valid_port(port: usize) -> bool {
    1 <= port <= 7
}

/// Decode the 3-bit `port` field of `mmap`: bit 0 requests read, bit 1
/// write, bit 2 execute. Any value with no valid bit or with extra bits is
/// rejected. A decoded permission always carries the user-accessible bit.
pub fn change_port_to_permission(port: usize) -> (r: Option<MapPermission>)
    ensures
        r is Some <==> valid_port(port),
        r matches Some(p) ==> {
            &&& p.r == (port % 2 == 1)
            &&& p.w == (port / 2 % 2 == 1)
            &&& p.x == (port / 4 % 2 == 1)
            &&& p.u
        },
{
    let user_permission = MapPermission { r: false, w: false, x: false, u: true };
    match port {
        1 => Some(MapPermission { r: true, ..user_permission }),
        2 => Some(MapPermission { w: true, ..user_permission }),
        4 => Some(MapPermission { x: true, ..user_permission }),
        3 => Some(MapPermission { r: true, w: true, ..user_permission }),
        5 => Some(MapPermission { r: true, x: true, ..user_permission }),
        6 => Some(MapPermission { w: true, x: true, ..user_permission }),
        7 => Some(MapPermission { r: true, w: true, x: true, ..user_permission }),
        _ => None,
    }
}

/// A virtual address is page-aligned when it is a multiple of `PAGE_SIZE`.
pub open spec fn spec_aligned(va: usize) -> bool {
    va % PAGE_SIZE == 0
}

/// Page-alignment check on a virtual address.
pub fn aligned(va: usize) -> (r: bool)
    ensures
        r == spec_aligned(va),
{
    va % PAGE_SIZE == 0
}

/// The virtual page numbers covered by the byte range `[start, end)`:
/// the start rounds down, the end rounds up.
pub open spec fn range_start_vpn(start: usize) -> int {
    start as int / PAGE_SIZE as int
}

/// One past the last virtual page number covered by `[start, end)`.
pub open spec fn range_end_vpn(end: usize) -> int {
    end as int / PAGE_SIZE as int + if end as int % PAGE_SIZE as int != 0 {
        1int
    } else {
        0int
    }
}

/// One process's mapping table, as far as this core observes it: the set of
/// virtual page numbers currently backed by frames that the mapping
/// mechanism itself allocated (the program's load image is not in it).
#[derive(Debug)]
pub struct MemorySet {
    /// The mapped virtual page numbers, each held once.
    pub pages: Vec<usize>,
}

impl MemorySet {
    /// Whether virtual page `vpn` is currently mapped by this mechanism.
    pub open spec fn is_mapped(self, vpn: usize) -> bool {
        self.pages@.contains(vpn)
    }

    /// Whether every page of `[range_start_vpn(start), range_end_vpn(end))`
    /// is free of existing mappings.
    pub open spec fn range_free(self, start: usize, end: usize) -> bool {
        forall|v: usize|
            range_start_vpn(start) <= v as int && (v as int) < range_end_vpn(end)
                ==> !#[trigger] self.is_mapped(v)
    }

    /// Whether every page of the range is currently mapped.
    pub open spec fn range_mapped(self, start: usize, end: usize) -> bool {
        forall|v: usize|
            range_start_vpn(start) <= v as int && (v as int) < range_end_vpn(end)
                ==> #[trigger] self.is_mapped(v)
    }

    /// An empty mapping table: a fresh address space holds no pages of its
    /// own beyond the load image, which this core does not track.
    pub fn new() -> (r: MemorySet)
        ensures
            r.pages@.len() == 0,
            forall|v: usize| !r.is_mapped(v),
    {
        MemorySet { pages: Vec::new() }
    }

    /// Membership check on one virtual page number.
    pub fn contains_page(&self, vpn: usize) -> (r: bool)
        ensures
            r == self.is_mapped(vpn),
    {
        let mut i: usize = 0;
        while i < self.pages.len()
            invariant
                i <= self.pages.len(),
                forall|j: int| 0 <= j < i ==> self.pages@[j] != vpn,
            decreases self.pages.len() - i,
        {
            if self.pages[i] == vpn {
                return true;
            }
            i = i + 1;
        }
        false
    }

    /// Insert a user mapping over the byte range `[start_va, end_va)`,
    /// backed by freshly allocated frames, or fail without partial effect
    /// if any page in the range already maps to existing storage.
    ///
    /// The permission bits are applied by the page-table layer beneath this
    /// abstraction; the model records the extent of the mapping.
    pub fn insert_framed_area_check(
        &mut self,
        start_va: usize,
        end_va: usize,
        _perm: MapPermission,
    ) -> (r: Option<()>)
        requires
            range_end_vpn(end_va) <= usize::MAX,
        ensures
            r is Some <==> old(self).range_free(start_va, end_va),
            r is Some ==> forall|v: usize|
                final(self).is_mapped(v)
                    == (old(self).is_mapped(v)
                        || (range_start_vpn(start_va) <= v as int && (v as int) < range_end_vpn(end_va))),
            r is None ==> *final(self) == *old(self),
    {
        let start_vpn: usize = start_va / PAGE_SIZE;
        let end_vpn: usize = end_va / PAGE_SIZE + if end_va % PAGE_SIZE != 0 { 1 } else { 0 };
        let mut v: usize = start_vpn;
        while v < end_vpn
            invariant
                start_vpn <= v <= end_vpn || v == start_vpn,
                start_vpn == range_start_vpn(start_va),
                end_vpn == range_end_vpn(end_va),
                forall|u: usize| start_vpn <= u && u < v ==> !#[trigger] self.is_mapped(u),
            decreases end_vpn - v,
        {
            if self.contains_page(v) {
                proof {
                    assert(old(self).is_mapped(v));
                }
                return None;
            }
            v = v + 1;
        }
        let mut v: usize = start_vpn;
        while v < end_vpn
            invariant
                start_vpn <= v <= end_vpn || v == start_vpn,
                start_vpn == range_start_vpn(start_va),
                end_vpn == range_end_vpn(end_va),
                forall|u: usize|
                    #[trigger] self.pages@.contains(u)
                        == (old(self).pages@.contains(u) || (start_vpn <= u && u < v)),
            decreases end_vpn - v,
        {
            let ghost before = self.pages@;
            self.pages.push(v);
            proof {
                assert(self.pages@ == before.push(v));
                assert forall|u: usize|
                    #[trigger] self.pages@.contains(u)
                        == (old(self).pages@.contains(u) || (start_vpn <= u && u < v + 1)) by {
                    vstd::seq_lib::lemma_seq_contains_after_push(before, v, u);
                    assert(before.contains(u) == (old(self).pages@.contains(u) || (start_vpn <= u && u < v)));
                }
            }
            v = v + 1;
        }
        Some(())
    }

    /// Unmap and release every page of the byte range `[start_va, end_va)`
    /// atomically, or fail without partial effect if any page in the range
    /// is not currently mapped by this mechanism.
    pub fn move_frame_area_check(&mut self, start_va: usize, end_va: usize) -> (r: Option<()>)
        requires
            range_end_vpn(end_va) <= usize::MAX,
        ensures
            r is Some <==> old(self).range_mapped(start_va, end_va),
            r is Some ==> forall|v: usize|
                final(self).is_mapped(v)
                    == (old(self).is_mapped(v)
                        && !(range_start_vpn(start_va) <= v as int && (v as int) < range_end_vpn(end_va))),
            r is None ==> *final(self) == *old(self),
    {
        let start_vpn: usize = start_va / PAGE_SIZE;
        let end_vpn: usize = end_va / PAGE_SIZE + if end_va % PAGE_SIZE != 0 { 1 } else { 0 };
        let mut v: usize = start_vpn;
        while v < end_vpn
            invariant
                start_vpn <= v <= end_vpn || v == start_vpn,
                start_vpn == range_start_vpn(start_va),
                end_vpn == range_end_vpn(end_va),
                forall|u: usize| start_vpn <= u && u < v ==> #[trigger] self.is_mapped(u),
            decreases end_vpn - v,
        {
            if !self.contains_page(v) {
                proof {
                    assert(!old(self).is_mapped(v));
                }
                return None;
            }
            v = v + 1;
        }
        let mut kept: Vec<usize> = Vec::new();
        let mut i: usize = 0;
        while i < self.pages.len()
            invariant
                i <= self.pages.len(),
                start_vpn == range_start_vpn(start_va),
                end_vpn == range_end_vpn(end_va),
                forall|u: usize|
                    kept@.contains(u)
                        == (self.pages@.subrange(0, i as int).contains(u)
                            && !(start_vpn <= u < end_vpn)),
            decreases self.pages.len() - i,
        {
            let ghost kept_before = kept@;
            let ghost seen_before = self.pages@.subrange(0, i as int);
            let p = self.pages[i];
            if p < start_vpn || p >= end_vpn {
                kept.push(p);
            }
            proof {
                assert(self.pages@.subrange(0, i + 1) =~= seen_before.push(self.pages@[i as int]));
                if !(start_vpn <= p && p < end_vpn) {
                    assert(kept@ == kept_before.push(p));
                }
            }
            i = i + 1;
        }
        proof {
            assert(self.pages@.subrange(0, self.pages@.len() as int) =~= self.pages@);
        }
        self.pages = kept;
        Some(())
    }
}

} // verus!
