//! Normalised memory regions, permission flags and the window clipper.
use vstd::prelude::*;

verus! {

/// Native permission bits of a mapping that grants nothing.
pub const PERM_NONE: u8 = 0x00;

/// Native permission bit: the mapping may be read.
pub const PERM_READ: u8 = 0x01;

/// Native permission bit: the mapping may be written.
pub const PERM_WRITE: u8 = 0x02;

/// Native permission bit: the mapping may be executed.
pub const PERM_EXECUTE: u8 = 0x04;

/// Native permission bit: the mapping is shared with other processes.
pub const PERM_SHARED: u8 = 0x08;

/// Native permission bit: the mapping is private (copy on write).
pub const PERM_PRIVATE: u8 = 0x10;

/// The three-flag permission model every region is reported in.
#[derive(Clone, Copy, Debug, PartialEq, Eq, Structural)]
pub struct PageFlags {
    pub readable: bool,
    pub writable: bool,
    pub non_executable: bool,
}

/// What the native permission bits `perms` grant, in the three-flag model.
/// A bit that is absent grants nothing; bits outside the three that matter
/// are ignored.
pub open spec fn normalized(perms: u8) -> PageFlags {
    PageFlags {
        readable: perms & PERM_READ == PERM_READ,
        writable: perms & PERM_WRITE == PERM_WRITE,
        non_executable: perms & PERM_EXECUTE != PERM_EXECUTE,
    }
}

/// Maps native permission bits to the three-flag model.
pub fn normalize(perms: u8) -> (flags: PageFlags)
    ensures
        flags == normalized(perms),
{
    PageFlags {
        readable: perms & PERM_READ == PERM_READ,
        writable: perms & PERM_WRITE == PERM_WRITE,
        non_executable: perms & PERM_EXECUTE != PERM_EXECUTE,
    }
}

/// A mapped range `[base, base + size)` with its normalised permissions.
/// `base` is absolute; it is never relative to a query window.
#[derive(Clone, Copy, Debug, PartialEq, Eq, Structural)]
pub struct NormalizedRegion {
    pub base: u64,
    pub size: u64,
    pub flags: PageFlags,
}

impl NormalizedRegion {
    /// The first address past the region.
    pub open spec fn end(self) -> int {
        self.base + self.size
    }

    /// A region is well formed when it is not empty and ends within the
    /// address space.
    pub open spec fn wf(self) -> bool {
        self.size > 0 && self.end() <= u64::MAX
    }

    /// Whether the region shares at least one address with the window
    /// `[start, end)`.
    pub open spec fn overlaps(self, start: u64, end: u64) -> bool {
        self.base < end && start < self.end() && start < end && self.size > 0
    }

    /// The part of the region inside the window `[start, end)`; meaningful
    /// when the two overlap.
    pub open spec fn clipped(self, start: u64, end: u64) -> NormalizedRegion {
        let low = if self.base < start { start } else { self.base };
        let high = if self.end() > end { end as int } else { self.end() };
        NormalizedRegion { base: low, size: (high - low) as u64, flags: self.flags }
    }
}

/// Intersects `region` with the window `[start, end)`. A region that only
/// touches the window at a boundary shares no address with it and is dropped.
/// The lower edge is trimmed before the upper one, so a region that overhangs
/// a narrow window on both sides comes out as the window itself.
pub fn clip(region: NormalizedRegion, start: u64, end: u64) -> (out: Option<NormalizedRegion>)
    ensures
        out is Some <==> region.overlaps(start, end),
        out is Some ==> out == Some(region.clipped(start, end)),
        out matches Some(r) ==> {
            &&& r.wf()
            &&& r.flags == region.flags
            &&& start <= r.base
            &&& region.base <= r.base
            &&& r.end() <= end
            &&& r.end() <= region.end()
            &&& (r.base == start || r.base == region.base)
            &&& (r.end() == end || r.end() == region.end())
        },
        region.wf() && start < end ==> (out is None <==> (region.end() <= start || region.base
            >= end)),
{
    if region.size == 0 || start >= end || region.base >= end {
        return None;
    }
    let region_end: u128 = region.base as u128 + region.size as u128;
    if region_end <= start as u128 {
        return None;
    }
    let low: u64 = if region.base < start {
        start
    } else {
        region.base
    };
    let high: u64 = if region_end > end as u128 {
        end
    } else {
        region_end as u64
    };
    Some(NormalizedRegion { base: low, size: high - low, flags: region.flags })
}

} // verus!
