//! GBA memory map and the placement of analysed images within it.
use vstd::prelude::*;

use crate::decoder::Mode;

verus! {

#[derive(Debug, Clone, Copy, PartialEq, Eq, Hash, Structural)]
pub enum AddressRegion {
    Bios,
    Ewram,
    Iwram,
    Io,
    PaletteRam,
    Vram,
    Oam,
    CartridgeRom,
    CartridgeRam,
    Unmapped,
}

/// Half-open address range `start..end`.
#[derive(Debug, Clone, Copy, PartialEq, Eq, Hash, Structural)]
pub struct AddressRange {
    pub start: u32,
    pub end: u32,
}

pub open spec fn range_contains(r: AddressRange, address: u32) -> bool {
    r.start <= address < r.end
}

impl AddressRange {
    pub fn new(start: u32, end: u32) -> (r: Self)
        ensures
            r == (AddressRange { start, end }),
    {
        AddressRange { start, end }
    }

    pub fn contains(self, address: u32) -> (r: bool)
        ensures
            r == range_contains(self, address),
    {
        address >= self.start && address < self.end
    }
}

#[derive(Debug, Clone, Copy, PartialEq, Eq, Hash, Structural)]
pub struct AddressSpaceRegion {
    pub region: AddressRegion,
    pub range: AddressRange,
}

#[derive(Debug, Clone, Copy, PartialEq, Eq, Hash, Structural)]
pub enum ImageKind {
    Bios,
    CartridgeRom,
}

pub open spec fn image_region(kind: ImageKind) -> AddressRegion {
    match kind {
        ImageKind::Bios => AddressRegion::Bios,
        ImageKind::CartridgeRom => AddressRegion::CartridgeRom,
    }
}

impl ImageKind {
    pub fn region(self) -> (r: AddressRegion)
        ensures
            r == image_region(self),
    {
        match self {
            ImageKind::Bios => AddressRegion::Bios,
            ImageKind::CartridgeRom => AddressRegion::CartridgeRom,
        }
    }
}

/// An image of `size` bytes placed at `base`, analysed from `entry` in
/// `entry_mode`.
#[derive(Debug, Clone, Copy, PartialEq, Eq, Hash, Structural)]
pub struct ImageMapping {
    pub kind: ImageKind,
    pub base: u32,
    pub size: u32,
    pub entry: u32,
    pub entry_mode: Mode,
}

/// The addresses an image covers; the end saturates at the top of the space.
pub open spec fn mapping_range(m: ImageMapping) -> AddressRange {
    AddressRange {
        start: m.base,
        end: if m.base + m.size > 0xffff_ffff { 0xffff_ffff } else { (m.base + m.size) as u32 },
    }
}

pub open spec fn mapping_contains(m: ImageMapping, address: u32) -> bool {
    range_contains(mapping_range(m), address)
}

impl ImageMapping {
    pub fn new(kind: ImageKind, base: u32, size: u32, entry: u32, entry_mode: Mode) -> (r: Self)
        ensures
            r == (ImageMapping { kind, base, size, entry, entry_mode }),
    {
        ImageMapping { kind, base, size, entry, entry_mode }
    }

    pub fn range(self) -> (r: AddressRange)
        ensures
            r == mapping_range(self),
    {
        AddressRange::new(self.base, self.base.saturating_add(self.size))
    }

    pub fn contains(self, address: u32) -> (r: bool)
        ensures
            r == mapping_contains(self, address),
    {
        self.range().contains(address)
    }

    /// A BIOS image at address 0, entered at the reset vector in ARM state.
    pub fn bios(size: u32) -> (r: Self)
        ensures
            r == (ImageMapping { kind: ImageKind::Bios, base: 0, size, entry: 0, entry_mode: Mode::Arm }),
    {
        ImageMapping::new(ImageKind::Bios, 0x0000_0000, size, 0x0000_0000, Mode::Arm)
    }

    /// A cartridge image at the ROM base, entered at its first word in ARM state.
    pub fn cartridge_rom(size: u32) -> (r: Self)
        ensures
            r == (ImageMapping {
                kind: ImageKind::CartridgeRom,
                base: 0x0800_0000,
                size,
                entry: 0x0800_0000,
                entry_mode: Mode::Arm,
            }),
    {
        ImageMapping::new(ImageKind::CartridgeRom, 0x0800_0000, size, 0x0800_0000, Mode::Arm)
    }
}

/// Regions of the address space, ordered by start address.
#[derive(Debug, Clone, PartialEq, Eq)]
pub struct AddressSpace {
    pub regions: Vec<AddressSpaceRegion>,
}

pub open spec fn gba_regions() -> Seq<AddressSpaceRegion> {
    seq![
        AddressSpaceRegion { region: AddressRegion::Bios, range: AddressRange { start: 0x0000_0000, end: 0x0000_4000 } },
        AddressSpaceRegion { region: AddressRegion::Ewram, range: AddressRange { start: 0x0200_0000, end: 0x0204_0000 } },
        AddressSpaceRegion { region: AddressRegion::Iwram, range: AddressRange { start: 0x0300_0000, end: 0x0300_8000 } },
        AddressSpaceRegion { region: AddressRegion::Io, range: AddressRange { start: 0x0400_0000, end: 0x0400_0400 } },
        AddressSpaceRegion { region: AddressRegion::PaletteRam, range: AddressRange { start: 0x0500_0000, end: 0x0500_0400 } },
        AddressSpaceRegion { region: AddressRegion::Vram, range: AddressRange { start: 0x0600_0000, end: 0x0601_8000 } },
        AddressSpaceRegion { region: AddressRegion::Oam, range: AddressRange { start: 0x0700_0000, end: 0x0700_0400 } },
        AddressSpaceRegion { region: AddressRegion::CartridgeRom, range: AddressRange { start: 0x0800_0000, end: 0x0E00_0000 } },
        AddressSpaceRegion { region: AddressRegion::CartridgeRam, range: AddressRange { start: 0x0E00_0000, end: 0x1000_0000 } },
    ]
}

/// The kind of the first listed region containing `address`, or `Unmapped`.
pub open spec fn region_at_spec(regions: Seq<AddressSpaceRegion>, address: u32) -> AddressRegion
    decreases regions.len(),
{
    if regions.len() == 0 {
        AddressRegion::Unmapped
    } else if range_contains(regions[0].range, address) {
        regions[0].region
    } else {
        region_at_spec(regions.drop_first(), address)
    }
}

pub open spec fn overlaps(a: AddressRange, b: AddressRange) -> bool {
    a.start < b.end && b.start < a.end
}

/// The first mapped region overlapping `range`, if any.
pub open spec fn first_overlap(regions: Seq<AddressSpaceRegion>, range: AddressRange) -> Option<AddressRegion>
    decreases regions.len(),
{
    if regions.len() == 0 {
        None
    } else if regions[0].region != AddressRegion::Unmapped && overlaps(regions[0].range, range) {
        Some(regions[0].region)
    } else {
        first_overlap(regions.drop_first(), range)
    }
}

/// Stable insertion of `x` after every element whose start is not greater.
pub open spec fn insert_by_start(s: Seq<AddressSpaceRegion>, x: AddressSpaceRegion) -> Seq<AddressSpaceRegion>
    decreases s.len(),
{
    if s.len() == 0 {
        seq![x]
    } else if s.last().range.start <= x.range.start {
        s.push(x)
    } else {
        insert_by_start(s.drop_last(), x).push(s.last())
    }
}

/// Stable sort of regions by start address.
pub open spec fn sort_by_start(s: Seq<AddressSpaceRegion>) -> Seq<AddressSpaceRegion>
    decreases s.len(),
{
    if s.len() == 0 {
        s
    } else {
        insert_by_start(sort_by_start(s.drop_last()), s.last())
    }
}

pub open spec fn sorted_by_start(s: Seq<AddressSpaceRegion>) -> bool {
    forall|i: int, j: int| 0 <= i < j < s.len() ==> s[i].range.start <= s[j].range.start
}

#[derive(Debug, Clone, Copy, PartialEq, Eq, Structural)]
pub enum MappingError {
    EmptyImage,
    OverlapsRegion { image: ImageKind, region: AddressRegion },
}

/// Result of mapping an image into a space with `regions`: the new region list
/// or the reason it is refused.
pub open spec fn map_image_spec(regions: Seq<AddressSpaceRegion>, mapping: ImageMapping) -> Result<Seq<AddressSpaceRegion>, MappingError> {
    let range = mapping_range(mapping);
    if range.start >= range.end {
        Err(MappingError::EmptyImage)
    } else {
        match first_overlap(regions, range) {
            Some(region) => Err(MappingError::OverlapsRegion { image: mapping.kind, region }),
            None => Ok(sort_by_start(regions.push(AddressSpaceRegion { region: image_region(mapping.kind), range }))),
        }
    }
}

proof fn lemma_insert_at(s: Seq<AddressSpaceRegion>, x: AddressSpaceRegion, p: int)
    requires
        0 <= p <= s.len(),
        forall|k: int| p <= k < s.len() ==> s[k].range.start > x.range.start,
        p > 0 ==> s[p - 1].range.start <= x.range.start,
    ensures
        insert_by_start(s, x) == s.subrange(0, p).push(x) + s.subrange(p, s.len() as int),
    decreases s.len(),
{
    if s.len() == 0 {
        assert(s.subrange(0, p).push(x) + s.subrange(p, s.len() as int) =~= seq![x]);
    } else if p == s.len() {
        assert(s.subrange(0, p).push(x) + s.subrange(p, s.len() as int) =~= s.push(x));
    } else {
        lemma_insert_at(s.drop_last(), x, p);
        assert(insert_by_start(s.drop_last(), x).push(s.last()) =~= s.subrange(0, p).push(x) + s.subrange(p, s.len() as int));
    }
}

fn insert_region(v: &mut Vec<AddressSpaceRegion>, x: AddressSpaceRegion)
    ensures
        final(v)@ == insert_by_start(old(v)@, x),
{
    let ghost start = v@;
    let mut p = v.len();
    while p > 0 && v[p - 1].range.start > x.range.start
        invariant
            p <= v.len(),
            v@ == start,
            forall|k: int| p <= k < v.len() ==> v@[k].range.start > x.range.start,
        decreases p,
    {
        p = p - 1;
    }
    proof {
        lemma_insert_at(start, x, p as int);
    }
    v.insert(p, x);
    proof {
        assert(v@ =~= start.subrange(0, p as int).push(x) + start.subrange(p as int, start.len() as int));
    }
}

fn sort_regions(input: &Vec<AddressSpaceRegion>) -> (r: Vec<AddressSpaceRegion>)
    ensures
        r@ == sort_by_start(input@),
{
    let mut out: Vec<AddressSpaceRegion> = Vec::new();
    let mut i: usize = 0;
    while i < input.len()
        invariant
            i <= input.len(),
            out@ == sort_by_start(input@.subrange(0, i as int)),
        decreases input.len() - i,
    {
        proof {
            assert(input@.subrange(0, (i + 1) as int).drop_last() =~= input@.subrange(0, i as int));
        }
        insert_region(&mut out, input[i]);
        i = i + 1;
    }
    proof {
        assert(input@.subrange(0, input@.len() as int) =~= input@);
    }
    out
}

fn copy_regions(input: &Vec<AddressSpaceRegion>) -> (r: Vec<AddressSpaceRegion>)
    ensures
        r@ == input@,
{
    let mut out: Vec<AddressSpaceRegion> = Vec::new();
    let mut i: usize = 0;
    while i < input.len()
        invariant
            i <= input.len(),
            out@ == input@.subrange(0, i as int),
        decreases input.len() - i,
    {
        out.push(input[i]);
        proof {
            assert(out@ =~= input@.subrange(0, (i + 1) as int));
        }
        i = i + 1;
    }
    proof {
        assert(input@.subrange(0, input@.len() as int) =~= input@);
    }
    out
}

impl AddressSpace {
    /// The GBA memory map.
    pub fn gba() -> (r: Self)
        ensures
            r.regions@ == gba_regions(),
    {
        let mut regions: Vec<AddressSpaceRegion> = Vec::new();
        regions.push(AddressSpaceRegion { region: AddressRegion::Bios, range: AddressRange::new(0x0000_0000, 0x0000_4000) });
        regions.push(AddressSpaceRegion { region: AddressRegion::Ewram, range: AddressRange::new(0x0200_0000, 0x0204_0000) });
        regions.push(AddressSpaceRegion { region: AddressRegion::Iwram, range: AddressRange::new(0x0300_0000, 0x0300_8000) });
        regions.push(AddressSpaceRegion { region: AddressRegion::Io, range: AddressRange::new(0x0400_0000, 0x0400_0400) });
        regions.push(AddressSpaceRegion { region: AddressRegion::PaletteRam, range: AddressRange::new(0x0500_0000, 0x0500_0400) });
        regions.push(AddressSpaceRegion { region: AddressRegion::Vram, range: AddressRange::new(0x0600_0000, 0x0601_8000) });
        regions.push(AddressSpaceRegion { region: AddressRegion::Oam, range: AddressRange::new(0x0700_0000, 0x0700_0400) });
        regions.push(AddressSpaceRegion { region: AddressRegion::CartridgeRom, range: AddressRange::new(0x0800_0000, 0x0E00_0000) });
        regions.push(AddressSpaceRegion { region: AddressRegion::CartridgeRam, range: AddressRange::new(0x0E00_0000, 0x1000_0000) });
        proof {
            assert(regions@ =~= gba_regions());
        }
        AddressSpace { regions }
    }

    pub fn regions(&self) -> (r: &[AddressSpaceRegion])
        ensures
            r@ == self.regions@,
    {
        self.regions.as_slice()
    }

    pub fn region_at(&self, address: u32) -> (r: AddressRegion)
        ensures
            r == region_at_spec(self.regions@, address),
    {
        let mut i: usize = 0;
        proof {
            assert(self.regions@.subrange(0, self.regions@.len() as int) =~= self.regions@);
        }
        while i < self.regions.len()
            invariant
                i <= self.regions.len(),
                region_at_spec(self.regions@, address) == region_at_spec(
                    self.regions@.subrange(i as int, self.regions@.len() as int),
                    address,
                ),
            decreases self.regions.len() - i,
        {
            proof {
                let rest = self.regions@.subrange(i as int, self.regions@.len() as int);
                assert(rest.drop_first() =~= self.regions@.subrange((i + 1) as int, self.regions@.len() as int));
            }
            if self.regions[i].range.contains(address) {
                return self.regions[i].region;
            }
            i = i + 1;
        }
        AddressRegion::Unmapped
    }

    /// Adds the image's region unless the image is empty or overlaps a mapped
    /// region; the regions stay ordered by start address.
    pub fn map_image(&mut self, mapping: ImageMapping) -> (r: Result<(), MappingError>)
        ensures
            match map_image_spec(old(self).regions@, mapping) {
                Ok(regions) => r is Ok && final(self).regions@ == regions,
                Err(e) => r == Err::<(), MappingError>(e) && final(self).regions@ == old(self).regions@,
            },
    {
        let range = mapping.range();
        if range.start >= range.end {
            return Err(MappingError::EmptyImage);
        }
        let mut i: usize = 0;
        proof {
            assert(self.regions@.subrange(0, self.regions@.len() as int) =~= self.regions@);
        }
        while i < self.regions.len()
            invariant
                i <= self.regions.len(),
                self.regions@ == old(self).regions@,
                range == mapping_range(mapping),
                range.start < range.end,
                first_overlap(self.regions@, range) == first_overlap(
                    self.regions@.subrange(i as int, self.regions@.len() as int),
                    range,
                ),
            decreases self.regions.len() - i,
        {
            proof {
                let rest = self.regions@.subrange(i as int, self.regions@.len() as int);
                assert(rest.drop_first() =~= self.regions@.subrange((i + 1) as int, self.regions@.len() as int));
            }
            let existing = self.regions[i];
            if !matches!(existing.region, AddressRegion::Unmapped) && existing.range.start < range.end
                && range.start < existing.range.end {
                proof {
                    let rest = self.regions@.subrange(i as int, self.regions@.len() as int);
                    assert(rest[0] == existing);
                    assert(first_overlap(rest, range) == Some(existing.region));
                }
                return Err(MappingError::OverlapsRegion { image: mapping.kind, region: existing.region });
            }
            i = i + 1;
        }
        proof {
            assert(self.regions@.subrange(i as int, self.regions@.len() as int) =~= Seq::<AddressSpaceRegion>::empty());
        }
        let mut all = copy_regions(&self.regions);
        all.push(AddressSpaceRegion { region: mapping.kind.region(), range });
        self.regions = sort_regions(&all);
        Ok(())
    }
}

impl Default for AddressSpace {
    fn default() -> (r: Self)
        ensures
            r.regions@ == gba_regions(),
    {
        AddressSpace::gba()
    }
}

proof fn lemma_insert_keeps_sorted(s: Seq<AddressSpaceRegion>, x: AddressSpaceRegion)
    requires
        sorted_by_start(s),
    ensures
        sorted_by_start(insert_by_start(s, x)),
        insert_by_start(s, x).len() == s.len() + 1,
        insert_by_start(s, x).to_multiset() == s.to_multiset().insert(x),
    decreases s.len(),
{
    broadcast use vstd::seq_lib::group_to_multiset_ensures;
    if s.len() == 0 {
        assert(seq![x] =~= Seq::<AddressSpaceRegion>::empty().push(x));
    } else if s.last().range.start <= x.range.start {
    } else {
        lemma_insert_keeps_sorted(s.drop_last(), x);
        let t = insert_by_start(s.drop_last(), x);
        assert(s.drop_last().push(s.last()) =~= s);
        assert forall|k: int| 0 <= k < t.len() implies t[k].range.start <= s.last().range.start by {
            assert(t.to_multiset().count(t[k]) > 0);
            assert(s.drop_last().to_multiset().insert(x).count(t[k]) > 0);
            if t[k] != x {
                assert(s.drop_last().contains(t[k]));
            }
        }
    }
}

/// Sorting by start yields an ordered list holding the same regions.
pub proof fn law_sort_orders_and_keeps_regions(s: Seq<AddressSpaceRegion>)
    ensures
        sorted_by_start(sort_by_start(s)),
        sort_by_start(s).to_multiset() == s.to_multiset(),
    decreases s.len(),
{
    broadcast use vstd::seq_lib::group_to_multiset_ensures;
    if s.len() > 0 {
        law_sort_orders_and_keeps_regions(s.drop_last());
        lemma_insert_keeps_sorted(sort_by_start(s.drop_last()), s.last());
        assert(s.drop_last().push(s.last()) =~= s);
    }
}

/// After a successful mapping the regions are ordered by start address and
/// are exactly the previous regions plus the image's own.
pub proof fn law_mapping_keeps_regions_ordered(regions: Seq<AddressSpaceRegion>, mapping: ImageMapping)
    requires
        map_image_spec(regions, mapping) is Ok,
    ensures
        sorted_by_start(map_image_spec(regions, mapping)->Ok_0),
        map_image_spec(regions, mapping)->Ok_0.to_multiset() == regions.push(
            AddressSpaceRegion { region: image_region(mapping.kind), range: mapping_range(mapping) },
        ).to_multiset(),
{
    law_sort_orders_and_keeps_regions(
        regions.push(AddressSpaceRegion { region: image_region(mapping.kind), range: mapping_range(mapping) }),
    );
}

} // verus!
