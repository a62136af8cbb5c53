//! Physical frame allocation from the boot-provided memory map.
//!
//! The boot loader hands the kernel an immutable list of physical memory
//! region descriptors. The allocator lazily enumerates the 4 KiB frames of
//! the usable regions and hands them out in order, never reusing a frame.

use vstd::prelude::*;
use vstd::arithmetic::div_mod::lemma_add_mod_noop;
use vstd::arithmetic::div_mod::lemma_mod_multiples_basic;
use vstd::arithmetic::div_mod::lemma_fundamental_div_mod;

verus! {

/// Size of a physical frame and of a virtual page, in bytes.
pub const PAGE_SIZE: u64 = 4096;

/// A 4 KiB physical memory frame, identified by its starting physical address.
#[derive(Clone, Copy, PartialEq, Eq, Structural, Debug)]
pub struct PhysFrame {
    pub start_address: u64,
}

impl PhysFrame {
    /// A frame address is always 4 KiB aligned.
    pub open spec fn wf(self) -> bool {
        self.start_address % 4096 == 0
    }
}

/// A boot-provided descriptor of one physical memory range together with its
/// usability classification. Addresses are frame-aligned, as the boot map
/// reports whole frames.
#[derive(Clone, Copy, PartialEq, Eq, Structural, Debug)]
pub struct MemoryRegion {
    pub start_address: u64,
    pub end_address: u64,
    pub usable: bool,
}

impl MemoryRegion {
    pub open spec fn wf(self) -> bool {
        &&& self.start_address % 4096 == 0
        &&& self.end_address % 4096 == 0
        &&& self.start_address <= self.end_address
    }

    /// How many whole 4 KiB frames the region spans.
    pub open spec fn frame_count(self) -> int {
        (self.end_address - self.start_address) / 4096
    }

    /// The frame start addresses within this region, in increasing order.
    pub open spec fn frames(self) -> Seq<u64> {
        Seq::new(self.frame_count() as nat, |i: int| (self.start_address + 4096 * i) as u64)
    }
}

pub open spec fn regions_wf(regions: Seq<MemoryRegion>) -> bool {
    forall|i: int| 0 <= i < regions.len() ==> (#[trigger] regions[i]).wf()
}

/// The sequence of usable frame addresses implied by the memory map: regions
/// are filtered by usability and each usable region is expanded into its
/// 4 KiB-stepped frame addresses.
pub open spec fn usable_frames(regions: Seq<MemoryRegion>) -> Seq<u64>
    decreases regions.len(),
{
    if regions.len() == 0 {
        Seq::empty()
    } else {
        (if regions[0].usable {
            regions[0].frames()
        } else {
            Seq::empty()
        }) + usable_frames(regions.drop_first())
    }
}

/// Whether `frame` lies wholly inside some region marked usable.
pub open spec fn frame_in_usable_region(regions: Seq<MemoryRegion>, frame: u64) -> bool {
    exists|j: int|
        0 <= j < regions.len() && (#[trigger] regions[j]).usable && regions[j].start_address
            <= frame && frame + 4096 <= regions[j].end_address
}

/// The memory map lists its regions in ascending, non-overlapping order, as
/// the boot loader hands it over.
pub open spec fn regions_ordered(regions: Seq<MemoryRegion>) -> bool {
    forall|i: int|
        0 <= i < regions.len() - 1 ==> (#[trigger] regions[i]).end_address <= regions[
            i + 1
        ].start_address
}

/// The usable frames are strictly increasing in address, 4 KiB-aligned, and
/// drawn only from regions marked usable. With the allocator's cursor moving
/// only forward, repeated allocations return strictly increasing frame
/// addresses, and once the cursor passes the last usable frame every later
/// call reports exhaustion, permanently.
pub proof fn lemma_usable_frames_ordered(regions: Seq<MemoryRegion>)
    requires
        regions_wf(regions),
        regions_ordered(regions),
    ensures
        forall|a: int, b: int|
            0 <= a < b < usable_frames(regions).len() ==> usable_frames(regions)[a]
                < usable_frames(regions)[b],
        forall|a: int|
            0 <= a < usable_frames(regions).len() ==> (#[trigger] usable_frames(regions)[a]) % 4096
                == 0,
        forall|a: int|
            0 <= a < usable_frames(regions).len() ==> frame_in_usable_region(
                regions,
                usable_frames(regions)[a],
            ),
        regions.len() > 0 ==> forall|a: int|
            0 <= a < usable_frames(regions).len() ==> usable_frames(regions)[a] >= regions[
                0
            ].start_address,
    decreases regions.len(),
{
    if regions.len() == 0 {
        return ;
    }
    let rest = regions.drop_first();
    assert(regions_wf(rest)) by {
        assert forall|i: int| 0 <= i < rest.len() implies (#[trigger] rest[i]).wf() by {
            assert(rest[i] == regions[i + 1]);
        }
    }
    assert(regions_ordered(rest)) by {
        assert forall|i: int| 0 <= i < rest.len() - 1 implies (#[trigger] rest[i]).end_address
            <= rest[i + 1].start_address by {
            assert(rest[i] == regions[i + 1] && rest[i + 1] == regions[i + 2]);
        }
    }
    lemma_usable_frames_ordered(rest);
    let r0 = regions[0];
    let part = if r0.usable {
        r0.frames()
    } else {
        Seq::<u64>::empty()
    };
    let whole = usable_frames(regions);
    assert(whole == part + usable_frames(rest));
    let s0 = r0.start_address as int;
    let e0 = r0.end_address as int;
    let count = r0.frame_count();
    assert(4096 * count == e0 - s0) by {
        lemma_fundamental_div_mod(e0 - s0, 4096);
        assert((e0 - s0) % 4096 == 0) by {
            lemma_add_mod_noop(e0, -s0, 4096);
            assert((-s0) % 4096 == 0) by {
                lemma_mod_multiples_basic(-(s0 / 4096), 4096);
                lemma_fundamental_div_mod(s0, 4096);
            }
        }
    }
    assert forall|i: int| 0 <= i < part.len() implies (#[trigger] part[i]) % 4096 == 0 && part[i]
        >= s0 && part[i] + 4096 <= e0 by {
        assert(part[i] == s0 + 4096 * i);
        lemma_mod_multiples_basic(i, 4096);
        lemma_add_mod_noop(s0, 4096 * i, 4096);
        assert(4096 * i <= 4096 * (count - 1));
    }
    // every frame of the tail lies at or above the next region's start,
    // which the ordering puts at or above this region's end
    assert(regions.len() >= 2 ==> rest[0] == regions[1] && r0.end_address <= regions[
        1
    ].start_address);
    assert forall|a: int, b: int|
        0 <= a < b < whole.len() implies whole[a] < whole[b] by {
        if b < part.len() {
            assert(whole[a] == part[a] && whole[b] == part[b]);
            assert(part[a] == s0 + 4096 * a && part[b] == s0 + 4096 * b);
            assert(4096 * a < 4096 * b);
        } else if a >= part.len() {
            assert(whole[a] == usable_frames(rest)[a - part.len()]);
            assert(whole[b] == usable_frames(rest)[b - part.len()]);
        } else {
            assert(whole[a] == part[a]);
            assert(whole[b] == usable_frames(rest)[b - part.len()]);
            assert(part[a] + 4096 <= e0);
            assert(whole[b] >= rest[0].start_address);
        }
    }
    assert forall|a: int|
        0 <= a < whole.len() implies (#[trigger] whole[a]) % 4096 == 0 && frame_in_usable_region(
        regions,
        whole[a],
    ) && whole[a] >= regions[0].start_address by {
        if a < part.len() {
            assert(whole[a] == part[a]);
            assert(regions[0].usable && regions[0].start_address <= whole[a] && whole[a] + 4096
                <= regions[0].end_address);
        } else {
            let f = usable_frames(rest)[a - part.len()];
            assert(whole[a] == f);
            assert(frame_in_usable_region(rest, f));
            let j = choose|j: int|
                0 <= j < rest.len() && (#[trigger] rest[j]).usable && rest[j].start_address <= f
                    && f + 4096 <= rest[j].end_address;
            assert(regions[j + 1] == rest[j]);
            assert(frame_in_usable_region(regions, f));
            assert(f >= rest[0].start_address);
        }
    }
}

/// Allocates physical frames from the boot memory map, strictly in order,
/// advancing a cursor that never moves backwards. No frame is ever freed.
pub struct BootInfoFrameAllocator {
    memory_map: Vec<MemoryRegion>,
    next: usize,
}

impl BootInfoFrameAllocator {
    pub closed spec fn wf(self) -> bool {
        regions_wf(self.memory_map@)
    }

    /// The full sequence of usable frame addresses this allocator draws from.
    pub closed spec fn usable(self) -> Seq<u64> {
        usable_frames(self.memory_map@)
    }

    /// Index of the next usable frame to hand out.
    pub closed spec fn cursor(self) -> int {
        self.next as int
    }

    /// How many usable frames have not been handed out yet.
    pub open spec fn remaining(self) -> int {
        if self.cursor() <= self.usable().len() {
            self.usable().len() - self.cursor()
        } else {
            0
        }
    }

    /// Creates an allocator over the given memory map, with the cursor at the
    /// first usable frame. The caller guarantees that the map is the valid
    /// boot-provided one (frame-aligned regions).
    pub fn init(memory_map: Vec<MemoryRegion>) -> (r: Self)
        requires
            regions_wf(memory_map@),
        ensures
            r.wf(),
            r.usable() == usable_frames(memory_map@),
            r.cursor() == 0,
    {
        BootInfoFrameAllocator { memory_map, next: 0 }
    }

    /// Returns the usable frame at the cursor and advances the cursor, or
    /// reports exhaustion once the cursor has passed every usable frame.
    /// The cursor advances even on exhaustion: there is no rollback.
    #[verifier::loop_isolation(false)]
    pub fn allocate_frame(&mut self) -> (r: Option<PhysFrame>)
        requires
            old(self).wf(),
            old(self).cursor() < usize::MAX,
        ensures
            final(self).wf(),
            final(self).usable() == old(self).usable(),
            final(self).cursor() == old(self).cursor() + 1,
            old(self).cursor() < old(self).usable().len() ==> r == Some(
                PhysFrame { start_address: old(self).usable()[old(self).cursor()] },
            ),
            old(self).cursor() >= old(self).usable().len() ==> r is None,
            r matches Some(f) ==> f.wf(),
    {
        let target: usize = self.next;
        self.next = self.next + 1;
        let mut i: usize = 0;
        let mut remaining: usize = target;
        let n: usize = self.memory_map.len();
        proof {
            assert(self.memory_map@.skip(0) =~= self.memory_map@);
        }
        loop
            invariant
                self.wf(),
                0 <= i <= n,
                n == self.memory_map@.len(),
                remaining <= target,
                usable_frames(self.memory_map@.skip(i as int)).len() > remaining <==> self.usable().len() > target,
                usable_frames(self.memory_map@.skip(i as int)).len() > remaining ==> self.usable()[target as int] == usable_frames(
                    self.memory_map@.skip(i as int),
                )[remaining as int],
            decreases n - i,
        {
            if i >= n {
                proof {
                    assert(self.memory_map@.skip(i as int) =~= Seq::<MemoryRegion>::empty());
                    reveal_with_fuel(usable_frames, 1);
                }
                return None;
            }
            let region = self.memory_map[i];
            proof {
                assert(self.memory_map@.skip(i as int)[0] == region);
                assert(self.memory_map@.skip(i as int).drop_first() =~= self.memory_map@.skip(
                    i as int + 1,
                ));
                assert(regions_wf(self.memory_map@) ==> region.wf());
            }
            if region.usable {
                let count: u64 = (region.end_address - region.start_address) / PAGE_SIZE;
                assert(count == region.frames().len());
                if (remaining as u64) < count {
                    let addr: u64 = region.start_address + PAGE_SIZE * (remaining as u64);
                    proof {
                        let sk = self.memory_map@.skip(i as int);
                        assert(usable_frames(sk)[remaining as int] == region.frames()[remaining as int]);
                        assert(region.frames()[remaining as int] == addr);
                        assert(addr % 4096 == 0) by {
                            assert(region.start_address % 4096 == 0);
                            assert((4096 * (remaining as u64) as int) % 4096 == 0) by (nonlinear_arith);
                        }
                    }
                    return Some(PhysFrame { start_address: addr });
                } else {
                    proof {
                        let sk = self.memory_map@.skip(i as int);
                        let sk1 = self.memory_map@.skip(i as int + 1);
                        assert(usable_frames(sk) == region.frames() + usable_frames(sk1));
                        assert(usable_frames(sk).len() == region.frames().len() + usable_frames(sk1).len());
                        assert forall|k: int|
                            count <= k < usable_frames(sk).len() implies usable_frames(sk)[k] == usable_frames(sk1)[k - count] by {
                        }
                    }
                    remaining = remaining - (count as usize);
                }
            } else {
                proof {
                    let sk = self.memory_map@.skip(i as int);
                    let sk1 = self.memory_map@.skip(i as int + 1);
                    assert(usable_frames(sk) == Seq::<u64>::empty() + usable_frames(sk1));
                    assert(usable_frames(sk) =~= usable_frames(sk1));
                }
            }
            i = i + 1;
        }
    }
}

} // verus!
