//! A four-level page table mapper.
//!
//! The hardware walks a tree of 512-entry tables, each stored in one
//! physical frame and reached through the fixed linear mapping of physical
//! memory. The mapper owns a model of every table it can reach: a store of
//! (frame address, entries) pairs rooted at the active level-4 table. All
//! raw-address bookkeeping is confined to this store; the mapping logic
//! reads and writes entries only through it.

use vstd::prelude::*;
use vstd::pervasive::VecAdditionalExecFns;
use crate::memory::BootInfoFrameAllocator;
use crate::memory::PhysFrame;

verus! {

/// Leaf flag: the entry holds a live translation.
pub const FLAG_PRESENT: u64 = 1;

/// Leaf flag: the mapped frame may be written.
pub const FLAG_WRITABLE: u64 = 2;

/// A virtual page, identified by its page number (virtual address divided by
/// the page size). Four 9-bit index groups address the four table levels.
#[derive(Clone, Copy, PartialEq, Eq, Structural, Debug)]
pub struct Page {
    pub number: u64,
}

impl Page {
    /// Page numbers carry 36 significant bits on a four-level table.
    pub open spec fn wf(self) -> bool {
        self.number < 0x1000000000
    }
}

/// The 9-bit index a page selects within a table at the given level.
pub open spec fn page_index(page: u64, level: int) -> int {
    if level == 4 {
        (page as int / 0x8000000) % 512
    } else if level == 3 {
        (page as int / 0x40000) % 512
    } else if level == 2 {
        (page as int / 512) % 512
    } else {
        (page as int) % 512
    }
}

fn page_index_exec(page: u64, level: u64) -> (r: usize)
    requires
        1 <= level <= 4,
    ensures
        r == page_index(page, level as int),
        r < 512,
{
    let divisor: u64 = if level == 4 {
        0x8000000
    } else if level == 3 {
        0x40000
    } else if level == 2 {
        512
    } else {
        1
    };
    ((page / divisor) % 512) as usize
}

/// One slot of a page table: empty, a link to the next-lower table, or a
/// leaf translation carrying its flags. A link is always installed present
/// and writable, so the model leaves its permission bits implicit; only leaf
/// flags vary and are carried.
#[derive(Clone, Copy, PartialEq, Eq, Structural, Debug)]
pub enum PageTableEntry {
    Unused,
    Table { addr: u64 },
    Mapped { frame: u64, flags: u64 },
}

/// One table of the store: the physical frame address it lives in and its
/// 512 entries.
struct TableNode {
    addr: u64,
    entries: Vec<PageTableEntry>,
}

/// Why a mapping operation failed.
#[derive(Clone, Copy, PartialEq, Eq, Structural, Debug)]
pub enum MapError {
    /// The virtual page already holds a translation; it is never silently
    /// overwritten.
    PageAlreadyMapped,
    /// The frame allocator ran out of usable frames while an intermediate
    /// table had to be created.
    FrameAllocationFailed,
}

/// Deferred invalidation token: a new translation becomes active only once
/// the caller flushes the page it covers from the translation cache.
#[must_use]
pub struct MapperFlush {
    pub page: Page,
}

impl MapperFlush {
    /// Invalidates the stale cached translation for this token's page. The
    /// model keeps no translation cache, so consuming the token is the whole
    /// step; the token exists so that no caller can forget it.
    pub fn flush(self) -> (p: Page)
        ensures
            p == self.page,
    {
        self.page
    }
}

/// The page table mapper: the active level-4 table, every table linked below
/// it, and the linear physical-memory offset all tables are reached through.
pub struct Mapper {
    physical_memory_offset: u64,
    root: u64,
    tables: Vec<TableNode>,
    levels: Ghost<Map<u64, int>>,
}

impl Mapper {
    /// Whether a table lives at physical address `a`.
    pub closed spec fn contains_table(self, a: u64) -> bool {
        exists|i: int| 0 <= i < self.tables@.len() && self.tables@[i].addr == a
    }

    spec fn table_index(self, a: u64) -> int {
        choose|i: int| 0 <= i < self.tables@.len() && self.tables@[i].addr == a
    }

    /// The entries of the table at physical address `a`.
    pub closed spec fn entries_at(self, a: u64) -> Seq<PageTableEntry> {
        self.tables@[self.table_index(a)].entries@
    }

    /// The level (4 down to 1) of the table at physical address `a`.
    pub closed spec fn level_of(self, a: u64) -> int {
        self.levels@[a]
    }

    /// Physical address of the active level-4 table.
    pub closed spec fn root_addr(self) -> u64 {
        self.root
    }

    /// The virtual base at which all physical memory is mapped.
    pub closed spec fn phys_offset(self) -> u64 {
        self.physical_memory_offset
    }

    spec fn addrs_unique(self) -> bool {
        forall|i: int, j: int|
            0 <= i < j < self.tables@.len() ==> (#[trigger] self.tables@[i].addr)
                != (#[trigger] self.tables@[j].addr)
    }

    spec fn link_of(self, i: int, k: int) -> Option<u64> {
        match self.tables@[i].entries@[k] {
            PageTableEntry::Table { addr } => Some(addr),
            _ => None,
        }
    }

    /// No two entries link the same table, and nothing links the root: the
    /// tables form a tree. The mapper only ever links freshly allocated
    /// tables, so this is kept.
    spec fn links_unique(self) -> bool {
        &&& forall|i1: int, k1: int, i2: int, k2: int|
            #![trigger self.link_of(i1, k1), self.link_of(i2, k2)]
            0 <= i1 < self.tables@.len() && 0 <= k1 < 512 && 0 <= i2 < self.tables@.len() && 0
                <= k2 < 512 && (i1 != i2 || k1 != k2) && self.link_of(i1, k1) is Some ==> self.link_of(
                i1,
                k1,
            ) != self.link_of(i2, k2)
        &&& forall|i: int, k: int|
            0 <= i < self.tables@.len() && 0 <= k < 512 ==> #[trigger] self.link_of(i, k) != Some(
                self.root,
            )
    }

    spec fn entry_wf(self, t: u64, k: int) -> bool {
        match self.entries_at(t)[k] {
            PageTableEntry::Unused => true,
            PageTableEntry::Table { addr } => {
                &&& self.level_of(t) >= 2
                &&& self.contains_table(addr)
                &&& self.level_of(addr) == self.level_of(t) - 1
            },
            PageTableEntry::Mapped { .. } => self.level_of(t) == 1,
        }
    }

    /// The mapper's structural invariant: table addresses are unique, every
    /// table has 512 entries and a level between 1 and 4, the root is a
    /// level-4 table, links point one level down to tables of the store, and
    /// leaf translations sit only in level-1 tables.
    pub closed spec fn wf(self) -> bool {
        &&& self.addrs_unique()
        &&& self.links_unique()
        &&& forall|i: int|
            0 <= i < self.tables@.len() ==> (#[trigger] self.tables@[i].entries@).len() == 512
        &&& self.contains_table(self.root)
        &&& self.level_of(self.root) == 4
        &&& forall|i: int|
            0 <= i < self.tables@.len() ==> 1 <= #[trigger] self.level_of(self.tables@[i].addr)
                <= 4
        &&& forall|i: int|
            0 <= i < self.tables@.len() ==> self.levels@.dom().contains(
                #[trigger] self.tables@[i].addr,
            )
        &&& forall|i: int, k: int|
            0 <= i < self.tables@.len() && 0 <= k < 512 ==> #[trigger] self.entry_wf(
                self.tables@[i].addr,
                k,
            )
    }

    proof fn lemma_table(self, t: u64)
        requires
            self.wf(),
            self.contains_table(t),
        ensures
            self.entries_at(t).len() == 512,
            1 <= self.level_of(t) <= 4,
            self.levels@.dom().contains(t),
            forall|k: int| 0 <= k < 512 ==> #[trigger] self.entry_wf(t, k),
    {
        let i = choose|i: int| 0 <= i < self.tables@.len() && self.tables@[i].addr == t;
        self.lemma_index_unique(i, t);
        assert(self.entries_at(t) == self.tables@[i].entries@);
        assert forall|k: int| 0 <= k < 512 implies #[trigger] self.entry_wf(t, k) by {
            assert(self.entry_wf(self.tables@[i].addr, k));
        }
    }

    /// The translation the table tree rooted at `a` (a level-`level` table)
    /// gives for `page`: follow the page's index at each level; a leaf entry
    /// at level 1 is the translation.
    pub closed spec fn translate_at(self, a: u64, level: int, page: u64) -> Option<(u64, u64)>
        decreases level,
    {
        if level < 1 || !self.contains_table(a) {
            None
        } else {
            match self.entries_at(a)[page_index(page, level)] {
                PageTableEntry::Unused => None,
                PageTableEntry::Table { addr } => if level > 1 {
                    self.translate_at(addr, level - 1, page)
                } else {
                    None
                },
                PageTableEntry::Mapped { frame, flags } => if level == 1 {
                    Some((frame, flags))
                } else {
                    None
                },
            }
        }
    }

    /// The (frame address, flags) translation the mapper currently holds for
    /// a page, if any.
    pub closed spec fn mapping_of(self, page: u64) -> Option<(u64, u64)> {
        self.translate_at(self.root, 4, page)
    }

    /// How many intermediate tables are still absent on the walk for `page`
    /// below the level-`level` table at `a`.
    pub closed spec fn missing_tables_at(self, a: u64, level: int, page: u64) -> int
        decreases level,
    {
        if level <= 1 {
            0
        } else {
            match self.entries_at(a)[page_index(page, level)] {
                PageTableEntry::Unused => level - 1,
                PageTableEntry::Table { addr } => self.missing_tables_at(addr, level - 1, page),
                PageTableEntry::Mapped { .. } => 0,
            }
        }
    }

    /// How many fresh frames a `map` of this page would consume.
    pub closed spec fn missing_tables(self, page: u64) -> int {
        self.missing_tables_at(self.root, 4, page)
    }

    proof fn lemma_index_unique(self, i: int, t: u64)
        requires
            self.addrs_unique(),
            0 <= i < self.tables@.len(),
            self.tables@[i].addr == t,
        ensures
            self.contains_table(t),
            self.table_index(t) == i,
    {
        assert(self.contains_table(t));
        let j = self.table_index(t);
        if i < j {
            assert(self.tables@[i].addr != self.tables@[j].addr);
        } else if j < i {
            assert(self.tables@[j].addr != self.tables@[i].addr);
        }
    }

    /// Locates the table stored at physical address `a`.
    fn find_table(&self, a: u64) -> (r: Option<usize>)
        requires
            self.addrs_unique(),
        ensures
            match r {
                Some(i) => i < self.tables@.len() && self.tables@[i as int].addr == a
                    && self.contains_table(a) && self.table_index(a) == i,
                None => !self.contains_table(a),
            },
    {
        let n = self.tables.len();
        let mut i: usize = 0;
        while i < n
            invariant
                self.addrs_unique(),
                0 <= i <= n,
                n == self.tables@.len(),
                forall|j: int| 0 <= j < i ==> (#[trigger] self.tables@[j].addr) != a,
            decreases n - i,
        {
            if self.tables[i].addr == a {
                proof {
                    self.lemma_index_unique(i as int, a);
                }
                return Some(i);
            }
            i = i + 1;
        }
        return None;
    }

    /// Replaces entry `k` of table `i` of the store.
    fn set_entry(&mut self, i: usize, k: usize, e: PageTableEntry)
        requires
            i < old(self).tables@.len(),
            k < old(self).tables@[i as int].entries@.len(),
        ensures
            final(self).tables@.len() == old(self).tables@.len(),
            final(self).tables@[i as int].addr == old(self).tables@[i as int].addr,
            final(self).tables@[i as int].entries@ == old(self).tables@[i as int].entries@.update(
                k as int,
                e,
            ),
            forall|j: int|
                0 <= j < old(self).tables@.len() && j != i ==> final(self).tables@[j] == old(
                    self,
                ).tables@[j],
            final(self).root == old(self).root,
            final(self).physical_memory_offset == old(self).physical_memory_offset,
            final(self).levels == old(self).levels,
    {
        let mut node = self.tables.remove(i);
        node.entries.set(k, e);
        self.tables.insert(i, node);
        proof {
            assert forall|j: int| 0 <= j < old(self).tables@.len() && j != i implies self.tables@[j]
                == old(self).tables@[j] by {
            }
        }
    }

    /// Adds a fresh, zero-initialized table at physical address `a`, recorded
    /// at the given level.
    fn add_table(&mut self, a: u64, level: Ghost<int>)
        ensures
            final(self).tables@.len() == old(self).tables@.len() + 1,
            final(self).tables@[old(self).tables@.len() as int].addr == a,
            final(self).tables@[old(self).tables@.len() as int].entries@ == Seq::new(
                512,
                |q: int| PageTableEntry::Unused,
            ),
            forall|j: int|
                0 <= j < old(self).tables@.len() ==> final(self).tables@[j] == old(self).tables@[j],
            final(self).levels@ == old(self).levels@.insert(a, level@),
            final(self).root == old(self).root,
            final(self).physical_memory_offset == old(self).physical_memory_offset,
    {
        let mut entries: Vec<PageTableEntry> = Vec::new();
        let mut q: usize = 0;
        while q < 512
            invariant
                0 <= q <= 512,
                entries@.len() == q,
                forall|m: int| 0 <= m < q ==> entries@[m] == PageTableEntry::Unused,
            decreases 512 - q,
        {
            entries.push(PageTableEntry::Unused);
            q = q + 1;
        }
        proof {
            assert(entries@ =~= Seq::new(512, |m: int| PageTableEntry::Unused));
        }
        self.tables.push(TableNode { addr: a, entries });
        self.levels = Ghost(self.levels@.insert(a, level@));
    }

    /// Reads entry `k` of table `i` of the store.
    fn read_entry(&self, i: usize, k: usize) -> (e: PageTableEntry)
        requires
            i < self.tables@.len(),
            k < self.tables@[i as int].entries@.len(),
        ensures
            e == self.tables@[i as int].entries@[k as int],
    {
        self.tables[i].entries[k]
    }

    /// Looks up the translation the table tree currently holds for a page.
    pub fn translate(&self, page: Page) -> (r: Option<(u64, u64)>)
        requires
            self.wf(),
            page.wf(),
        ensures
            r == self.mapping_of(page.number),
    {
        self.translate_rec(self.root, 4, page.number)
    }

    /// Inserts a translation for `page` to `frame` with the given leaf
    /// flags. Walks the table hierarchy from the top level down, creating
    /// absent intermediate tables on demand; each creation consumes one frame
    /// from the allocator, zero-fills it, and links it into the parent.
    /// Fails with `PageAlreadyMapped`, mutating nothing, when the page
    /// already holds a translation; fails with `FrameAllocationFailed` when
    /// the allocator runs out while intermediate tables are owed (tables
    /// already linked by then remain linked). Succeeds exactly when the page
    /// is unmapped and the allocator still holds the owed number of frames.
    /// Existing translations are never disturbed. The returned flush token
    /// must be consumed before the new translation counts as active.
    pub fn map(
        &mut self,
        page: Page,
        frame: PhysFrame,
        flags: u64,
        frame_allocator: &mut BootInfoFrameAllocator,
    ) -> (r: Result<MapperFlush, MapError>)
        requires
            old(self).wf(),
            page.wf(),
            old(frame_allocator).wf(),
            frames_fresh(*old(self), *old(frame_allocator)),
            old(frame_allocator).cursor() + 4 <= usize::MAX,
        ensures
            final(self).wf(),
            final(frame_allocator).wf(),
            final(frame_allocator).usable() == old(frame_allocator).usable(),
            final(self).root_addr() == old(self).root_addr(),
            final(self).phys_offset() == old(self).phys_offset(),
            frames_fresh(*final(self), *final(frame_allocator)),
            preserves_tables(*old(self), *final(self)),
            r is Ok <==> (old(self).mapping_of(page.number) is None && old(
                frame_allocator,
            ).remaining() >= old(self).missing_tables(page.number)),
            forall|q: u64|
                old(self).mapping_of(q) is Some ==> final(self).mapping_of(q) == old(
                    self,
                ).mapping_of(q),
            // no other page's translation appears, changes, or vanishes
            forall|q: u64|
                q < 0x1000000000 && q != page.number ==> final(self).mapping_of(q) == old(
                    self,
                ).mapping_of(q),
            match r {
                Ok(flush) => {
                    &&& flush.page == page
                    &&& final(self).mapping_of(page.number) == Some((frame.start_address, flags))
                    &&& final(frame_allocator).cursor() == old(frame_allocator).cursor() + old(
                        self,
                    ).missing_tables(page.number)
                },
                Err(e) => {
                    &&& (e == MapError::PageAlreadyMapped ==> old(self).mapping_of(page.number)
                        is Some && *final(self) == *old(self) && *final(frame_allocator) == *old(
                        frame_allocator,
                    ))
                    &&& (e == MapError::FrameAllocationFailed ==> final(self).mapping_of(
                        page.number,
                    ) is None && old(self).mapping_of(page.number) is None && old(
                        frame_allocator,
                    ).remaining() < old(self).missing_tables(page.number))
                },
            },
    {
        let root = self.root;
        let ghost m1 = *self;
        let r = self.map_level(root, 4, page.number, frame.start_address, flags, frame_allocator);
        proof {
            assert forall|q: u64| m1.mapping_of(q) is Some implies self.mapping_of(q)
                == m1.mapping_of(q) by {
                lemma_translate_preserved(m1, *self, m1.root, 4, q);
            }
            assert forall|q: u64| q < 0x1000000000 && q != page.number implies self.mapping_of(q)
                == m1.mapping_of(q) by {
                if same_path_below(q, page.number, 4) {
                    lemma_same_path_same_page(q, page.number);
                }
                assert(m1.contains_table(m1.root) && m1.level_of(m1.root) == 4);
                assert(self.translate_at(m1.root, 4, q) == m1.translate_at(m1.root, 4, q));
            }
        }
        match r {
            Ok(()) => Ok(MapperFlush { page }),
            Err(e) => Err(e),
        }
    }

    #[verifier::rlimit(100)]
    #[verifier::spinoff_prover]
    fn map_level(
        &mut self,
        a: u64,
        level: u64,
        page: u64,
        frame: u64,
        flags: u64,
        allocator: &mut BootInfoFrameAllocator,
    ) -> (r: Result<(), MapError>)
        requires
            old(self).wf(),
            old(allocator).wf(),
            old(self).contains_table(a),
            1 <= level <= 4,
            old(self).level_of(a) == level,
            frames_fresh(*old(self), *old(allocator)),
            old(allocator).cursor() + level <= usize::MAX,
        ensures
            final(self).wf(),
            final(allocator).wf(),
            final(allocator).usable() == old(allocator).usable(),
            final(self).root == old(self).root,
            final(self).physical_memory_offset == old(self).physical_memory_offset,
            preserves_tables(*old(self), *final(self)),
            frames_fresh(*final(self), *final(allocator)),
            r is Ok <==> (old(self).translate_at(a, level as int, page) is None && old(
                allocator,
            ).remaining() >= old(self).missing_tables_at(a, level as int, page)),
            r is Ok ==> final(self).translate_at(a, level as int, page) == Some((frame, flags))
                && final(allocator).cursor() == old(allocator).cursor() + old(
                self,
            ).missing_tables_at(a, level as int, page),
            (r matches Err(MapError::PageAlreadyMapped)) ==> old(self).translate_at(
                a,
                level as int,
                page,
            ) is Some && *final(self) == *old(self) && *final(allocator) == *old(allocator),
            // locality: only tables at or below this level change; at this
            // level only this table, and in it only the page's slot
            forall|t: u64|
                old(self).contains_table(t) && old(self).level_of(t) > level ==> final(self).entries_at(t) == old(self).entries_at(t),
            forall|t: u64|
                old(self).contains_table(t) && old(self).level_of(t) == level && t != a ==> final(self).entries_at(t) == old(self).entries_at(t),
            forall|k: int|
                0 <= k < 512 && k != page_index(page, level as int) ==> final(self).entries_at(a)[k]
                    == old(self).entries_at(a)[k],
            // walks that do not follow the page below this table are untouched
            forall|t: u64, q: u64|
                old(self).contains_table(t) && old(self).level_of(t) == level && !(t == a
                    && same_path_below(q, page, level as int)) ==> final(self).translate_at(
                    t,
                    level as int,
                    q,
                ) == old(self).translate_at(t, level as int, q),
            (r matches Err(MapError::FrameAllocationFailed)) ==> final(self).translate_at(
                a,
                level as int,
                page,
            ) is None && old(self).translate_at(
                a,
                level as int,
                page,
            ) is None && old(allocator).remaining() < old(self).missing_tables_at(
                a,
                level as int,
                page,
            ) && final(allocator).cursor() == (if old(allocator).cursor() >= old(
                allocator,
            ).usable().len() {
                old(allocator).cursor() + 1
            } else {
                old(allocator).usable().len() as int + 1
            }),
        decreases level,
    {
        let idx = page_index_exec(page, level);
        proof {
            self.lemma_table(a);
        }
        let i = self.find_table(a).unwrap();
        let e = self.read_entry(i, idx);
        proof {
            assert(self.entries_at(a) == self.tables@[i as int].entries@);
            assert(self.entry_wf(a, idx as int));
        }
        match e {
            PageTableEntry::Table { addr: child } => {
                if level == 1 {
                    // a link entry in a level-1 table contradicts the invariant
                    proof {
                        assert(false);
                    }
                    vstd::pervasive::unreached()
                } else {
                    let ghost m1 = *self;
                    let r = self.map_level(child, level - 1, page, frame, flags, allocator);
                    proof {
                        assert(m1.entries_at(a)[idx as int] != PageTableEntry::Unused);
                        assert(self.entries_at(a)[idx as int] == PageTableEntry::Table {
                            addr: child,
                        });
                        assert(self.contains_table(a));
                        assert(m1.translate_at(a, level as int, page) == m1.translate_at(
                            child,
                            level as int - 1,
                            page,
                        ));
                        assert(self.translate_at(a, level as int, page) == self.translate_at(
                            child,
                            level as int - 1,
                            page,
                        ));
                        assert(m1.missing_tables_at(a, level as int, page) == m1.missing_tables_at(
                            child,
                            level as int - 1,
                            page,
                        ));
                        let lvl = level as int;
                        let idxp = page_index(page, lvl);
                        assert forall|t: u64, q: u64|
                            m1.contains_table(t) && m1.level_of(t) == lvl && !(t == a
                                && same_path_below(q, page, lvl)) implies self.translate_at(
                            t,
                            lvl,
                            q,
                        ) == m1.translate_at(t, lvl, q) by {
                            m1.lemma_table(t);
                            let idxq = page_index(q, lvl);
                            assert(self.entries_at(t) == m1.entries_at(t));
                            assert(self.contains_table(t) && self.level_of(t) == lvl);
                            let e = m1.entries_at(t)[idxq];
                            assert(m1.entry_wf(t, idxq));
                            match e {
                                PageTableEntry::Table { addr: b } => {
                                    if t == a && idxq == idxp {
                                        assert(b == child);
                                        assert(!same_path_below(q, page, lvl - 1));
                                    } else {
                                        // a second link to the child would break link
                                        // uniqueness, so q's walk leaves the page's path here
                                        let it = m1.table_index(t);
                                        let ia = m1.table_index(a);
                                        assert(0 <= it < m1.tables@.len() && m1.tables@[it].addr
                                            == t);
                                        assert(0 <= ia < m1.tables@.len() && m1.tables@[ia].addr
                                            == a);
                                        assert(m1.entries_at(t) == m1.tables@[it].entries@);
                                        assert(m1.entries_at(a) == m1.tables@[ia].entries@);
                                        assert(m1.link_of(it, idxq) == Some(b));
                                        assert(m1.link_of(ia, idxp) == Some(child));
                                        if b == child {
                                            assert(it != ia || idxq != idxp);
                                            assert(false);
                                        }
                                    }
                                    assert(self.translate_at(b, lvl - 1, q) == m1.translate_at(
                                        b,
                                        lvl - 1,
                                        q,
                                    ));
                                    assert(m1.translate_at(t, lvl, q) == m1.translate_at(
                                        b,
                                        lvl - 1,
                                        q,
                                    ));
                                    assert(self.translate_at(t, lvl, q) == self.translate_at(
                                        b,
                                        lvl - 1,
                                        q,
                                    ));
                                },
                                _ => {
                                    assert(self.translate_at(t, lvl, q) == m1.translate_at(
                                        t,
                                        lvl,
                                        q,
                                    ));
                                },
                            }
                        }
                    }
                    r
                }
            },
            PageTableEntry::Mapped { .. } => {
                if level == 1 {
                    proof {
                        assert(self.translate_at(a, 1, page) is Some);
                    }
                    Err(MapError::PageAlreadyMapped)
                } else {
                    // a translation entry above level 1 contradicts the invariant
                    proof {
                        assert(false);
                    }
                    vstd::pervasive::unreached()
                }
            },
            PageTableEntry::Unused => {
                proof {
                    assert(self.translate_at(a, level as int, page) is None);
                }
                if level == 1 {
                    let ghost m1 = *self;
                    self.set_entry(i, idx, PageTableEntry::Mapped { frame, flags });
                    proof {
                        lemma_set_entry_wf(
                            m1,
                            *self,
                            a,
                            i as int,
                            idx as int,
                            PageTableEntry::Mapped { frame, flags },
                        );
                        assert(self.entries_at(a)[idx as int] == PageTableEntry::Mapped {
                            frame,
                            flags,
                        });
                        assert(self.translate_at(a, 1, page) == Some((frame, flags)));
                        assert(m1.missing_tables_at(a, 1, page) == 0);
                        let idxp = page_index(page, 1);
                        assert forall|t: u64, q: u64|
                            m1.contains_table(t) && m1.level_of(t) == 1 && !(t == a
                                && same_path_below(q, page, 1)) implies self.translate_at(t, 1, q)
                            == m1.translate_at(t, 1, q) by {
                            m1.lemma_table(t);
                            let idxq = page_index(q, 1);
                            assert(self.contains_table(t));
                            if t == a {
                                assert(same_path_below(q, page, 0));
                                assert(idxq != idxp);
                                assert(self.entries_at(a)[idxq] == m1.entries_at(a)[idxq]);
                            } else {
                                assert(self.entries_at(t) == m1.entries_at(t));
                            }
                        }
                    }
                    Ok(())
                } else {
                    proof {
                        assert(self.missing_tables_at(a, level as int, page) == level - 1);
                    }
                    match allocator.allocate_frame() {
                        None => {
                            proof {
                                assert(old(allocator).remaining() == 0);
                            }
                            Err(MapError::FrameAllocationFailed)
                        },
                        Some(f) => {
                            let fa = f.start_address;
                            let ghost m1 = *self;
                            let ghost c = old(allocator).cursor();
                            proof {
                                assert(fa == old(allocator).usable()[c]);
                                assert(!m1.contains_table(fa));
                            }
                            self.add_table(fa, Ghost(level as int - 1));
                            let ghost m2 = *self;
                            proof {
                                lemma_add_table_wf(m1, m2, fa, level as int - 1);
                            }
                            self.set_entry(i, idx, PageTableEntry::Table { addr: fa });
                            let ghost m3 = *self;
                            proof {
                                assert(m2.tables@[i as int].addr == a && m2.tables@[i as
                                    int].entries@ == m1.tables@[i as int].entries@) by {
                                    assert(m2.tables@[i as int] == m1.tables@[i as int]);
                                }
                                assert(m2.entries_at(a) == m1.entries_at(a)) by {
                                    assert(m1.contains_table(a));
                                }
                                assert(m2.entries_at(a)[idx as int] == PageTableEntry::Unused);
                                lemma_set_entry_wf(
                                    m2,
                                    m3,
                                    a,
                                    i as int,
                                    idx as int,
                                    PageTableEntry::Table { addr: fa },
                                );
                                lemma_preserves_trans(m1, m2, m3);
                                // the fresh table is empty, so the walk below it finds nothing
                                assert(m3.entries_at(fa) == m2.entries_at(fa));
                                assert(m3.entries_at(fa)[page_index(page, level as int - 1)]
                                    == PageTableEntry::Unused);
                                assert(m3.translate_at(fa, level as int - 1, page) is None);
                                assert(m3.missing_tables_at(fa, level as int - 1, page) == if level
                                    == 2 {
                                    0int
                                } else {
                                    level - 2
                                });
                                assert(m3.contains_table(fa) && m3.level_of(fa) == level - 1);
                                // the frames still owed stay fresh for the recursive call
                                assert forall|k: int|
                                    allocator.cursor() <= k < allocator.usable().len() implies !m3.contains_table(
                                    #[trigger] allocator.usable()[k],
                                ) by {
                                    assert(allocator.usable()[k] != fa);
                                    assert(!m1.contains_table(allocator.usable()[k]));
                                    assert(m3.contains_table(allocator.usable()[k])
                                        ==> m2.contains_table(allocator.usable()[k]));
                                }
                            }
                            let r = self.map_level(fa, level - 1, page, frame, flags, allocator);
                            proof {
                                lemma_preserves_trans(m1, m3, *self);
                                assert(m3.entries_at(a)[idx as int] == PageTableEntry::Table {
                                    addr: fa,
                                });
                                assert(self.entries_at(a)[idx as int] == PageTableEntry::Table {
                                    addr: fa,
                                });
                                assert(self.contains_table(a));
                                assert(self.translate_at(a, level as int, page)
                                    == self.translate_at(fa, level as int - 1, page));
                                let lvl = level as int;
                                let idxp = page_index(page, lvl);
                                assert forall|s: u64|
                                    #[trigger] m1.contains_table(s) && m1.level_of(s) <= lvl - 1
                                    implies m3.contains_table(s) && m3.level_of(s) == m1.level_of(
                                    s,
                                ) && m3.entries_at(s) == m1.entries_at(s) by {
                                    assert(s != a);
                                    assert(m2.entries_at(s) == m1.entries_at(s));
                                }
                                assert forall|t: u64, q: u64|
                                    m1.contains_table(t) && m1.level_of(t) == lvl && !(t == a
                                        && same_path_below(q, page, lvl)) implies self.translate_at(
                                    t,
                                    lvl,
                                    q,
                                ) == m1.translate_at(t, lvl, q) by {
                                    m1.lemma_table(t);
                                    let idxq = page_index(q, lvl);
                                    assert(m3.contains_table(t) && m3.level_of(t) == lvl);
                                    assert(self.contains_table(t) && self.level_of(t) == lvl);
                                    if t == a && idxq == idxp {
                                        // the page's slot: empty before, linked to the zeroed
                                        // fresh chain after; q leaves the page's path inside it
                                        assert(!same_path_below(q, page, lvl - 1));
                                        assert(m1.translate_at(t, lvl, q) is None);
                                        assert(self.entries_at(a)[idxp] == PageTableEntry::Table {
                                            addr: fa,
                                        });
                                        assert(self.translate_at(a, lvl, q) == self.translate_at(
                                            fa,
                                            lvl - 1,
                                            q,
                                        ));
                                        assert(self.translate_at(fa, lvl - 1, q)
                                            == m3.translate_at(fa, lvl - 1, q));
                                        assert(m3.entries_at(fa)[page_index(q, lvl - 1)]
                                            == PageTableEntry::Unused);
                                        assert(m3.translate_at(fa, lvl - 1, q) is None);
                                    } else {
                                        assert(m3.entries_at(t)[idxq] == m1.entries_at(t)[idxq])
                                            by {
                                            if t == a {
                                                assert(m2.entries_at(a) == m1.entries_at(a));
                                                assert(idxq != idxp);
                                            } else {
                                                assert(m2.entries_at(t) == m1.entries_at(t));
                                                assert(m3.entries_at(t) == m2.entries_at(t));
                                            }
                                        }
                                        assert(self.entries_at(t)[idxq] == m3.entries_at(t)[idxq]);
                                        let e = m1.entries_at(t)[idxq];
                                        assert(m1.entry_wf(t, idxq));
                                        match e {
                                            PageTableEntry::Table { addr: b } => {
                                                assert(b != fa);
                                                assert(m1.level_of(b) == lvl - 1);
                                                lemma_translate_low_unchanged(
                                                    m1,
                                                    m3,
                                                    b,
                                                    lvl - 1,
                                                    q,
                                                );
                                                assert(self.translate_at(b, lvl - 1, q)
                                                    == m3.translate_at(b, lvl - 1, q));
                                                assert(m1.translate_at(t, lvl, q)
                                                    == m1.translate_at(b, lvl - 1, q));
                                                assert(self.translate_at(t, lvl, q)
                                                    == self.translate_at(b, lvl - 1, q));
                                            },
                                            _ => {
                                                assert(self.translate_at(t, lvl, q)
                                                    == m1.translate_at(t, lvl, q));
                                            },
                                        }
                                    }
                                }
                            }
                            r
                        },
                    }
                }
            },
        }
    }

    fn translate_rec(&self, a: u64, level: u64, page: u64) -> (r: Option<(u64, u64)>)
        requires
            self.wf(),
            1 <= level <= 4,
        ensures
            r == self.translate_at(a, level as int, page),
        decreases level,
    {
        let idx = page_index_exec(page, level);
        match self.find_table(a) {
            None => None,
            Some(i) => {
                let e = self.read_entry(i, idx);
                proof {
                    assert(self.entries_at(a) == self.tables@[i as int].entries@);
                }
                match e {
                    PageTableEntry::Unused => None,
                    PageTableEntry::Table { addr } => {
                        if level > 1 {
                            self.translate_rec(addr, level - 1, page)
                        } else {
                            None
                        }
                    },
                    PageTableEntry::Mapped { frame, flags } => {
                        if level == 1 {
                            Some((frame, flags))
                        } else {
                            None
                        }
                    },
                }
            },
        }
    }
}

/// Maps the given page to the frame holding the VGA text buffer, writable
/// and present, and flushes the stale translation, as a demonstration of the
/// mapping path. The caller must pick an unmapped page and an allocator that
/// still holds the frames the walk may consume.
pub fn create_example_mapping(
    page: Page,
    mapper: &mut Mapper,
    frame_allocator: &mut BootInfoFrameAllocator,
)
    requires
        old(mapper).wf(),
        page.wf(),
        old(frame_allocator).wf(),
        frames_fresh(*old(mapper), *old(frame_allocator)),
        old(frame_allocator).cursor() + 4 <= usize::MAX,
        old(mapper).mapping_of(page.number) is None,
        old(frame_allocator).remaining() >= old(mapper).missing_tables(page.number),
    ensures
        final(mapper).wf(),
        final(frame_allocator).wf(),
        final(frame_allocator).usable() == old(frame_allocator).usable(),
        frames_fresh(*final(mapper), *final(frame_allocator)),
        final(mapper).mapping_of(page.number) == Some(
            (0xb8000u64, FLAG_PRESENT | FLAG_WRITABLE),
        ),
        // exactly the owed intermediate tables are taken from the allocator
        final(frame_allocator).cursor() == old(frame_allocator).cursor() + old(
            mapper,
        ).missing_tables(page.number),
        forall|q: u64|
            old(mapper).mapping_of(q) is Some ==> final(mapper).mapping_of(q) == old(
                mapper,
            ).mapping_of(q),
        forall|q: u64|
            q < 0x1000000000 && q != page.number ==> final(mapper).mapping_of(q) == old(
                mapper,
            ).mapping_of(q),
{
    let frame = PhysFrame { start_address: 0xb8000 };
    let flags = FLAG_PRESENT | FLAG_WRITABLE;
    let map_to_result = mapper.map(page, frame, flags, frame_allocator);
    match map_to_result {
        Ok(flush) => {
            let _flushed = flush.flush();
        },
        Err(_) => {
            // the preconditions promise an unmapped page and enough frames
            proof {
                assert(false);
            }
        },
    }
}

/// Whether two page numbers select the same table index at this level and
/// at every level below it: exactly then do their walks coincide from a
/// shared table at this level downwards.
pub open spec fn same_path_below(q: u64, p: u64, level: int) -> bool
    decreases level,
{
    if level < 1 {
        true
    } else {
        page_index(q, level) == page_index(p, level) && same_path_below(q, p, level - 1)
    }
}

/// The four 9-bit indices determine the page number: two pages with the same
/// whole path are the same page.
proof fn lemma_same_path_same_page(p: u64, q: u64)
    requires
        p < 0x1000000000,
        q < 0x1000000000,
        same_path_below(p, q, 4),
    ensures
        p == q,
{
    assert(same_path_below(p, q, 3));
    assert(same_path_below(p, q, 2));
    assert(same_path_below(p, q, 1));
    assert(p == q) by (bit_vector)
        requires
            p < 0x1000000000,
            q < 0x1000000000,
            p / 0x8000000u64 % 512 == q / 0x8000000u64 % 512,
            p / 0x40000u64 % 512 == q / 0x40000u64 % 512,
            p / 512u64 % 512 == q / 512u64 % 512,
            p % 512u64 == q % 512u64,
    ;
}

/// A walk from a table at `lv` reads only tables at `lv` and below: when all
/// of those are unchanged, the walk is unchanged.
proof fn lemma_translate_low_unchanged(m1: Mapper, m2: Mapper, t: u64, lv: int, q: u64)
    requires
        m1.wf(),
        m2.wf(),
        1 <= lv <= 4,
        m1.contains_table(t),
        m1.level_of(t) == lv,
        forall|s: u64|
            #[trigger] m1.contains_table(s) && m1.level_of(s) <= lv ==> m2.contains_table(s)
                && m2.level_of(s) == m1.level_of(s) && m2.entries_at(s) == m1.entries_at(s),
    ensures
        m2.translate_at(t, lv, q) == m1.translate_at(t, lv, q),
    decreases lv,
{
    m1.lemma_table(t);
    assert(m2.contains_table(t) && m2.entries_at(t) == m1.entries_at(t));
    let idx = page_index(q, lv);
    assert(m1.entry_wf(t, idx));
    match m1.entries_at(t)[idx] {
        PageTableEntry::Table { addr } => {
            if lv > 1 {
                lemma_translate_low_unchanged(m1, m2, addr, lv - 1, q);
            }
        },
        _ => {},
    }
}

/// The frames the allocator will still hand out collide neither with any
/// table of the store nor with one another: usable RAM does not overlap the
/// page tables. `map` consumes such frames to build intermediate tables.
pub open spec fn frames_fresh(m: Mapper, alloc: BootInfoFrameAllocator) -> bool {
    &&& forall|k: int|
        alloc.cursor() <= k < alloc.usable().len() ==> !m.contains_table(
            #[trigger] alloc.usable()[k],
        )
    &&& forall|k1: int, k2: int|
        #![trigger alloc.usable()[k1], alloc.usable()[k2]]
        alloc.cursor() <= k1 < k2 < alloc.usable().len() ==> alloc.usable()[k1]
            != alloc.usable()[k2]
}

/// Relates two mapper states: every table of the first is still a table of
/// the second, at the same level, and no entry that held a link or a
/// translation has changed. A mapping operation only fills empty entries and
/// adds fresh tables, so it always leaves the two states in this relation.
pub open spec fn preserves_tables(m1: Mapper, m2: Mapper) -> bool {
    &&& forall|t: u64|
        #[trigger] m1.contains_table(t) ==> m2.contains_table(t) && m2.level_of(t)
            == m1.level_of(t)
    &&& forall|t: u64, k: int|
        m1.contains_table(t) && 0 <= k < 512 && (#[trigger] m1.entries_at(t)[k])
            != PageTableEntry::Unused ==> m2.entries_at(t)[k] == m1.entries_at(t)[k]
}

proof fn lemma_preserves_trans(m1: Mapper, m2: Mapper, m3: Mapper)
    requires
        preserves_tables(m1, m2),
        preserves_tables(m2, m3),
    ensures
        preserves_tables(m1, m3),
{
    assert forall|t: u64, k: int|
        m1.contains_table(t) && 0 <= k < 512 && (#[trigger] m1.entries_at(t)[k])
            != PageTableEntry::Unused implies m3.entries_at(t)[k] == m1.entries_at(t)[k] by {
        assert(m2.entries_at(t)[k] == m1.entries_at(t)[k]);
    }
}

/// Every translation the first state holds, the second holds unchanged: a
/// walk that succeeds uses only non-empty entries, and those are preserved.
proof fn lemma_translate_preserved(m1: Mapper, m2: Mapper, a: u64, level: int, page: u64)
    requires
        m1.wf(),
        m2.wf(),
        preserves_tables(m1, m2),
        1 <= level <= 4,
        m1.translate_at(a, level, page) is Some,
    ensures
        m2.translate_at(a, level, page) == m1.translate_at(a, level, page),
    decreases level,
{
    let idx = page_index(page, level);
    assert(m1.contains_table(a));
    m1.lemma_table(a);
    m2.lemma_table(a);
    let e = m1.entries_at(a)[idx];
    assert(m2.entries_at(a)[idx] == e);
    match e {
        PageTableEntry::Table { addr } => {
            if level > 1 {
                lemma_translate_preserved(m1, m2, addr, level - 1, page);
            }
        },
        _ => {},
    }
}

proof fn lemma_set_entry_view(m1: Mapper, m2: Mapper, i: int, k: int, e: PageTableEntry)
    requires
        m1.addrs_unique(),
        0 <= i < m1.tables@.len(),
        0 <= k < m1.tables@[i].entries@.len(),
        m2.tables@.len() == m1.tables@.len(),
        m2.tables@[i].addr == m1.tables@[i].addr,
        m2.tables@[i].entries@ == m1.tables@[i].entries@.update(k, e),
        forall|j: int| 0 <= j < m1.tables@.len() && j != i ==> m2.tables@[j] == m1.tables@[j],
        m2.levels == m1.levels,
    ensures
        m2.addrs_unique(),
        forall|t: u64| #[trigger] m1.contains_table(t) ==> m2.contains_table(t),
        forall|t: u64| #[trigger] m2.contains_table(t) ==> m1.contains_table(t),
        forall|t: u64| #[trigger] m1.contains_table(t) ==> m2.table_index(t) == m1.table_index(t),
        forall|t: u64|
            #[trigger] m1.contains_table(t) && m1.table_index(t) != i ==> m2.entries_at(t)
                == m1.entries_at(t),
        m2.entries_at(m1.tables@[i].addr) == m1.tables@[i].entries@.update(k, e),
        forall|t: u64| m2.level_of(t) == m1.level_of(t),
        m2.levels@ == m1.levels@,
{
    assert forall|j: int| 0 <= j < m1.tables@.len() implies m2.tables@[j].addr
        == m1.tables@[j].addr by {}
    assert forall|t: u64| #[trigger] m1.contains_table(t) implies m2.contains_table(t) by {
        let j = choose|j: int| 0 <= j < m1.tables@.len() && m1.tables@[j].addr == t;
        assert(m2.tables@[j].addr == t);
    }
    assert forall|t: u64| #[trigger] m2.contains_table(t) implies m1.contains_table(t) by {
        let j = choose|j: int| 0 <= j < m2.tables@.len() && m2.tables@[j].addr == t;
        assert(m1.tables@[j].addr == t);
    }
    assert forall|t: u64| #[trigger] m1.contains_table(t) implies m2.table_index(t)
        == m1.table_index(t) by {
        let j = m1.table_index(t);
        assert(0 <= j < m1.tables@.len() && m1.tables@[j].addr == t);
        m2.lemma_index_unique(j, t);
    }
    assert forall|t: u64|
        #[trigger] m1.contains_table(t) && m1.table_index(t) != i implies m2.entries_at(t)
        == m1.entries_at(t) by {
        let j = m1.table_index(t);
        assert(m2.tables@[j] == m1.tables@[j]);
    }
    m1.lemma_index_unique(i, m1.tables@[i].addr);
    assert(m1.contains_table(m1.tables@[i].addr));
}

proof fn lemma_set_entry_wf(m1: Mapper, m2: Mapper, a: u64, i: int, k: int, e: PageTableEntry)
    requires
        m1.wf(),
        0 <= i < m1.tables@.len(),
        m1.tables@[i].addr == a,
        0 <= k < 512,
        m1.entries_at(a)[k] == PageTableEntry::Unused,
        m2.tables@.len() == m1.tables@.len(),
        m2.tables@[i].addr == m1.tables@[i].addr,
        m2.tables@[i].entries@ == m1.tables@[i].entries@.update(k, e),
        forall|j: int| 0 <= j < m1.tables@.len() && j != i ==> m2.tables@[j] == m1.tables@[j],
        m2.levels == m1.levels,
        m2.root == m1.root,
        match e {
            PageTableEntry::Unused => true,
            PageTableEntry::Table { addr } => {
                &&& m1.level_of(a) >= 2
                &&& m1.contains_table(addr)
                &&& m1.level_of(addr) == m1.level_of(a) - 1
                &&& addr != m1.root
                &&& forall|i2: int, k2: int|
                    0 <= i2 < m1.tables@.len() && 0 <= k2 < 512 ==> #[trigger] m1.link_of(i2, k2)
                        != Some(addr)
            },
            PageTableEntry::Mapped { .. } => m1.level_of(a) == 1,
        },
    ensures
        m2.wf(),
        preserves_tables(m1, m2),
        m2.entries_at(a) == m1.entries_at(a).update(k, e),
        forall|t: u64| #[trigger] m1.contains_table(t) <==> m2.contains_table(t),
        forall|t: u64| m2.level_of(t) == m1.level_of(t),
{
    lemma_set_entry_view(m1, m2, i, k, e);
    m1.lemma_index_unique(i, a);
    assert(m1.entries_at(a) == m1.tables@[i].entries@);
    assert(m2.entries_at(a) == m1.entries_at(a).update(k, e));
    assert forall|j: int| 0 <= j < m2.tables@.len() implies (#[trigger] m2.tables@[j].entries@).len()
        == 512 by {
        if j == i {
            assert(m2.tables@[j].entries@ == m1.tables@[j].entries@.update(k, e));
        } else {
            assert(m2.tables@[j] == m1.tables@[j]);
        }
    }
    assert forall|j: int, q: int|
        0 <= j < m2.tables@.len() && 0 <= q < 512 implies #[trigger] m2.entry_wf(
        m2.tables@[j].addr,
        q,
    ) by {
        let t = m2.tables@[j].addr;
        assert(m1.tables@[j].addr == t);
        assert(m1.entry_wf(t, q));
        m1.lemma_index_unique(j, t);
        if m1.table_index(t) == i {
            assert(t == a);
            if q == k {
                assert(m2.entries_at(t)[q] == e);
            } else {
                assert(m2.entries_at(t)[q] == m1.entries_at(t)[q]);
            }
        } else {
            assert(m2.entries_at(t) == m1.entries_at(t));
        }
    }
    assert forall|t: u64, q: int|
        m1.contains_table(t) && 0 <= q < 512 && (#[trigger] m1.entries_at(t)[q])
            != PageTableEntry::Unused implies m2.entries_at(t)[q] == m1.entries_at(t)[q] by {
        if m1.table_index(t) == i {
            let j = m1.table_index(t);
            assert(0 <= j < m1.tables@.len() && m1.tables@[j].addr == t);
            assert(t == a);
            assert(q != k);
            assert(m2.entries_at(t) == m1.entries_at(t).update(k, e));
        } else {
            assert(m2.entries_at(t) == m1.entries_at(t));
        }
    }
    assert forall|j: int, q: int|
        0 <= j < m2.tables@.len() && 0 <= q < 512 && (j != i || q != k) implies #[trigger] m2.link_of(
        j,
        q,
    ) == m1.link_of(j, q) by {
        if j == i {
            assert(m2.tables@[j].entries@[q] == m1.tables@[j].entries@[q]);
        } else {
            assert(m2.tables@[j] == m1.tables@[j]);
        }
    }
    assert(m2.links_unique()) by {
        assert forall|i1: int, k1: int, i2: int, k2: int|
            #![trigger m2.link_of(i1, k1), m2.link_of(i2, k2)]
            0 <= i1 < m2.tables@.len() && 0 <= k1 < 512 && 0 <= i2 < m2.tables@.len() && 0 <= k2
                < 512 && (i1 != i2 || k1 != k2) && m2.link_of(i1, k1) is Some implies m2.link_of(
            i1,
            k1,
        ) != m2.link_of(i2, k2) by {
            if (i1 != i || k1 != k) && (i2 != i || k2 != k) {
                assert(m2.link_of(i1, k1) == m1.link_of(i1, k1));
                assert(m2.link_of(i2, k2) == m1.link_of(i2, k2));
                assert(m1.link_of(i1, k1) is Some ==> m1.link_of(i1, k1) != m1.link_of(i2, k2));
            } else if i1 == i && k1 == k {
                assert(m2.link_of(i2, k2) == m1.link_of(i2, k2));
                match e {
                    PageTableEntry::Table { addr } => {
                        assert(m1.link_of(i2, k2) != Some(addr));
                        assert(m2.link_of(i1, k1) == Some(addr));
                    },
                    _ => {
                        assert(m2.link_of(i1, k1) is None);
                    },
                }
            } else {
                assert(m2.link_of(i1, k1) == m1.link_of(i1, k1));
                match e {
                    PageTableEntry::Table { addr } => {
                        assert(m1.link_of(i1, k1) != Some(addr));
                        assert(m2.link_of(i2, k2) == Some(addr));
                    },
                    _ => {
                        assert(m2.link_of(i2, k2) is None);
                    },
                }
            }
        }
        assert forall|j: int, q: int|
            0 <= j < m2.tables@.len() && 0 <= q < 512 implies #[trigger] m2.link_of(j, q) != Some(
            m2.root,
        ) by {
            if j == i && q == k {
                match e {
                    PageTableEntry::Table { addr } => {
                        assert(addr != m1.root);
                    },
                    _ => {},
                }
            } else {
                assert(m2.link_of(j, q) == m1.link_of(j, q));
            }
        }
    }
}

proof fn lemma_add_table_wf(m1: Mapper, m2: Mapper, a: u64, level: int)
    requires
        m1.wf(),
        !m1.contains_table(a),
        1 <= level <= 4,
        m2.tables@.len() == m1.tables@.len() + 1,
        m2.tables@[m1.tables@.len() as int].addr == a,
        m2.tables@[m1.tables@.len() as int].entries@ == Seq::new(
            512,
            |q: int| PageTableEntry::Unused,
        ),
        forall|j: int| 0 <= j < m1.tables@.len() ==> m2.tables@[j] == m1.tables@[j],
        m2.levels@ == m1.levels@.insert(a, level),
        m2.root == m1.root,
    ensures
        m2.wf(),
        preserves_tables(m1, m2),
        m2.contains_table(a),
        m2.level_of(a) == level,
        m2.entries_at(a) == Seq::new(512, |q: int| PageTableEntry::Unused),
        forall|t: u64| #[trigger] m2.contains_table(t) ==> m1.contains_table(t) || t == a,
        forall|t: u64| #[trigger] m1.contains_table(t) ==> m2.contains_table(t),
        forall|t: u64|
            #[trigger] m1.contains_table(t) ==> m2.entries_at(t) == m1.entries_at(t)
                && m2.level_of(t) == m1.level_of(t),
        forall|i: int, k: int|
            0 <= i < m2.tables@.len() && 0 <= k < 512 ==> #[trigger] m2.link_of(i, k) != Some(a),
{
    let n = m1.tables@.len() as int;
    assert forall|j: int| 0 <= j < n implies m2.tables@[j].addr == m1.tables@[j].addr by {}
    assert(m2.addrs_unique()) by {
        assert forall|p: int, j: int|
            0 <= p < j < m2.tables@.len() implies (#[trigger] m2.tables@[p].addr)
            != (#[trigger] m2.tables@[j].addr) by {
            if j < n {
            } else {
                assert(m2.tables@[j].addr == a);
                assert(m1.tables@[p].addr == m2.tables@[p].addr);
                if m2.tables@[p].addr == a {
                    assert(m1.contains_table(a));
                }
            }
        }
    }
    m2.lemma_index_unique(n, a);
    assert forall|t: u64| #[trigger] m1.contains_table(t) implies m2.contains_table(t)
        && m2.entries_at(t) == m1.entries_at(t) && m2.level_of(t) == m1.level_of(t) by {
        let j = m1.table_index(t);
        assert(0 <= j < n && m1.tables@[j].addr == t);
        assert(m2.tables@[j].addr == t);
        m2.lemma_index_unique(j, t);
        assert(m1.levels@.dom().contains(t));
        assert(t != a);
    }
    assert forall|t: u64| #[trigger] m2.contains_table(t) implies m1.contains_table(t) || t
        == a by {
        let j = choose|j: int| 0 <= j < m2.tables@.len() && m2.tables@[j].addr == t;
        if j < n {
            assert(m1.tables@[j].addr == t);
        }
    }
    assert forall|j: int, q: int|
        0 <= j < m2.tables@.len() && 0 <= q < 512 implies #[trigger] m2.entry_wf(
        m2.tables@[j].addr,
        q,
    ) by {
        let t = m2.tables@[j].addr;
        if j < n {
            assert(m1.contains_table(t)) by {
                m1.lemma_index_unique(j, t);
            }
            assert(m1.entry_wf(t, q));
            assert(m2.entries_at(t) == m1.entries_at(t));
        } else {
            assert(t == a);
            assert(m2.entries_at(a)[q] == PageTableEntry::Unused);
        }
    }
    assert forall|j: int| 0 <= j < m2.tables@.len() implies (#[trigger] m2.tables@[j].entries@).len()
        == 512 by {
        if j < n {
            assert(m2.tables@[j] == m1.tables@[j]);
        }
    }
    assert forall|j: int|
        0 <= j < m2.tables@.len() implies 1 <= #[trigger] m2.level_of(m2.tables@[j].addr)
        <= 4 by {
        let t = m2.tables@[j].addr;
        if j < n {
            m1.lemma_index_unique(j, t);
            assert(m1.contains_table(t));
            assert(m2.level_of(t) == m1.level_of(t));
        } else {
            assert(m2.level_of(a) == level);
        }
    }
    assert forall|j: int|
        0 <= j < m2.tables@.len() implies m2.levels@.dom().contains(
        #[trigger] m2.tables@[j].addr,
    ) by {
        let t = m2.tables@[j].addr;
        if j < n {
            m1.lemma_index_unique(j, t);
            assert(m1.contains_table(t));
            assert(m1.levels@.dom().contains(t));
        }
    }
    assert(m1.contains_table(m1.root));
    assert(m2.contains_table(m2.root));
    assert(m2.level_of(m2.root) == 4);
    assert forall|i: int, k: int|
        0 <= i < m2.tables@.len() && 0 <= k < 512 implies #[trigger] m2.link_of(i, k)
        != Some(a) && m2.link_of(i, k) != Some(m2.root) && (i < n ==> m2.link_of(i, k)
        == m1.link_of(i, k)) by {
        if i < n {
            assert(m2.tables@[i] == m1.tables@[i]);
            assert(m2.link_of(i, k) == m1.link_of(i, k));
            match m1.tables@[i].entries@[k] {
                PageTableEntry::Table { addr } => {
                    m1.lemma_index_unique(i, m1.tables@[i].addr);
                    assert(m1.entry_wf(m1.tables@[i].addr, k));
                    assert(m1.entries_at(m1.tables@[i].addr) == m1.tables@[i].entries@);
                    assert(m1.contains_table(addr));
                    assert(m1.link_of(i, k) != Some(m1.root));
                },
                _ => {},
            }
        } else {
            assert(m2.tables@[i].entries@[k] == PageTableEntry::Unused);
        }
    }
    assert(m2.links_unique()) by {
        assert forall|i1: int, k1: int, i2: int, k2: int|
            #![trigger m2.link_of(i1, k1), m2.link_of(i2, k2)]
            0 <= i1 < m2.tables@.len() && 0 <= k1 < 512 && 0 <= i2 < m2.tables@.len() && 0 <= k2
                < 512 && (i1 != i2 || k1 != k2) && m2.link_of(i1, k1) is Some implies m2.link_of(
            i1,
            k1,
        ) != m2.link_of(i2, k2) by {
            if i1 < n && i2 < n {
                assert(m1.link_of(i1, k1) is Some ==> m1.link_of(i1, k1) != m1.link_of(i2, k2));
            } else if i1 >= n {
                assert(m2.tables@[i1].entries@[k1] == PageTableEntry::Unused);
            } else {
                assert(m2.tables@[i2].entries@[k2] == PageTableEntry::Unused);
                assert(m2.link_of(i2, k2) is None);
            }
        }
    }
}

/// Binds the active level-4 table to the linear physical-memory offset the
/// table tree is reached through. The caller guarantees that the offset maps
/// all physical memory, that the given frame holds the active (initially
/// empty) top-level table, and that this is done once per address space.
pub fn init(physical_memory_offset: u64, level_4_table_addr: u64) -> (r: Mapper)
    requires
        level_4_table_addr % 4096 == 0,
    ensures
        r.wf(),
        r.phys_offset() == physical_memory_offset,
        r.root_addr() == level_4_table_addr,
        forall|a: u64| r.contains_table(a) <==> a == level_4_table_addr,
        forall|page: u64| r.mapping_of(page) is None,
        forall|page: u64| r.missing_tables(page) == 3,
{
    let mut r = Mapper {
        physical_memory_offset,
        root: level_4_table_addr,
        tables: Vec::new(),
        levels: Ghost(Map::empty()),
    };
    r.add_table(level_4_table_addr, Ghost(4));
    proof {
        r.lemma_index_unique(0, level_4_table_addr);
        assert forall|a: u64| r.contains_table(a) implies a == level_4_table_addr by {
            let i = choose|i: int| 0 <= i < r.tables@.len() && r.tables@[i].addr == a;
            assert(r.tables@[i].addr == a);
        }
        assert forall|i: int, k: int|
            0 <= i < r.tables@.len() && 0 <= k < 512 implies #[trigger] r.entry_wf(
            r.tables@[i].addr,
            k,
        ) by {
            assert(r.entries_at(level_4_table_addr) == r.tables@[0].entries@);
            assert(r.entries_at(r.tables@[i].addr)[k] == PageTableEntry::Unused);
        }
        assert forall|page: u64| r.mapping_of(page) is None by {
            assert(r.entries_at(level_4_table_addr)[page_index(page, 4)]
                == PageTableEntry::Unused);
        }
        assert forall|page: u64| r.missing_tables(page) == 3 by {
            assert(r.entries_at(level_4_table_addr)[page_index(page, 4)]
                == PageTableEntry::Unused);
        }
    }
    r
}

} // verus!
