//! The four-level page-table structure: a root table frame plus the set of
//! table frames it reaches, each holding 512 entries. Walking the levels
//! with the index slices of a virtual address yields the backing frame of a
//! page, a missing translation, or an (unsupported) huge terminal entry.
//!
//! On hardware the tables live in physical memory and are read through the
//! physical-memory offset; here they are held as values keyed by their
//! frame address, with that offset carried alongside, so that the walk and
//! its mutations can be reasoned about exactly.

use vstd::prelude::*;
use crate::addr::spec_table_index;
use crate::frames::PopFrameAllocator;

verus! {

/// One page-table entry: a frame pointer plus the permission flags the
/// kernel reads and writes.
#[derive(Clone, Copy, PartialEq, Eq, Structural, Debug)]
pub struct PageEntry {
    pub present: bool,
    pub writable: bool,
    pub huge: bool,
    pub frame: u64,
}

/// The empty (non-present) entry.
pub open spec fn absent_entry() -> PageEntry {
    PageEntry { present: false, writable: false, huge: false, frame: 0 }
}

/// A freshly allocated table: 512 non-present entries.
pub open spec fn empty_table() -> Seq<PageEntry> {
    Seq::new(512, |k: int| absent_entry())
}

/// One table of the hierarchy: the frame it occupies, its level (4 for the
/// root level down to 1), and its 512 entries.
pub struct TableSlot {
    pub frame: u64,
    pub level: u8,
    pub table: Vec<PageEntry>,
}

/// Outcome of resolving a virtual address against the hierarchy.
#[derive(Clone, Copy, PartialEq, Eq, Structural, Debug)]
pub enum Resolution {
    /// The walk reached a present terminal entry: the page's backing frame.
    Mapped { frame: u64 },
    /// Some entry along the walk was not present.
    NotMapped,
    /// A present entry with the huge-page flag was hit; unsupported here.
    HugeEntry,
}

/// The tables keyed by the frame they occupy.
pub open spec fn tables_of(s: Seq<TableSlot>) -> Map<u64, Seq<PageEntry>>
    decreases s.len(),
{
    if s.len() == 0 {
        Map::empty()
    } else {
        tables_of(s.drop_last()).insert(s.last().frame, s.last().table@)
    }
}

/// The level of each table, keyed by frame.
pub open spec fn levels_of(s: Seq<TableSlot>) -> Map<u64, int>
    decreases s.len(),
{
    if s.len() == 0 {
        Map::empty()
    } else {
        levels_of(s.drop_last()).insert(s.last().frame, s.last().level as int)
    }
}

/// Walks the hierarchy from table `f` at `level` down to the terminal
/// entry, following the index slices of `va`.
pub open spec fn spec_walk(m: Map<u64, Seq<PageEntry>>, f: u64, va: u64, level: int) -> Resolution
    decreases level,
{
    let e = m[f][spec_table_index(va, level)];
    if !e.present {
        Resolution::NotMapped
    } else if e.huge {
        Resolution::HugeEntry
    } else if level <= 1 {
        Resolution::Mapped { frame: e.frame }
    } else {
        spec_walk(m, e.frame, va, level - 1)
    }
}

/// Entry `(f, idx)` is a directory entry pointing at table `g`.
pub open spec fn points_to(
    m: Map<u64, Seq<PageEntry>>,
    lv: Map<u64, int>,
    f: u64,
    idx: int,
    g: u64,
) -> bool {
    &&& m.dom().contains(f)
    &&& lv[f] >= 2
    &&& 0 <= idx < 512
    &&& m[f][idx].present
    &&& !m[f][idx].huge
    &&& m[f][idx].frame == g
}

/// Well-formedness of a hierarchy rooted at `root`:
/// every table has 512 entries and a level between 1 and 4, the root is a
/// level-4 table, directory entries point at tables of the level below,
/// and no two directory entries point at the same table.
pub open spec fn wf_hierarchy(m: Map<u64, Seq<PageEntry>>, lv: Map<u64, int>, root: u64) -> bool {
    &&& lv.dom() =~= m.dom()
    &&& m.dom().contains(root)
    &&& lv[root] == 4
    &&& forall|f: u64| #[trigger] m.dom().contains(f) ==> m[f].len() == 512
    &&& forall|f: u64| #[trigger] m.dom().contains(f) ==> 1 <= lv[f] <= 4
    &&& forall|f: u64, idx: int|
        points_to(m, lv, f, idx, (#[trigger] m[f][idx]).frame) && m.dom().contains(f) ==> m.dom().contains(
            m[f][idx].frame,
        ) && lv[m[f][idx].frame] == lv[f] - 1
    &&& forall|f1: u64, i1: int, f2: u64, i2: int, g: u64|
        #[trigger] points_to(m, lv, f1, i1, g) && #[trigger] points_to(m, lv, f2, i2, g) ==> f1
            == f2 && i1 == i2
    &&& forall|f: u64, idx: int|
        m.dom().contains(f) && lv[f] == 1 && 0 <= idx < 512 && (#[trigger] m[f][idx]).present
            ==> m[f][idx].frame % 4096 == 0
}

/// Why a mapping request failed.
#[derive(Clone, Copy, PartialEq, Eq, Structural, Debug)]
pub enum MapToError {
    /// The frame allocator could not supply a frame for a missing
    /// intermediate table.
    FrameAllocationFailed,
    /// A directory entry on the way down carries the huge-page flag.
    ParentEntryHugePage,
    /// The terminal slot is already occupied.
    PageAlreadyMapped,
}

/// Outcome of a mapping request walked against the hierarchy, given how
/// many frames the allocator can still supply: directories are followed
/// while present, a huge directory entry fails, and each missing table
/// costs one frame.
pub open spec fn spec_map_step(
    m: Map<u64, Seq<PageEntry>>,
    f: u64,
    va: u64,
    level: int,
    avail: int,
) -> Result<(), MapToError>
    decreases level,
{
    let e = m[f][spec_table_index(va, level)];
    if level <= 1 {
        if e.present {
            Err(MapToError::PageAlreadyMapped)
        } else {
            Ok(())
        }
    } else if e.present && e.huge {
        Err(MapToError::ParentEntryHugePage)
    } else if e.present {
        spec_map_step(m, e.frame, va, level - 1, avail)
    } else if avail <= 0 {
        Err(MapToError::FrameAllocationFailed)
    } else {
        spec_map_missing(level - 1, avail - 1)
    }
}

/// Outcome once the walk has left the existing hierarchy: each remaining
/// level needs a fresh table, and the terminal slot is necessarily free.
pub open spec fn spec_map_missing(level: int, avail: int) -> Result<(), MapToError>
    decreases level,
{
    if level <= 1 {
        Ok(())
    } else if avail <= 0 {
        Err(MapToError::FrameAllocationFailed)
    } else {
        spec_map_missing(level - 1, avail - 1)
    }
}

/// `a` and `b` carry the same four table indices, so they land in the same
/// page of the hierarchy.
pub open spec fn same_page_indices(a: u64, b: u64) -> bool {
    &&& spec_table_index(a, 4) == spec_table_index(b, 4)
    &&& spec_table_index(a, 3) == spec_table_index(b, 3)
    &&& spec_table_index(a, 2) == spec_table_index(b, 2)
    &&& spec_table_index(a, 1) == spec_table_index(b, 1)
}

/// Below the 48-bit span the four index slices determine an address's page
/// exactly: two addresses share all four indices precisely when they lie
/// in the same page.
pub proof fn lemma_same_page_indices_iff(a: u64, b: u64)
    requires
        a < 0x1_0000_0000_0000,
        b < 0x1_0000_0000_0000,
    ensures
        same_page_indices(a, b) <==> crate::addr::spec_page_base(a) == crate::addr::spec_page_base(
            b,
        ),
{
    assert((((a / 0x1000) % 512 == (b / 0x1000) % 512 && (a / 0x20_0000) % 512 == (b / 0x20_0000)
        % 512 && (a / 0x4000_0000) % 512 == (b / 0x4000_0000) % 512 && (a / 0x80_0000_0000) % 512
        == (b / 0x80_0000_0000) % 512) <==> (a / 0x1000) * 0x1000 == (b / 0x1000) * 0x1000))
        by (bit_vector)
        requires
            a < 0x1_0000_0000_0000,
            b < 0x1_0000_0000_0000,
    ;
}

/// The page-table hierarchy as the mapper owns it.
pub struct PageTables {
    /// Frame of the level-4 (root) table; what the page-table root register
    /// holds.
    pub root: u64,
    /// The fixed virtual offset at which physical memory is mapped; on
    /// hardware every table is read at `frame + phys_offset`.
    pub phys_offset: u64,
    /// The tables of the hierarchy.
    pub slots: Vec<TableSlot>,
}

impl PageTables {
    /// The tables keyed by frame.
    pub open spec fn tables(&self) -> Map<u64, Seq<PageEntry>> {
        tables_of(self.slots@)
    }

    /// The level of each table.
    pub open spec fn levels(&self) -> Map<u64, int> {
        levels_of(self.slots@)
    }

    /// Structural soundness of the slot list: distinct frames, 512 entries
    /// each, and a well-formed hierarchy from the root.
    pub open spec fn wf(&self) -> bool {
        &&& forall|i: int, j: int|
            0 <= i < j < self.slots@.len() ==> (#[trigger] self.slots@[i]).frame != (
            #[trigger] self.slots@[j]).frame
        &&& forall|i: int|
            0 <= i < self.slots@.len() ==> (#[trigger] self.slots@[i]).table@.len() == 512
        &&& wf_hierarchy(self.tables(), self.levels(), self.root)
    }

    /// What resolving `va` yields.
    pub open spec fn spec_resolve(&self, va: u64) -> Resolution {
        spec_walk(self.tables(), self.root, va, 4)
    }
}

/// With distinct frames, the view maps each slot's frame to exactly that
/// slot's contents and level.
proof fn lemma_view_of_slots(s: Seq<TableSlot>)
    requires
        forall|i: int, j: int|
            0 <= i < j < s.len() ==> (#[trigger] s[i]).frame != (#[trigger] s[j]).frame,
    ensures
        forall|i: int|
            0 <= i < s.len() ==> tables_of(s).contains_key((#[trigger] s[i]).frame) && tables_of(
                s,
            )[s[i].frame] == s[i].table@ && levels_of(s)[s[i].frame] == s[i].level as int,
        forall|f: u64|
            #[trigger] tables_of(s).contains_key(f) ==> exists|i: int|
                0 <= i < s.len() && (#[trigger] s[i]).frame == f,
        tables_of(s).dom() =~= levels_of(s).dom(),
    decreases s.len(),
{
    if s.len() > 0 {
        let pre = s.drop_last();
        lemma_view_of_slots(pre);
        assert forall|i: int|
            0 <= i < s.len() implies tables_of(s).contains_key((#[trigger] s[i]).frame)
            && tables_of(s)[s[i].frame] == s[i].table@ && levels_of(s)[s[i].frame]
            == s[i].level as int by {
            if i < s.len() - 1 {
                assert(pre[i] == s[i]);
                assert(s[i].frame != s.last().frame);
            }
        }
        assert forall|f: u64| #[trigger] tables_of(s).contains_key(f) implies exists|i: int|
            0 <= i < s.len() && (#[trigger] s[i]).frame == f by {
            if f == s.last().frame {
                assert(s[s.len() - 1].frame == f);
            } else {
                let i = choose|i: int| 0 <= i < pre.len() && (#[trigger] pre[i]).frame == f;
                assert(s[i].frame == f);
            }
        }
    }
}

impl PageTables {
    /// Index of the slot holding the table at frame `f`, which must exist.
    fn slot_index(&self, f: u64) -> (i: usize)
        requires
            forall|i: int, j: int|
                0 <= i < j < self.slots@.len() ==> (#[trigger] self.slots@[i]).frame != (
                #[trigger] self.slots@[j]).frame,
            self.tables().contains_key(f),
        ensures
            i < self.slots@.len(),
            self.slots@[i as int].frame == f,
            self.slots@[i as int].table@ == self.tables()[f],
            self.slots@[i as int].level as int == self.levels()[f],
    {
        proof {
            lemma_view_of_slots(self.slots@);
        }
        let mut i: usize = 0;
        while i < self.slots.len()
            invariant
                i <= self.slots@.len(),
                forall|p: int, q: int|
                    0 <= p < q < self.slots@.len() ==> (#[trigger] self.slots@[p]).frame != (
                    #[trigger] self.slots@[q]).frame,
                forall|j: int| 0 <= j < i ==> (#[trigger] self.slots@[j]).frame != f,
                exists|j: int| 0 <= j < self.slots@.len() && (#[trigger] self.slots@[j]).frame == f,
            decreases self.slots@.len() - i,
        {
            if self.slots[i].frame == f {
                proof {
                    lemma_view_of_slots(self.slots@);
                }
                return i;
            }
            i = i + 1;
        }
        proof {
            assert(false);
        }
        0
    }

    /// Reads the walk of `va` off the hierarchy: the backing frame of the
    /// page, or why there is none.
    pub fn resolve_page(&self, va: u64) -> (r: Resolution)
        requires
            self.wf(),
        ensures
            r == self.spec_resolve(va),
    {
        let mut cur: u64 = self.root;
        let mut level: u8 = 4;
        loop
            invariant
                self.wf(),
                1 <= level <= 4,
                self.tables().contains_key(cur),
                self.levels()[cur] == level as int,
                self.spec_resolve(va) == spec_walk(self.tables(), cur, va, level as int),
            decreases level,
        {
            let si = self.slot_index(cur);
            let idx = table_index_for(va, level);
            let e = self.slots[si].table[idx];
            proof {
                assert(e == self.tables()[cur][spec_table_index(va, level as int)]);
            }
            if !e.present {
                return Resolution::NotMapped;
            }
            if e.huge {
                return Resolution::HugeEntry;
            }
            if level == 1 {
                return Resolution::Mapped { frame: e.frame };
            }
            proof {
                assert(points_to(
                    self.tables(),
                    self.levels(),
                    cur,
                    spec_table_index(va, level as int),
                    e.frame,
                ));
            }
            cur = e.frame;
            level = level - 1;
        }
    }

    /// Translates a virtual address: the backing frame's base plus the
    /// page offset, or `None` where the page is unmapped. A huge terminal
    /// entry is unsupported and is excluded by the caller's obligation.
    pub fn translate_addr(&self, addr: u64) -> (r: Option<u64>)
        requires
            self.wf(),
            !(self.spec_resolve(addr) is HugeEntry),
        ensures
            r == match self.spec_resolve(addr) {
                Resolution::Mapped { frame } => Some(
                    (frame + crate::addr::spec_page_offset(addr)) as u64,
                ),
                _ => None::<u64>,
            },
    {
        match self.resolve_page(addr) {
            Resolution::Mapped { frame } => {
                proof {
                    lemma_terminal_frame_aligned(self, addr, frame);
                    assert(frame % 4096 == 0 ==> frame + 4095 <= u64::MAX) by (bit_vector);
                }
                Some(frame + crate::addr::page_offset(addr))
            },
            _ => None,
        }
    }
}

/// The view after appending a slot maps its frame to its table.
proof fn lemma_view_of_push(s: Seq<TableSlot>, x: TableSlot)
    ensures
        tables_of(s.push(x)) == tables_of(s).insert(x.frame, x.table@),
        levels_of(s.push(x)) == levels_of(s).insert(x.frame, x.level as int),
{
    assert(s.push(x).drop_last() =~= s);
    assert(s.push(x).last() == x);
}

/// Replacing a slot (keeping its frame) updates exactly its key in the view.
proof fn lemma_view_of_update(s: Seq<TableSlot>, i: int, x: TableSlot)
    requires
        0 <= i < s.len(),
        forall|p: int, q: int|
            0 <= p < q < s.len() ==> (#[trigger] s[p]).frame != (#[trigger] s[q]).frame,
        x.frame == s[i].frame,
    ensures
        tables_of(s.update(i, x)) =~= tables_of(s).insert(x.frame, x.table@),
        levels_of(s.update(i, x)) =~= levels_of(s).insert(x.frame, x.level as int),
    decreases s.len(),
{
    let pre = s.drop_last();
    if i == s.len() - 1 {
        assert(s.update(i, x).drop_last() =~= pre);
        assert(s.update(i, x).last() == x);
        assert(tables_of(s.update(i, x)) == tables_of(pre).insert(x.frame, x.table@));
        assert(tables_of(s).insert(x.frame, x.table@) =~= tables_of(pre).insert(
            x.frame,
            x.table@,
        ));
        assert(levels_of(s).insert(x.frame, x.level as int) =~= levels_of(pre).insert(
            x.frame,
            x.level as int,
        ));
    } else {
        assert(s.update(i, x).drop_last() =~= pre.update(i, x));
        assert(s.update(i, x).last() == s.last());
        assert forall|p: int, q: int|
            0 <= p < q < pre.len() implies (#[trigger] pre[p]).frame != (
        #[trigger] pre[q]).frame by {
            assert(pre[p] == s[p] && pre[q] == s[q]);
        }
        assert(pre[i] == s[i]);
        lemma_view_of_update(pre, i, x);
        assert(x.frame != s.last().frame);
    }
}

/// The hierarchy after attaching a fresh empty table `nf` under the free
/// directory slot `(dir, idx)`.
pub open spec fn attach_tables(
    m: Map<u64, Seq<PageEntry>>,
    dir: u64,
    idx: int,
    nf: u64,
    e: PageEntry,
) -> Map<u64, Seq<PageEntry>> {
    m.insert(nf, empty_table()).insert(dir, m[dir].update(idx, e))
}

/// The levels after the same attachment.
pub open spec fn attach_levels(lv: Map<u64, int>, dir: u64, nf: u64) -> Map<u64, int> {
    lv.insert(nf, lv[dir] - 1)
}

/// Attaching a fresh empty table under a free directory slot keeps the
/// hierarchy well-formed.
proof fn lemma_attach_preserves_wf(
    m: Map<u64, Seq<PageEntry>>,
    lv: Map<u64, int>,
    root: u64,
    dir: u64,
    idx: int,
    nf: u64,
    e: PageEntry,
)
    requires
        wf_hierarchy(m, lv, root),
        m.dom().contains(dir),
        lv[dir] >= 2,
        0 <= idx < 512,
        !m[dir][idx].present,
        !m.dom().contains(nf),
        e.present,
        !e.huge,
        e.frame == nf,
    ensures
        wf_hierarchy(attach_tables(m, dir, idx, nf, e), attach_levels(lv, dir, nf), root),
{
    let m2 = attach_tables(m, dir, idx, nf, e);
    let lv2 = attach_levels(lv, dir, nf);
    assert(lv2.dom() =~= m2.dom());
    assert(empty_table().len() == 512);
    // Any directory pointer of the new hierarchy is either the new one to
    // `nf` or an old pointer to an old table.
    assert forall|f: u64, i: int, g: u64| points_to(m2, lv2, f, i, g) implies ((f == dir && i == idx
        && g == nf) || (points_to(m, lv, f, i, g) && g != nf)) by {
        if f == nf {
            assert(!m2[nf][i].present);
        } else if f == dir && i == idx {
        } else {
            assert(m2[f][i] == m[f][i]);
            assert(points_to(m, lv, f, i, g));
            assert(m.dom().contains(m[f][i].frame));
        }
    }
    assert forall|f: u64, i: int|
        points_to(m2, lv2, f, i, (#[trigger] m2[f][i]).frame) && m2.dom().contains(
            f,
        ) implies m2.dom().contains(m2[f][i].frame) && lv2[m2[f][i].frame] == lv2[f] - 1 by {
        let g = m2[f][i].frame;
        if f == dir && i == idx && g == nf {
        } else {
            assert(points_to(m, lv, f, i, g) && g != nf);
            assert(m[f][i] == m2[f][i]);
            assert(m.dom().contains(g));
        }
    }
    assert forall|f1: u64, i1: int, f2: u64, i2: int, g: u64|
        #[trigger] points_to(m2, lv2, f1, i1, g) && #[trigger] points_to(
            m2,
            lv2,
            f2,
            i2,
            g,
        ) implies f1 == f2 && i1 == i2 by {
        if f1 == dir && i1 == idx && g == nf {
            if !(f2 == dir && i2 == idx) {
                assert(points_to(m, lv, f2, i2, g) && g != nf);
            }
        } else {
            assert(points_to(m, lv, f1, i1, g) && g != nf);
            assert(points_to(m, lv, f2, i2, g));
        }
    }
    assert forall|f: u64, i: int|
        m2.dom().contains(f) && lv2[f] == 1 && 0 <= i < 512 && (
        #[trigger] m2[f][i]).present implies m2[f][i].frame % 4096 == 0 by {
        if f == nf {
            assert(!m2[nf][i].present);
        } else if f == dir {
            assert(lv[dir] >= 2);
        } else {
            assert(m2[f][i] == m[f][i]);
        }
    }
}

/// Attaching a fresh empty table does not change what any address
/// resolves to: the new table is reached only through the new entry and
/// holds no present entry.
proof fn lemma_attach_preserves_walk(
    m: Map<u64, Seq<PageEntry>>,
    lv: Map<u64, int>,
    root: u64,
    dir: u64,
    idx: int,
    nf: u64,
    e: PageEntry,
    f: u64,
    va: u64,
    level: int,
)
    requires
        wf_hierarchy(m, lv, root),
        m.dom().contains(dir),
        lv[dir] >= 2,
        0 <= idx < 512,
        !m[dir][idx].present,
        !m.dom().contains(nf),
        e.present,
        !e.huge,
        e.frame == nf,
        m.dom().contains(f),
        lv[f] == level,
        1 <= level <= 4,
    ensures
        spec_walk(attach_tables(m, dir, idx, nf, e), f, va, level) == spec_walk(m, f, va, level),
        spec_terminal_entry(attach_tables(m, dir, idx, nf, e), f, va, level)
            == spec_terminal_entry(m, f, va, level),
    decreases level,
{
    let m2 = attach_tables(m, dir, idx, nf, e);
    let i = spec_table_index(va, level);
    let e_old = m[f][i];
    if f == dir && i == idx {
        assert(m[dir].len() == 512);
        assert(m2[f] == m[dir].update(idx, e));
        assert(m2[f][i] == e);
        assert(m2[nf] == empty_table());
        assert(0 <= spec_table_index(va, level - 1) < 512);
        assert(!m2[nf][spec_table_index(va, level - 1)].present);
        assert(spec_walk(m2, nf, va, level - 1) == Resolution::NotMapped);
        assert(spec_walk(m2, f, va, level) == Resolution::NotMapped);
        assert(spec_walk(m, f, va, level) == Resolution::NotMapped);
        // the walk now continues into the empty table, whose terminal
        // entry is as absent as the missing one was
        assert(spec_terminal_entry(m, f, va, level) == absent_entry());
        if level - 1 <= 1 {
            assert(spec_terminal_entry(m2, nf, va, level - 1) == absent_entry());
        } else {
            assert(spec_terminal_entry(m2, nf, va, level - 1) == absent_entry());
        }
        assert(spec_terminal_entry(m2, f, va, level) == absent_entry());
    } else {
        if f == dir {
            assert(m2[f][i] == m[dir].update(idx, e)[i]);
            assert(m2[f][i] == e_old);
        } else {
            assert(m2[f][i] == e_old);
        }
        if e_old.present && !e_old.huge && level > 1 {
            assert(points_to(m, lv, f, i, e_old.frame));
            lemma_attach_preserves_walk(m, lv, root, dir, idx, nf, e, e_old.frame, va, level - 1);
        }
    }
}

/// The index slice of `va` for table level `level`.
fn table_index_for(va: u64, level: u8) -> (r: usize)
    requires
        1 <= level <= 4,
    ensures
        r == spec_table_index(va, level as int),
        r < 512,
{
    if level == 4 {
        crate::addr::p4_index(va)
    } else if level == 3 {
        crate::addr::p3_index(va)
    } else if level == 2 {
        crate::addr::p2_index(va)
    } else {
        crate::addr::p1_index(va)
    }
}

/// Every frame the allocator has yet to issue is unknown to the hierarchy:
/// the system invariant that makes allocated frames safe to use as fresh
/// tables.
pub open spec fn allocator_fresh(pt: &PageTables, fa: &PopFrameAllocator) -> bool {
    forall|k: int|
        fa.issued() <= k < crate::frames::usable_frames(fa.regions_view()).len()
            ==> !pt.tables().dom().contains(
            #[trigger] crate::frames::usable_frames(fa.regions_view())[k],
        )
}

impl PageTables {
    /// A hierarchy holding one empty root table at frame `root`, read on
    /// hardware at `root + phys_offset`: nothing is mapped yet.
    pub fn new(root: u64, phys_offset: u64) -> (r: Self)
        ensures
            r.wf(),
            r.root == root,
            r.phys_offset == phys_offset,
            r.tables().dom() =~= set![root],
            forall|va: u64| r.spec_resolve(va) == Resolution::NotMapped,
    {
        let table: Vec<PageEntry> = new_empty_table();
        let mut slots: Vec<TableSlot> = Vec::new();
        slots.push(TableSlot { frame: root, level: 4, table });
        let r = PageTables { root, phys_offset, slots };
        proof {
            assert(r.slots@.drop_last() =~= Seq::<TableSlot>::empty());
            assert(tables_of(Seq::<TableSlot>::empty()) == Map::<u64, Seq<PageEntry>>::empty());
            assert(levels_of(Seq::<TableSlot>::empty()) == Map::<u64, int>::empty());
            assert(r.slots@.last().table@ == empty_table());
            assert(r.tables() =~= Map::<u64, Seq<PageEntry>>::empty().insert(root, empty_table()));
            assert(r.levels() =~= Map::<u64, int>::empty().insert(root, 4));
            assert forall|va: u64| r.spec_resolve(va) == Resolution::NotMapped by {
                assert(0 <= spec_table_index(va, 4) < 512);
                assert(!r.tables()[root][spec_table_index(va, 4)].present);
            }
        }
        r
    }

    /// Follows the directory entry of `va` in the level-`level` table at
    /// `dir`, allocating and attaching a fresh empty table if the entry is
    /// free. What any address resolves to is unchanged.
    fn ensure_next_table(&mut self, dir: u64, va: u64, level: u8, fa: &mut PopFrameAllocator) -> (r:
        Result<u64, MapToError>)
        requires
            old(self).wf(),
            old(self).tables().contains_key(dir),
            old(self).levels()[dir] == level as int,
            2 <= level <= 4,
            allocator_fresh(old(self), old(fa)),
            crate::frames::wf_memory_map(old(fa).regions_view()),
            old(fa).issued() < usize::MAX,
        ensures
            final(self).wf(),
            final(self).root == old(self).root,
            final(self).phys_offset == old(self).phys_offset,
            final(fa).regions_view() == old(fa).regions_view(),
            old(fa).issued() <= final(fa).issued() <= old(fa).issued() + 1,
            allocator_fresh(final(self), final(fa)),
            forall|va2: u64| final(self).spec_resolve(va2) == old(self).spec_resolve(va2),
            forall|va2: u64|
                spec_terminal_entry(final(self).tables(), final(self).root, va2, 4)
                    == spec_terminal_entry(old(self).tables(), old(self).root, va2, 4),
            forall|g: u64|
                old(self).tables().contains_key(g) ==> final(self).tables().contains_key(g)
                    && final(self).levels()[g] == old(self).levels()[g] && (g != dir
                    ==> final(self).tables()[g] == old(self).tables()[g]),
            ({
                let e_old = old(self).tables()[dir][spec_table_index(va, level as int)];
                match r {
                    Ok(g) => {
                        &&& final(self).tables().contains_key(g)
                        &&& final(self).levels()[g] == level - 1
                        &&& final(self).tables()[dir][spec_table_index(va, level as int)].present
                        &&& !final(self).tables()[dir][spec_table_index(va, level as int)].huge
                        &&& final(self).tables()[dir][spec_table_index(va, level as int)].frame
                            == g
                        &&& if e_old.present {
                            &&& !e_old.huge
                            &&& g == e_old.frame
                            &&& final(self).tables() == old(self).tables()
                            &&& final(self).levels() == old(self).levels()
                            &&& final(fa).issued() == old(fa).issued()
                        } else {
                            &&& final(fa).issued() == old(fa).issued() + 1
                            &&& old(fa).spec_next_frame() == Some(g)
                            &&& !old(self).tables().contains_key(g)
                            &&& final(self).tables()[g] == empty_table()
                        }
                    },
                    Err(MapToError::ParentEntryHugePage) => {
                        &&& e_old.present
                        &&& e_old.huge
                        &&& final(self).tables() == old(self).tables()
                        &&& final(self).levels() == old(self).levels()
                        &&& final(fa).issued() == old(fa).issued()
                    },
                    Err(MapToError::FrameAllocationFailed) => {
                        &&& !e_old.present
                        &&& old(fa).spec_next_frame() is None
                        &&& final(self).tables() == old(self).tables()
                        &&& final(self).levels() == old(self).levels()
                        &&& final(fa).issued() == old(fa).issued() + 1
                    },
                    Err(MapToError::PageAlreadyMapped) => false,
                }
            }),
    {
        let ghost m0 = self.tables();
        let ghost lv0 = self.levels();
        let ghost root0 = self.root;
        let si = self.slot_index(dir);
        let idx = table_index_for(va, level);
        let e = self.slots[si].table[idx];
        proof {
            assert(e == m0[dir][spec_table_index(va, level as int)]);
        }
        if e.present {
            if e.huge {
                return Err(MapToError::ParentEntryHugePage);
            }
            proof {
                assert(points_to(m0, lv0, dir, idx as int, e.frame));
            }
            return Ok(e.frame);
        }
        match fa.allocate_frame() {
            None => Err(MapToError::FrameAllocationFailed),
            Some(nf) => {
                proof {
                    assert(crate::frames::usable_frames(fa.regions_view())[old(fa).issued()]
                        == nf);
                    assert(!m0.dom().contains(nf));
                }
                let entry = PageEntry { present: true, writable: true, huge: false, frame: nf };
                let table: Vec<PageEntry> = new_empty_table();
                let ghost slot = TableSlot { frame: nf, level: (level - 1) as u8, table };
                self.slots.push(TableSlot { frame: nf, level: level - 1, table });
                let ghost pushed = self.slots@;
                proof {
                    lemma_view_of_slots(old(self).slots@);
                    lemma_view_of_push(old(self).slots@, slot);
                    assert(table@ =~= empty_table());
                    assert forall|p: int, q: int|
                        0 <= p < q < pushed.len() implies (#[trigger] pushed[p]).frame != (
                    #[trigger] pushed[q]).frame by {
                        if q == pushed.len() - 1 {
                            assert(m0.contains_key(pushed[p].frame));
                        }
                    }
                }
                self.slots[si].table[idx] = entry;
                proof {
                    assert(self.slots@ == pushed.update(
                        si as int,
                        self.slots@[si as int],
                    ));
                    assert(self.slots@[si as int].frame == dir);
                    assert(self.slots@[si as int].table@ == pushed[si as int].table@.update(
                        idx as int,
                        entry,
                    ));
                    lemma_view_of_update(pushed, si as int, self.slots@[si as int]);
                    assert(pushed[si as int].table@ == m0[dir]);
                    assert(self.tables() =~= attach_tables(m0, dir, idx as int, nf, entry));
                    assert(self.levels() =~= attach_levels(lv0, dir, nf));
                    lemma_attach_preserves_wf(m0, lv0, root0, dir, idx as int, nf, entry);
                    assert forall|va2: u64|
                        self.spec_resolve(va2) == old(self).spec_resolve(va2) by {
                        lemma_attach_preserves_walk(
                            m0,
                            lv0,
                            root0,
                            dir,
                            idx as int,
                            nf,
                            entry,
                            root0,
                            va2,
                            4,
                        );
                    }
                    assert forall|va2: u64|
                        spec_terminal_entry(self.tables(), self.root, va2, 4)
                            == spec_terminal_entry(m0, root0, va2, 4) by {
                        lemma_attach_preserves_walk(
                            m0,
                            lv0,
                            root0,
                            dir,
                            idx as int,
                            nf,
                            entry,
                            root0,
                            va2,
                            4,
                        );
                    }
                    assert forall|p: int, q: int|
                        0 <= p < q < self.slots@.len() implies (#[trigger] self.slots@[p]).frame
                        != (#[trigger] self.slots@[q]).frame by {
                        assert(self.slots@[p].frame == pushed[p].frame);
                        assert(self.slots@[q].frame == pushed[q].frame);
                    }
                    crate::frames::lemma_usable_frames_distinct(fa.regions_view());
                }
                Ok(nf)
            },
        }
    }
}

/// What a terminal entry makes of the page.
pub open spec fn terminal_outcome(e: PageEntry) -> Resolution {
    if !e.present {
        Resolution::NotMapped
    } else if e.huge {
        Resolution::HugeEntry
    } else {
        Resolution::Mapped { frame: e.frame }
    }
}

/// The level-1 entry the walk of `va` ends at, or the empty entry where
/// the walk breaks off earlier.
pub open spec fn spec_terminal_entry(
    m: Map<u64, Seq<PageEntry>>,
    f: u64,
    va: u64,
    level: int,
) -> PageEntry
    decreases level,
{
    let e = m[f][spec_table_index(va, level)];
    if level <= 1 {
        e
    } else if e.present && !e.huge {
        spec_terminal_entry(m, e.frame, va, level - 1)
    } else {
        absent_entry()
    }
}

/// Writing a level-1 entry cannot break the hierarchy: directories are
/// untouched, and an aligned present entry keeps terminal alignment.
proof fn lemma_terminal_write_wf(
    m: Map<u64, Seq<PageEntry>>,
    lv: Map<u64, int>,
    root: u64,
    f1: u64,
    widx: int,
    e: PageEntry,
)
    requires
        wf_hierarchy(m, lv, root),
        m.dom().contains(f1),
        lv[f1] == 1,
        0 <= widx < 512,
        e.present ==> e.frame % 4096 == 0,
    ensures
        wf_hierarchy(m.insert(f1, m[f1].update(widx, e)), lv, root),
{
    let m2 = m.insert(f1, m[f1].update(widx, e));
    assert(lv.dom() =~= m2.dom());
    assert forall|f: u64, i: int, g: u64| points_to(m2, lv, f, i, g) implies points_to(
        m,
        lv,
        f,
        i,
        g,
    ) by {
        assert(f != f1);
        assert(m2[f] == m[f]);
    }
    assert forall|f: u64, i: int, g: u64| points_to(m, lv, f, i, g) implies points_to(
        m2,
        lv,
        f,
        i,
        g,
    ) by {
        assert(f != f1);
        assert(m2[f] == m[f]);
    }
    assert forall|f: u64, i: int|
        points_to(m2, lv, f, i, (#[trigger] m2[f][i]).frame) && m2.dom().contains(
            f,
        ) implies m2.dom().contains(m2[f][i].frame) && lv[m2[f][i].frame] == lv[f] - 1 by {
        assert(f != f1);
        assert(m2[f][i] == m[f][i]);
        assert(points_to(m, lv, f, i, m[f][i].frame));
    }
}

/// Writing the level-1 entry `(f1, widx)` changes the walk of exactly the
/// addresses whose four index slices select that slot; every other
/// address resolves as before. The path of pointing entries to `f1` and
/// the injectivity of directory pointers pin those addresses down.
proof fn lemma_terminal_write_walk(
    m: Map<u64, Seq<PageEntry>>,
    lv: Map<u64, int>,
    root: u64,
    va: u64,
    f3: u64,
    f2: u64,
    f1: u64,
    e: PageEntry,
    va2: u64,
)
    requires
        wf_hierarchy(m, lv, root),
        points_to(m, lv, root, spec_table_index(va, 4), f3),
        points_to(m, lv, f3, spec_table_index(va, 3), f2),
        points_to(m, lv, f2, spec_table_index(va, 2), f1),
        lv[f1] == 1,
    ensures
        same_page_indices(va, va2) ==> spec_walk(
            m.insert(f1, m[f1].update(spec_table_index(va, 1), e)),
            root,
            va2,
            4,
        ) == terminal_outcome(e) && spec_terminal_entry(
            m.insert(f1, m[f1].update(spec_table_index(va, 1), e)),
            root,
            va2,
            4,
        ) == e,
        !same_page_indices(va, va2) ==> spec_walk(
            m.insert(f1, m[f1].update(spec_table_index(va, 1), e)),
            root,
            va2,
            4,
        ) == spec_walk(m, root, va2, 4),
        !same_page_indices(va, va2) ==> spec_terminal_entry(
            m.insert(f1, m[f1].update(spec_table_index(va, 1), e)),
            root,
            va2,
            4,
        ) == spec_terminal_entry(m, root, va2, 4),
{
    let i4 = spec_table_index(va, 4);
    let i3 = spec_table_index(va, 3);
    let i2 = spec_table_index(va, 2);
    let widx = spec_table_index(va, 1);
    let m2 = m.insert(f1, m[f1].update(widx, e));
    let j4 = spec_table_index(va2, 4);
    let j3 = spec_table_index(va2, 3);
    let j2 = spec_table_index(va2, 2);
    let j1 = spec_table_index(va2, 1);
    assert(root != f1 && f3 != f1 && f2 != f1);
    assert(m2[root] == m[root]);
    assert(0 <= j4 < 512 && 0 <= j3 < 512 && 0 <= j2 < 512 && 0 <= j1 < 512);
    let a = m[root][j4];
    if !a.present || a.huge {
        assert(spec_walk(m2, root, va2, 4) == spec_walk(m, root, va2, 4));
        assert(spec_terminal_entry(m2, root, va2, 4) == spec_terminal_entry(m, root, va2, 4));
        assert(!same_page_indices(va, va2));
    } else {
        let g3 = a.frame;
        assert(points_to(m, lv, root, j4, g3));
        assert(m.dom().contains(g3) && lv[g3] == 3);
        assert(m2[g3] == m[g3]);
        assert(spec_walk(m2, root, va2, 4) == spec_walk(m2, g3, va2, 3));
        assert(spec_walk(m, root, va2, 4) == spec_walk(m, g3, va2, 3));
        assert(spec_terminal_entry(m2, root, va2, 4) == spec_terminal_entry(m2, g3, va2, 3));
        assert(spec_terminal_entry(m, root, va2, 4) == spec_terminal_entry(m, g3, va2, 3));
        let b = m[g3][j3];
        if !b.present || b.huge {
            assert(!same_page_indices(va, va2)) by {
                if same_page_indices(va, va2) {
                    assert(g3 == f3);
                }
            }
        } else {
            let g2 = b.frame;
            assert(points_to(m, lv, g3, j3, g2));
            assert(m.dom().contains(g2) && lv[g2] == 2);
            assert(m2[g2] == m[g2]);
            assert(spec_walk(m2, g3, va2, 3) == spec_walk(m2, g2, va2, 2));
            assert(spec_walk(m, g3, va2, 3) == spec_walk(m, g2, va2, 2));
            assert(spec_terminal_entry(m2, g3, va2, 3) == spec_terminal_entry(m2, g2, va2, 2));
            assert(spec_terminal_entry(m, g3, va2, 3) == spec_terminal_entry(m, g2, va2, 2));
            let c = m[g2][j2];
            if !c.present || c.huge {
                assert(!same_page_indices(va, va2)) by {
                    if same_page_indices(va, va2) {
                        assert(g3 == f3 && g2 == f2);
                    }
                }
            } else {
                let g1 = c.frame;
                assert(points_to(m, lv, g2, j2, g1));
                assert(m.dom().contains(g1) && lv[g1] == 1);
                assert(spec_walk(m2, g2, va2, 2) == spec_walk(m2, g1, va2, 1));
                assert(spec_walk(m, g2, va2, 2) == spec_walk(m, g1, va2, 1));
                assert(spec_terminal_entry(m2, g2, va2, 2) == spec_terminal_entry(m2, g1, va2, 1));
                assert(spec_terminal_entry(m, g2, va2, 2) == spec_terminal_entry(m, g1, va2, 1));
                if g1 == f1 && j1 == widx {
                    // The walk of `va2` selects the written slot, so its
                    // directory pointers coincide with those of `va`.
                    assert(points_to(m, lv, f2, i2, f1));
                    assert(g2 == f2 && j2 == i2);
                    assert(points_to(m, lv, f3, i3, f2));
                    assert(g3 == f3 && j3 == i3);
                    assert(points_to(m, lv, root, i4, f3));
                    assert(j4 == i4);
                    assert(same_page_indices(va, va2));
                    assert(m2[f1][j1] == e);
                    assert(spec_walk(m2, g1, va2, 1) == terminal_outcome(e));
                    assert(spec_terminal_entry(m2, root, va2, 4) == spec_terminal_entry(
                        m2,
                        g3,
                        va2,
                        3,
                    ));
                    assert(spec_terminal_entry(m2, g3, va2, 3) == spec_terminal_entry(
                        m2,
                        g2,
                        va2,
                        2,
                    ));
                    assert(spec_terminal_entry(m2, g2, va2, 2) == spec_terminal_entry(
                        m2,
                        g1,
                        va2,
                        1,
                    ));
                    assert(spec_terminal_entry(m2, g1, va2, 1) == e);
                } else {
                    if g1 == f1 {
                        assert(m2[f1][j1] == m[f1][j1]);
                    } else {
                        assert(m2[g1] == m[g1]);
                    }
                    assert(spec_walk(m2, g1, va2, 1) == spec_walk(m, g1, va2, 1));
                    assert(spec_terminal_entry(m2, g1, va2, 1) == spec_terminal_entry(
                        m,
                        g1,
                        va2,
                        1,
                    ));
                    assert(!same_page_indices(va, va2)) by {
                        if same_page_indices(va, va2) {
                            assert(g3 == f3 && g2 == f2 && g1 == f1);
                        }
                    }
                }
            }
        }
    }
}

impl PageTables {
    /// Maps the page of `page` to the frame `frame`, walking the hierarchy
    /// from the root and allocating missing intermediate tables from `fa`.
    /// Fails with `FrameAllocationFailed` when the allocator is exhausted,
    /// `ParentEntryHugePage` on a huge directory entry, and
    /// `PageAlreadyMapped` when the terminal slot is occupied, exactly as
    /// `spec_map_step` walks it; on failure nothing resolves differently,
    /// and on success exactly the addresses of the page resolve to `frame`.
    pub fn map_to(&mut self, page: u64, frame: u64, writable: bool, fa: &mut PopFrameAllocator) -> (
        r: Result<(), MapToError>)
        requires
            old(self).wf(),
            allocator_fresh(old(self), old(fa)),
            crate::frames::wf_memory_map(old(fa).regions_view()),
            old(fa).issued() + 3 <= usize::MAX,
            frame % 4096 == 0,
        ensures
            final(self).wf(),
            final(self).root == old(self).root,
            final(self).phys_offset == old(self).phys_offset,
            final(fa).regions_view() == old(fa).regions_view(),
            old(fa).issued() <= final(fa).issued() <= old(fa).issued() + 3,
            r is Ok ==> (final(fa).issued() == old(fa).issued() || final(fa).issued()
                <= crate::frames::usable_frames(old(fa).regions_view()).len()),
            allocator_fresh(final(self), final(fa)),
            r == spec_map_step(
                old(self).tables(),
                old(self).root,
                page,
                4,
                crate::frames::usable_frames(old(fa).regions_view()).len() - old(fa).issued(),
            ),
            r is Ok ==> forall|va2: u64|
                same_page_indices(page, va2) ==> final(self).spec_resolve(va2) == (
                Resolution::Mapped { frame }),
            r is Ok ==> forall|va2: u64|
                same_page_indices(page, va2) ==> spec_terminal_entry(
                    final(self).tables(),
                    final(self).root,
                    va2,
                    4,
                ) == (PageEntry { present: true, writable, huge: false, frame }),
            forall|va2: u64|
                !same_page_indices(page, va2) ==> final(self).spec_resolve(va2) == old(
                    self,
                ).spec_resolve(va2),
            forall|va2: u64|
                !same_page_indices(page, va2) ==> spec_terminal_entry(
                    final(self).tables(),
                    final(self).root,
                    va2,
                    4,
                ) == spec_terminal_entry(old(self).tables(), old(self).root, va2, 4),
            r is Err ==> forall|va2: u64|
                final(self).spec_resolve(va2) == old(self).spec_resolve(va2)
                    && spec_terminal_entry(final(self).tables(), final(self).root, va2, 4)
                    == spec_terminal_entry(old(self).tables(), old(self).root, va2, 4),
    {
        let ghost m0 = self.tables();
        let ghost lv0 = self.levels();
        let ghost i0 = fa.issued();
        let ghost total = crate::frames::usable_frames(fa.regions_view()).len() as int;
        let ghost avail0 = total - i0;
        let root = self.root;
        let ghost idx4 = spec_table_index(page, 4);
        let ghost idx3 = spec_table_index(page, 3);
        let ghost idx2 = spec_table_index(page, 2);

        let f3 = match self.ensure_next_table(root, page, 4, fa) {
            Err(err) => {
                proof {
                    if err is FrameAllocationFailed {
                        assert(avail0 <= 0);
                    }
                    assert(Err::<(), MapToError>(err) == spec_map_step(m0, root, page, 4, avail0));
                }
                return Err(err);
            },
            Ok(g) => g,
        };
        let ghost st1 = *self;
        let ghost i1v = fa.issued();
        let ghost fresh3 = !m0[root][idx4].present;
        proof {
            if fresh3 {
                assert(avail0 >= 1);
                assert(spec_map_step(m0, root, page, 4, avail0) == spec_map_missing(
                    3,
                    avail0 - 1,
                ));
                assert(fa.issued() == i0 + 1);
            } else {
                assert(st1.tables() == m0 && st1.levels() == lv0);
                assert(spec_map_step(m0, root, page, 4, avail0) == spec_map_step(
                    m0,
                    f3,
                    page,
                    3,
                    avail0,
                ));
                assert(fa.issued() == i0);
            }
        }

        let f2 = match self.ensure_next_table(f3, page, 3, fa) {
            Err(err) => {
                proof {
                    if fresh3 {
                        assert(st1.tables()[f3] == empty_table());
                        assert(!st1.tables()[f3][idx3].present);
                        assert(err is FrameAllocationFailed);
                        assert(i1v >= total);
                        assert(spec_map_missing(3, avail0 - 1) == Err::<(), MapToError>(
                            MapToError::FrameAllocationFailed,
                        ));
                    } else {
                        if err is FrameAllocationFailed {
                            assert(avail0 <= 0);
                        }
                        assert(spec_map_step(m0, f3, page, 3, avail0) == Err::<(), MapToError>(
                            err,
                        ));
                    }
                    assert forall|va2: u64|
                        self.spec_resolve(va2) == old(self).spec_resolve(va2)
                            && spec_terminal_entry(self.tables(), self.root, va2, 4)
                            == spec_terminal_entry(old(self).tables(), old(self).root, va2, 4) by {
                        assert(self.spec_resolve(va2) == st1.spec_resolve(va2));
                        assert(spec_terminal_entry(self.tables(), self.root, va2, 4)
                            == spec_terminal_entry(st1.tables(), st1.root, va2, 4));
                    }
                }
                return Err(err);
            },
            Ok(g) => g,
        };
        let ghost st2 = *self;
        let ghost i2v = fa.issued();
        let ghost fresh2 = fresh3 || !m0[f3][idx3].present;
        proof {
            if fresh3 {
                assert(!st1.tables()[f3][idx3].present);
                assert(fa.issued() == i0 + 2);
                assert(spec_map_missing(3, avail0 - 1) == spec_map_missing(2, avail0 - 2));
                assert(st2.tables()[f2] == empty_table());
            } else if !m0[f3][idx3].present {
                assert(fa.issued() == i0 + 1);
                assert(avail0 >= 1);
                assert(spec_map_step(m0, f3, page, 3, avail0) == spec_map_missing(2, avail0 - 1));
                assert(st2.tables()[f2] == empty_table());
            } else {
                assert(st2.tables() == m0 && st2.levels() == lv0);
                assert(fa.issued() == i0);
                assert(spec_map_step(m0, f3, page, 3, avail0) == spec_map_step(
                    m0,
                    f2,
                    page,
                    2,
                    avail0,
                ));
            }
            assert(fresh2 ==> spec_map_step(m0, root, page, 4, avail0) == spec_map_missing(
                2,
                total - i2v,
            ));
        }

        let f1 = match self.ensure_next_table(f2, page, 2, fa) {
            Err(err) => {
                proof {
                    if fresh2 {
                        assert(!st2.tables()[f2][idx2].present);
                        assert(err is FrameAllocationFailed);
                        assert(i2v >= total);
                        assert(spec_map_missing(2, total - i2v) == Err::<(), MapToError>(
                            MapToError::FrameAllocationFailed,
                        ));
                    } else {
                        if err is FrameAllocationFailed {
                            assert(avail0 <= 0);
                        }
                        assert(spec_map_step(m0, f2, page, 2, avail0) == Err::<(), MapToError>(
                            err,
                        ));
                    }
                    assert forall|va2: u64|
                        self.spec_resolve(va2) == old(self).spec_resolve(va2)
                            && spec_terminal_entry(self.tables(), self.root, va2, 4)
                            == spec_terminal_entry(old(self).tables(), old(self).root, va2, 4) by {
                        assert(self.spec_resolve(va2) == st2.spec_resolve(va2));
                        assert(st2.spec_resolve(va2) == st1.spec_resolve(va2));
                        assert(spec_terminal_entry(self.tables(), self.root, va2, 4)
                            == spec_terminal_entry(st2.tables(), st2.root, va2, 4));
                        assert(spec_terminal_entry(st2.tables(), st2.root, va2, 4)
                            == spec_terminal_entry(st1.tables(), st1.root, va2, 4));
                    }
                }
                return Err(err);
            },
            Ok(g) => g,
        };
        let ghost st3 = *self;
        let ghost fresh1 = fresh2 || !m0[f2][idx2].present;
        proof {
            if fresh2 {
                assert(!st2.tables()[f2][idx2].present);
                assert(fa.issued() == i2v + 1);
                assert(total - i2v >= 1);
                assert(spec_map_missing(2, total - i2v) == spec_map_missing(
                    1,
                    total - fa.issued(),
                ));
                assert(st3.tables()[f1] == empty_table());
            } else if !m0[f2][idx2].present {
                assert(avail0 >= 1);
                assert(spec_map_step(m0, f2, page, 2, avail0) == spec_map_missing(1, avail0 - 1));
                assert(st3.tables()[f1] == empty_table());
            } else {
                assert(st3.tables() == m0 && st3.levels() == lv0);
                assert(spec_map_step(m0, f2, page, 2, avail0) == spec_map_step(
                    m0,
                    f1,
                    page,
                    1,
                    avail0,
                ));
            }
            assert(fresh1 ==> spec_map_step(m0, root, page, 4, avail0) == spec_map_missing(
                1,
                total - fa.issued(),
            ));
            assert(!fresh1 ==> spec_map_step(m0, root, page, 4, avail0) == spec_map_step(
                m0,
                f1,
                page,
                1,
                avail0,
            ));
        }

        let si = self.slot_index(f1);
        let widx = table_index_for(page, 1);
        let e1 = self.slots[si].table[widx];
        proof {
            assert(e1 == st3.tables()[f1][spec_table_index(page, 1)]);
        }
        if e1.present {
            proof {
                assert(!fresh1);
                assert(spec_map_step(m0, f1, page, 1, avail0) == Err::<(), MapToError>(
                    MapToError::PageAlreadyMapped,
                ));
                assert forall|va2: u64|
                    self.spec_resolve(va2) == old(self).spec_resolve(va2) && spec_terminal_entry(
                        self.tables(),
                        self.root,
                        va2,
                        4,
                    ) == spec_terminal_entry(old(self).tables(), old(self).root, va2, 4) by {
                    assert(self.spec_resolve(va2) == st2.spec_resolve(va2));
                    assert(st2.spec_resolve(va2) == st1.spec_resolve(va2));
                    assert(spec_terminal_entry(self.tables(), self.root, va2, 4)
                        == spec_terminal_entry(st2.tables(), st2.root, va2, 4));
                    assert(spec_terminal_entry(st2.tables(), st2.root, va2, 4)
                        == spec_terminal_entry(st1.tables(), st1.root, va2, 4));
                }
            }
            return Err(MapToError::PageAlreadyMapped);
        }
        let new_entry = PageEntry { present: true, writable, huge: false, frame };
        self.slots[si].table[widx] = new_entry;
        proof {
            let m3 = st3.tables();
            let lv3 = st3.levels();
            assert(spec_map_missing(1, total - fa.issued()) == Ok::<(), MapToError>(()));
            assert(!fresh1 ==> spec_map_step(m0, f1, page, 1, avail0) == Ok::<(), MapToError>(()));
            assert(self.slots@ == st3.slots@.update(si as int, self.slots@[si as int]));
            lemma_view_of_update(st3.slots@, si as int, self.slots@[si as int]);
            assert(self.tables() =~= m3.insert(f1, m3[f1].update(spec_table_index(page, 1), new_entry)));
            assert(self.levels() =~= lv3.insert(f1, lv3[f1]));
            assert(self.levels() =~= lv3);
            // The pointing path from the root to the level-1 table of `page`
            // stands in the state just before the terminal write.
            assert(st1.tables()[root][idx4].present && !st1.tables()[root][idx4].huge
                && st1.tables()[root][idx4].frame == f3);
            assert(root != f3 && root != f2 && f3 != f2);
            assert(m3[root] == st1.tables()[root]);
            assert(m3[f3] == st2.tables()[f3]);
            assert(points_to(m3, lv3, root, idx4, f3));
            assert(points_to(m3, lv3, f3, idx3, f2));
            assert(points_to(m3, lv3, f2, idx2, f1));
            lemma_terminal_write_wf(m3, lv3, root, f1, spec_table_index(page, 1), new_entry);
            assert(wf_hierarchy(self.tables(), self.levels(), root));
            assert forall|va2: u64| #[trigger] same_page_indices(page, va2) implies self.spec_resolve(va2)
                == (Resolution::Mapped { frame }) && spec_terminal_entry(
                self.tables(),
                root,
                va2,
                4,
            ) == new_entry by {
                lemma_terminal_write_walk(m3, lv3, root, page, f3, f2, f1, new_entry, va2);
            }
            assert forall|va2: u64| !same_page_indices(page, va2) implies self.spec_resolve(va2)
                == old(self).spec_resolve(va2) && spec_terminal_entry(
                self.tables(),
                self.root,
                va2,
                4,
            ) == spec_terminal_entry(old(self).tables(), old(self).root, va2, 4) by {
                lemma_terminal_write_walk(m3, lv3, root, page, f3, f2, f1, new_entry, va2);
                assert(st3.spec_resolve(va2) == st2.spec_resolve(va2));
                assert(st2.spec_resolve(va2) == st1.spec_resolve(va2));
                assert(spec_terminal_entry(st3.tables(), st3.root, va2, 4)
                    == spec_terminal_entry(st2.tables(), st2.root, va2, 4));
                assert(spec_terminal_entry(st2.tables(), st2.root, va2, 4)
                    == spec_terminal_entry(st1.tables(), st1.root, va2, 4));
            }
        }
        Ok(())
    }
}

/// A fresh table: 512 non-present entries.
fn new_empty_table() -> (r: Vec<PageEntry>)
    ensures
        r@ == empty_table(),
{
    let r: Vec<PageEntry> = vec![PageEntry { present: false, writable: false, huge: false, frame: 0 }; 512];
    proof {
        assert(r@ =~= empty_table());
    }
    r
}

/// A missing-table chain succeeds exactly when the allocator can supply
/// one frame per remaining level.
pub proof fn lemma_missing_ok(level: int, avail: int)
    requires
        1 <= level <= 4,
    ensures
        spec_map_missing(level, avail) is Ok <==> (level == 1 || avail >= level - 1),
        !(spec_map_missing(level, avail) is Ok) ==> spec_map_missing(level, avail) == Err::<
            (),
            MapToError,
        >(MapToError::FrameAllocationFailed),
    decreases level,
{
    if level > 1 && avail > 0 {
        lemma_missing_ok(level - 1, avail - 1);
    }
}

/// Mapping succeeds on any unmapped address when the allocator can supply
/// a frame for every possibly missing level.
pub proof fn lemma_unmapped_map_ok(
    m: Map<u64, Seq<PageEntry>>,
    f: u64,
    va: u64,
    level: int,
    avail: int,
)
    requires
        spec_walk(m, f, va, level) == Resolution::NotMapped,
        avail >= level - 1,
        1 <= level <= 4,
    ensures
        spec_map_step(m, f, va, level, avail) is Ok,
    decreases level,
{
    let e = m[f][spec_table_index(va, level)];
    if level > 1 {
        if e.present {
            lemma_unmapped_map_ok(m, e.frame, va, level - 1, avail);
        } else {
            lemma_missing_ok(level - 1, avail - 1);
        }
    }
}

/// A mapping request succeeds only on an unmapped page.
pub proof fn lemma_map_ok_implies_unmapped(
    m: Map<u64, Seq<PageEntry>>,
    f: u64,
    va: u64,
    level: int,
    avail: int,
)
    requires
        spec_map_step(m, f, va, level, avail) is Ok,
        1 <= level <= 4,
    ensures
        spec_walk(m, f, va, level) == Resolution::NotMapped,
    decreases level,
{
    let e = m[f][spec_table_index(va, level)];
    if level > 1 && e.present && !e.huge {
        lemma_map_ok_implies_unmapped(m, e.frame, va, level - 1, avail);
    }
}

/// Mapping a page that already resolves is the checked double-mapping
/// error, whatever the allocator holds.
pub proof fn lemma_mapped_map_already(
    m: Map<u64, Seq<PageEntry>>,
    f: u64,
    va: u64,
    level: int,
    avail: int,
)
    requires
        spec_walk(m, f, va, level) is Mapped,
        1 <= level <= 4,
    ensures
        spec_map_step(m, f, va, level, avail) == Err::<(), MapToError>(
            MapToError::PageAlreadyMapped,
        ),
    decreases level,
{
    let e = m[f][spec_table_index(va, level)];
    if level > 1 && e.present && !e.huge {
        lemma_mapped_map_already(m, e.frame, va, level - 1, avail);
    }
}

/// On an unmapped page the only possible failure is frame exhaustion.
pub proof fn lemma_unmapped_map_errs(
    m: Map<u64, Seq<PageEntry>>,
    f: u64,
    va: u64,
    level: int,
    avail: int,
)
    requires
        spec_walk(m, f, va, level) == Resolution::NotMapped,
        1 <= level <= 4,
    ensures
        spec_map_step(m, f, va, level, avail) is Ok || spec_map_step(m, f, va, level, avail)
            == Err::<(), MapToError>(MapToError::FrameAllocationFailed),
    decreases level,
{
    let e = m[f][spec_table_index(va, level)];
    if level > 1 {
        if e.present && !e.huge {
            lemma_unmapped_map_errs(m, e.frame, va, level - 1, avail);
        } else if !e.present && avail > 0 {
            lemma_missing_ok(level - 1, avail - 1);
        }
    }
}

/// What an address resolves to depends only on its four index slices.
pub proof fn lemma_resolve_same_indices(
    m: Map<u64, Seq<PageEntry>>,
    f: u64,
    a: u64,
    b: u64,
    level: int,
)
    requires
        same_page_indices(a, b),
        1 <= level <= 4,
    ensures
        spec_walk(m, f, a, level) == spec_walk(m, f, b, level),
        spec_terminal_entry(m, f, a, level) == spec_terminal_entry(m, f, b, level),
    decreases level,
{
    let e = m[f][spec_table_index(a, level)];
    if e.present && !e.huge && level > 1 {
        lemma_resolve_same_indices(m, e.frame, a, b, level - 1);
    }
}

/// A mapped resolution comes from a present level-1 entry, whose frame is
/// page-aligned by well-formedness.
proof fn lemma_terminal_frame_aligned(pt: &PageTables, va: u64, frame: u64)
    requires
        pt.wf(),
        pt.spec_resolve(va) == (Resolution::Mapped { frame }),
    ensures
        frame % 4096 == 0,
{
    lemma_walk_terminal_aligned(pt.tables(), pt.levels(), pt.root, va, 4);
}

/// Any mapped walk outcome from a well-formed hierarchy is an aligned frame.
proof fn lemma_walk_terminal_aligned(
    m: Map<u64, Seq<PageEntry>>,
    lv: Map<u64, int>,
    f: u64,
    va: u64,
    level: int,
)
    requires
        forall|f1: u64, idx: int|
            points_to(m, lv, f1, idx, (#[trigger] m[f1][idx]).frame) && m.dom().contains(f1)
                ==> m.dom().contains(m[f1][idx].frame) && lv[m[f1][idx].frame] == lv[f1] - 1,
        forall|f1: u64, idx: int|
            m.dom().contains(f1) && lv[f1] == 1 && 0 <= idx < 512 && (
            #[trigger] m[f1][idx]).present ==> m[f1][idx].frame % 4096 == 0,
        m.dom().contains(f),
        lv[f] == level,
        1 <= level <= 4,
    ensures
        forall|g: u64| spec_walk(m, f, va, level) == (Resolution::Mapped { frame: g }) ==> g % 4096
            == 0,
    decreases level,
{
    let idx = spec_table_index(va, level);
    let e = m[f][idx];
    if e.present && !e.huge && level > 1 {
        assert(points_to(m, lv, f, idx, e.frame));
        lemma_walk_terminal_aligned(m, lv, e.frame, va, level - 1);
    }
}

} // verus!
