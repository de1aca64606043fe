//! The kernel heap region: a fixed virtual range that is mapped page by
//! page, each page backed by a freshly allocated frame, before the range
//! is handed to the dynamic allocator. Any mapping failure is propagated
//! before the allocator ever sees the memory, so a partially mapped heap
//! is never used.

use vstd::prelude::*;
use crate::frames::PopFrameAllocator;
use crate::paging::{allocator_fresh, MapToError, PageTables, Resolution};

verus! {

/// First virtual address of the heap.
pub const HEAP_START: u64 = 0x4444_4444_0000;

/// Size of the heap in bytes; a whole number of pages.
pub const HEAP_SIZE: u64 = 100 * 1024;

/// Number of pages the heap occupies.
pub const HEAP_PAGES: u64 = 25;

/// Frames that suffice to map the heap: one per page plus intermediate
/// tables, generously rounded.
pub const HEAP_FRAME_BUDGET: u64 = 100;

/// `va` lies inside the heap's virtual range.
pub open spec fn in_heap_range(va: u64) -> bool {
    HEAP_START <= va < HEAP_START + HEAP_SIZE
}

/// The pages covering the heap range, as (first page, page count).
pub fn get_page_range() -> (r: (u64, u64))
    ensures
        r.0 == HEAP_START,
        r.1 == HEAP_PAGES,
{
    let heap_start = HEAP_START;
    let heap_end = HEAP_START + HEAP_SIZE - 1;
    let first = crate::addr::align_down(heap_start);
    let last = crate::addr::align_down(heap_end);
    proof {
        assert(HEAP_START as int % 4096 == 0);
        assert(first == HEAP_START);
        assert(last == HEAP_START + HEAP_SIZE - 4096);
    }
    (first, (last - first) / 4096 + 1)
}

/// Maps every page of the heap range, drawing the backing frame of each
/// page and any missing table from `fa`. On success every page of the
/// range is mapped, present and writable, each page backed by its own
/// frame issued by the allocator during the call. On failure the error
/// is returned before any allocator sees the memory, nothing outside the
/// range ever changes its resolution, and a mapping the range already
/// held is left standing: an exhausted allocator fails the frame
/// allocation (at once, changing nothing, if it has no frame at all),
/// and a page that is already mapped is the checked double-mapping
/// error. With a wholly unmapped range and at least `HEAP_FRAME_BUDGET`
/// frames left, success is guaranteed.
#[verifier::rlimit(100)]
pub fn init_heap(pt: &mut PageTables, fa: &mut PopFrameAllocator) -> (r: Result<(), MapToError>)
    requires
        old(pt).wf(),
        allocator_fresh(old(pt), old(fa)),
        crate::frames::wf_memory_map(old(fa).regions_view()),
        old(fa).issued() + 100 <= usize::MAX,
    ensures
        final(pt).wf(),
        final(pt).root == old(pt).root,
        final(pt).phys_offset == old(pt).phys_offset,
        final(fa).regions_view() == old(fa).regions_view(),
        old(fa).issued() <= final(fa).issued() <= old(fa).issued() + 100,
        allocator_fresh(final(pt), final(fa)),
        r is Ok ==> forall|va: u64|
            in_heap_range(va) ==> (#[trigger] final(pt).spec_resolve(va)) is Mapped,
        r is Ok ==> forall|va: u64|
            in_heap_range(va) ==> ((#[trigger] crate::paging::spec_terminal_entry(
                final(pt).tables(),
                final(pt).root,
                va,
                4,
            )).present && crate::paging::spec_terminal_entry(
                final(pt).tables(),
                final(pt).root,
                va,
                4,
            ).writable && !crate::paging::spec_terminal_entry(
                final(pt).tables(),
                final(pt).root,
                va,
                4,
            ).huge),
        // distinct pages are backed by distinct frames, each issued by
        // the allocator during this call
        r is Ok ==> forall|j1: int, j2: int|
            0 <= j1 < j2 < 25 ==> #[trigger] crate::paging::spec_terminal_entry(
                final(pt).tables(),
                final(pt).root,
                (HEAP_START + 4096 * j1) as u64,
                4,
            ).frame != #[trigger] crate::paging::spec_terminal_entry(
                final(pt).tables(),
                final(pt).root,
                (HEAP_START + 4096 * j2) as u64,
                4,
            ).frame,
        r is Ok ==> forall|j: int|
            0 <= j < 25 ==> crate::frames::usable_frames(old(fa).regions_view()).subrange(
                old(fa).issued() as int,
                final(fa).issued() as int,
            ).contains(
                (#[trigger] crate::paging::spec_terminal_entry(
                    final(pt).tables(),
                    final(pt).root,
                    (HEAP_START + 4096 * j) as u64,
                    4,
                )).frame,
            ),
        forall|va: u64|
            va < 0x1_0000_0000_0000 && !in_heap_range(va) ==> final(pt).spec_resolve(va) == old(
                pt,
            ).spec_resolve(va),
        // a mapping the range already held survives any failure
        r is Err ==> forall|va: u64|
            in_heap_range(va) && (#[trigger] old(pt).spec_resolve(va)) is Mapped
                ==> final(pt).spec_resolve(va) == old(pt).spec_resolve(va),
        // success needs at least one frame per page
        r is Ok ==> crate::frames::usable_frames(old(fa).regions_view()).len() >= old(fa).issued()
            + 25,
        // on an unmapped range the only failure is frame exhaustion
        (forall|va: u64| in_heap_range(va) ==> old(pt).spec_resolve(va) == Resolution::NotMapped)
            ==> (r is Ok || r == Err::<(), MapToError>(MapToError::FrameAllocationFailed)),
        // with no usable frame at all the failure is immediate and
        // changes no table
        crate::frames::usable_frames(old(fa).regions_view()).len() <= old(fa).issued() ==> (r
            == Err::<(), MapToError>(MapToError::FrameAllocationFailed) && final(pt).tables()
            == old(pt).tables()),
        // a page the range already holds is the checked double-mapping
        // error, given the frames to reach it
        (crate::frames::usable_frames(old(fa).regions_view()).len() - old(fa).issued()
            >= HEAP_FRAME_BUDGET && (forall|va: u64|
            in_heap_range(va) ==> (#[trigger] old(pt).spec_resolve(va)) == Resolution::NotMapped
                || old(pt).spec_resolve(va) is Mapped) && (exists|va: u64|
            in_heap_range(va) && (#[trigger] old(pt).spec_resolve(va)) is Mapped)) ==> r == Err::<
            (),
            MapToError,
        >(MapToError::PageAlreadyMapped),
        (crate::frames::usable_frames(old(fa).regions_view()).len() - old(fa).issued()
            >= HEAP_FRAME_BUDGET && (forall|va: u64|
            in_heap_range(va) ==> old(pt).spec_resolve(va) == Resolution::NotMapped)) ==> r is Ok,
{
    let ghost total = crate::frames::usable_frames(old(fa).regions_view()).len() as int;
    let ghost i0 = old(fa).issued();
    let ghost promised = total - i0 >= 100 && (forall|va: u64|
        in_heap_range(va) ==> old(pt).spec_resolve(va) == Resolution::NotMapped);
    let ghost shaped = total - i0 >= 100 && (forall|va: u64|
        in_heap_range(va) ==> (#[trigger] old(pt).spec_resolve(va)) == Resolution::NotMapped || old(
            pt,
        ).spec_resolve(va) is Mapped);
    let ghost mut idxs: Seq<int> = Seq::empty();
    let (first, count) = get_page_range();
    let mut k: u64 = 0;
    while k < count
        invariant
            0 <= k <= count,
            first == HEAP_START,
            count == HEAP_PAGES,
            pt.wf(),
            pt.root == old(pt).root,
            pt.phys_offset == old(pt).phys_offset,
            fa.regions_view() == old(fa).regions_view(),
            crate::frames::wf_memory_map(fa.regions_view()),
            allocator_fresh(pt, fa),
            total == crate::frames::usable_frames(fa.regions_view()).len(),
            i0 == old(fa).issued(),
            promised == (total - i0 >= 100 && (forall|va: u64|
                in_heap_range(va) ==> old(pt).spec_resolve(va) == Resolution::NotMapped)),
            shaped == (total - i0 >= 100 && (forall|va: u64|
                in_heap_range(va) ==> (#[trigger] old(pt).spec_resolve(va))
                    == Resolution::NotMapped || old(pt).spec_resolve(va) is Mapped)),
            i0 + k <= fa.issued() <= i0 + 4 * k,
            i0 + 100 <= usize::MAX,
            k > 0 ==> total >= i0 + k,
            k > 0 ==> fa.issued() <= total,
            k == 0 ==> pt.tables() == old(pt).tables(),
            forall|j: int|
                0 <= j < k ==> (#[trigger] pt.spec_resolve((HEAP_START + 4096 * j) as u64))
                    is Mapped,
            forall|j: int|
                0 <= j < k ==> ((#[trigger] crate::paging::spec_terminal_entry(
                    pt.tables(),
                    pt.root,
                    (HEAP_START + 4096 * j) as u64,
                    4,
                )).present && crate::paging::spec_terminal_entry(
                    pt.tables(),
                    pt.root,
                    (HEAP_START + 4096 * j) as u64,
                    4,
                ).writable && !crate::paging::spec_terminal_entry(
                    pt.tables(),
                    pt.root,
                    (HEAP_START + 4096 * j) as u64,
                    4,
                ).huge),
            idxs.len() == k,
            forall|j: int| 0 <= j < k ==> i0 <= #[trigger] idxs[j] < fa.issued() && idxs[j] < total,
            forall|j1: int, j2: int| 0 <= j1 < j2 < k ==> #[trigger] idxs[j1] < #[trigger] idxs[j2],
            forall|j: int|
                0 <= j < k ==> #[trigger] crate::paging::spec_terminal_entry(
                    pt.tables(),
                    pt.root,
                    (HEAP_START + 4096 * j) as u64,
                    4,
                ).frame == crate::frames::usable_frames(old(fa).regions_view())[idxs[j]],
            forall|j: int|
                0 <= j < k ==> #[trigger] old(pt).spec_resolve((HEAP_START + 4096 * j) as u64)
                    == Resolution::NotMapped,
            forall|j: int|
                k <= j < count ==> #[trigger] pt.spec_resolve((HEAP_START + 4096 * j) as u64)
                    == old(pt).spec_resolve((HEAP_START + 4096 * j) as u64),
            forall|va: u64|
                va < 0x1_0000_0000_0000 && !in_heap_range(va) ==> pt.spec_resolve(va) == old(
                    pt,
                ).spec_resolve(va),
        decreases count - k,
    {
        let page = first + k * 4096;
        proof {
            lemma_heap_page_facts(k as int);
        }
        let frame_opt = fa.allocate_frame();
        let frame = match frame_opt {
            Some(f) => f,
            None => {
                proof {
                    assert(fa.issued() - 1 >= total);
                    if total - i0 >= 100 {
                        assert(fa.issued() - 1 <= i0 + 4 * k);
                        assert(false);
                    }
                    if total <= i0 {
                        assert(k == 0);
                    }
                    lemma_err_keeps_prior_mappings(pt, old(pt), k as int);
                }
                return Err(MapToError::FrameAllocationFailed);
            },
        };
        proof {
            crate::frames::lemma_usable_frames_aligned(fa.regions_view());
            assert(frame % 4096 == 0);
            assert(frame == crate::frames::usable_frames(old(fa).regions_view())[fa.issued() - 1]);
        }
        let ghost pt_before = *pt;
        let ghost imap = fa.issued();
        match pt.map_to(page, frame, true, fa) {
            Ok(()) => {},
            Err(e) => {
                proof {
                    assert(in_heap_range(page));
                    assert(pt_before.spec_resolve(page) == old(pt).spec_resolve(page));
                    assert(imap <= i0 + 4 * k + 1);
                    assert(total > i0);
                    if forall|va: u64|
                        in_heap_range(va) ==> old(pt).spec_resolve(va) == Resolution::NotMapped {
                        assert(old(pt).spec_resolve(page) == Resolution::NotMapped);
                    }
                    if old(pt).spec_resolve(page) == Resolution::NotMapped {
                        crate::paging::lemma_unmapped_map_errs(
                            pt_before.tables(),
                            pt_before.root,
                            page,
                            4,
                            total - imap,
                        );
                        assert(e == MapToError::FrameAllocationFailed);
                        if total - i0 >= 100 {
                            crate::paging::lemma_unmapped_map_ok(
                                pt_before.tables(),
                                pt_before.root,
                                page,
                                4,
                                total - imap,
                            );
                            assert(false);
                        }
                    }
                    if shaped {
                        assert(old(pt).spec_resolve(page) == Resolution::NotMapped || old(
                            pt,
                        ).spec_resolve(page) is Mapped);
                        if old(pt).spec_resolve(page) is Mapped {
                            crate::paging::lemma_mapped_map_already(
                                pt_before.tables(),
                                pt_before.root,
                                page,
                                4,
                                total - imap,
                            );
                            assert(e == MapToError::PageAlreadyMapped);
                        } else {
                            assert(in_heap_range(page));
                            assert(old(pt).spec_resolve(page) == Resolution::NotMapped);
                            assert(false);
                        }
                    }
                    if promised {
                        assert(old(pt).spec_resolve(page) == Resolution::NotMapped);
                        crate::paging::lemma_unmapped_map_ok(
                            pt_before.tables(),
                            pt_before.root,
                            page,
                            4,
                            total - imap,
                        );
                        assert(false);
                    }
                    lemma_err_keeps_prior_mappings(pt, old(pt), k as int);
                }
                return Err(e);
            },
        }
        proof {
            crate::paging::lemma_map_ok_implies_unmapped(
                pt_before.tables(),
                pt_before.root,
                page,
                4,
                total - imap,
            );
            assert(old(pt).spec_resolve(page) == Resolution::NotMapped);
            assert forall|j: int|
                0 <= j < k + 1 implies (#[trigger] pt.spec_resolve(
                (HEAP_START + 4096 * j) as u64,
            )) is Mapped by {
                lemma_heap_page_facts(j);
                if j < k {
                    lemma_distinct_heap_pages(page, (HEAP_START + 4096 * j) as u64);
                } else {
                    assert(crate::paging::same_page_indices(page, page));
                }
            }
            assert forall|j: int|
                0 <= j < k + 1 implies ((#[trigger] crate::paging::spec_terminal_entry(
                pt.tables(),
                pt.root,
                (HEAP_START + 4096 * j) as u64,
                4,
            )).present && crate::paging::spec_terminal_entry(
                pt.tables(),
                pt.root,
                (HEAP_START + 4096 * j) as u64,
                4,
            ).writable && !crate::paging::spec_terminal_entry(
                pt.tables(),
                pt.root,
                (HEAP_START + 4096 * j) as u64,
                4,
            ).huge) by {
                lemma_heap_page_facts(j);
                if j < k {
                    lemma_distinct_heap_pages(page, (HEAP_START + 4096 * j) as u64);
                } else {
                    assert(crate::paging::same_page_indices(page, page));
                }
            }
            idxs = idxs.push(imap - 1);
            assert forall|j: int|
                0 <= j < k + 1 implies #[trigger] crate::paging::spec_terminal_entry(
                pt.tables(),
                pt.root,
                (HEAP_START + 4096 * j) as u64,
                4,
            ).frame == crate::frames::usable_frames(old(fa).regions_view())[idxs[j]] by {
                lemma_heap_page_facts(j);
                if j < k {
                    lemma_distinct_heap_pages(page, (HEAP_START + 4096 * j) as u64);
                } else {
                    assert(crate::paging::same_page_indices(page, page));
                }
            }
            assert forall|j: int|
                k + 1 <= j < count implies #[trigger] pt.spec_resolve(
                (HEAP_START + 4096 * j) as u64,
            ) == old(pt).spec_resolve((HEAP_START + 4096 * j) as u64) by {
                lemma_heap_page_facts(j);
                lemma_distinct_heap_pages(page, (HEAP_START + 4096 * j) as u64);
                assert(pt_before.spec_resolve((HEAP_START + 4096 * j) as u64) == old(
                    pt,
                ).spec_resolve((HEAP_START + 4096 * j) as u64));
            }
            assert forall|va: u64|
                va < 0x1_0000_0000_0000 && !in_heap_range(va) implies pt.spec_resolve(va) == old(
                pt,
            ).spec_resolve(va) by {
                lemma_outside_heap(page, va);
                assert(pt_before.spec_resolve(va) == old(pt).spec_resolve(va));
            }
        }
        k = k + 1;
    }
    proof {
        assert forall|va: u64| in_heap_range(va) implies (#[trigger] pt.spec_resolve(va))
            is Mapped by {
            lemma_heap_va_page(va);
            let j = (va - HEAP_START) as int / 4096;
            let page = (HEAP_START + 4096 * j) as u64;
            assert(pt.spec_resolve(page) is Mapped);
            crate::paging::lemma_resolve_same_indices(pt.tables(), pt.root, page, va, 4);
        }
        assert forall|va: u64| in_heap_range(va) implies ((
        #[trigger] crate::paging::spec_terminal_entry(pt.tables(), pt.root, va, 4)).present
            && crate::paging::spec_terminal_entry(pt.tables(), pt.root, va, 4).writable
            && !crate::paging::spec_terminal_entry(pt.tables(), pt.root, va, 4).huge) by {
            lemma_heap_va_page(va);
            let j = (va - HEAP_START) as int / 4096;
            let page = (HEAP_START + 4096 * j) as u64;
            crate::paging::lemma_resolve_same_indices(pt.tables(), pt.root, page, va, 4);
        }
        crate::frames::lemma_usable_frames_distinct(fa.regions_view());
        assert forall|j1: int, j2: int|
            0 <= j1 < j2 < 25 implies #[trigger] crate::paging::spec_terminal_entry(
            pt.tables(),
            pt.root,
            (HEAP_START + 4096 * j1) as u64,
            4,
        ).frame != #[trigger] crate::paging::spec_terminal_entry(
            pt.tables(),
            pt.root,
            (HEAP_START + 4096 * j2) as u64,
            4,
        ).frame by {
            assert(idxs[j1] < idxs[j2]);
        }
        assert forall|j: int|
            0 <= j < 25 implies crate::frames::usable_frames(old(fa).regions_view()).subrange(
            i0 as int,
            fa.issued() as int,
        ).contains(
            (#[trigger] crate::paging::spec_terminal_entry(
                pt.tables(),
                pt.root,
                (HEAP_START + 4096 * j) as u64,
                4,
            )).frame,
        ) by {
            let i = idxs[j];
            assert(0 <= i < total);
            let sub = crate::frames::usable_frames(old(fa).regions_view()).subrange(
                i0 as int,
                fa.issued() as int,
            );
            assert(sub[i - i0] == crate::frames::usable_frames(old(fa).regions_view())[i]);
            assert(sub[i - i0] == crate::paging::spec_terminal_entry(
                pt.tables(),
                pt.root,
                (HEAP_START + 4096 * j) as u64,
                4,
            ).frame);
        }
        if shaped {
            if exists|va: u64|
                in_heap_range(va) && (#[trigger] old(pt).spec_resolve(va)) is Mapped {
                let va = choose|va: u64|
                    in_heap_range(va) && (#[trigger] old(pt).spec_resolve(va)) is Mapped;
                lemma_heap_va_page(va);
                let j = (va - HEAP_START) as int / 4096;
                let page = (HEAP_START + 4096 * j) as u64;
                crate::paging::lemma_resolve_same_indices(old(pt).tables(), old(pt).root, page, va, 4);
                assert(old(pt).spec_resolve(page) == Resolution::NotMapped);
                assert(false);
            }
        }
    }
    Ok(())
}

/// A pre-existing mapping inside the heap range survives a failed run:
/// the pages processed so far were unmapped to begin with, and the rest
/// still resolve as before.
proof fn lemma_err_keeps_prior_mappings(pt: &PageTables, pt0: &PageTables, k: int)
    requires
        0 <= k <= 25,
        forall|j: int|
            0 <= j < k ==> #[trigger] pt0.spec_resolve((HEAP_START + 4096 * j) as u64)
                == Resolution::NotMapped,
        forall|j: int|
            k <= j < 25 ==> #[trigger] pt.spec_resolve((HEAP_START + 4096 * j) as u64)
                == pt0.spec_resolve((HEAP_START + 4096 * j) as u64),
    ensures
        forall|va: u64|
            in_heap_range(va) && (#[trigger] pt0.spec_resolve(va)) is Mapped ==> pt.spec_resolve(
                va,
            ) == pt0.spec_resolve(va),
{
    assert forall|va: u64|
        in_heap_range(va) && (#[trigger] pt0.spec_resolve(va)) is Mapped implies pt.spec_resolve(
        va,
    ) == pt0.spec_resolve(va) by {
        lemma_heap_va_page(va);
        let j = (va - HEAP_START) as int / 4096;
        let page = (HEAP_START + 4096 * j) as u64;
        crate::paging::lemma_resolve_same_indices(pt0.tables(), pt0.root, page, va, 4);
        assert(pt0.spec_resolve(page) is Mapped);
        assert(j >= k);
        assert(pt.spec_resolve(page) == pt0.spec_resolve(page));
        crate::paging::lemma_resolve_same_indices(pt.tables(), pt.root, page, va, 4);
    }
}

/// Every heap address shares its page, and so its index slices, with the
/// heap page that contains it.
proof fn lemma_heap_va_page(va: u64)
    requires
        in_heap_range(va),
    ensures
        0 <= (va - HEAP_START) as int / 4096 < 25,
        crate::paging::same_page_indices(
            (HEAP_START + 4096 * ((va - HEAP_START) as int / 4096)) as u64,
            va,
        ),
{
    let j = (va - HEAP_START) as int / 4096;
    assert(0 <= j < 25) by (nonlinear_arith)
        requires
            HEAP_START <= va < HEAP_START + HEAP_SIZE,
            j == (va - HEAP_START) as int / 4096,
            HEAP_SIZE == 102400,
    ;
    lemma_heap_page_facts(j);
    let page = (HEAP_START + 4096 * j) as u64;
    assert(crate::addr::spec_page_base(va) == page) by (nonlinear_arith)
        requires
            HEAP_START <= va,
            j == (va - HEAP_START) as int / 4096,
            page == (HEAP_START + 4096 * j) as u64,
            HEAP_START % 4096 == 0,
            HEAP_START + 4096 * j <= 0xffff_ffff_ffff_ffff,
    ;
    crate::paging::lemma_same_page_indices_iff(page, va);
}

/// Facts about the `j`-th heap page: in range, aligned, below the 48-bit
/// span, and its own page base.
proof fn lemma_heap_page_facts(j: int)
    by (nonlinear_arith)
    requires
        0 <= j < 25,
    ensures
        HEAP_START <= HEAP_START + 4096 * j < HEAP_START + HEAP_SIZE,
        ((HEAP_START + 4096 * j) as u64) % 4096 == 0,
        ((HEAP_START + 4096 * j) as u64) < 0x1_0000_0000_0000,
        crate::addr::spec_page_base((HEAP_START + 4096 * j) as u64) == HEAP_START + 4096 * j,
{
}

/// Two distinct aligned heap pages never share their index slices.
proof fn lemma_distinct_heap_pages(a: u64, b: u64)
    requires
        a < 0x1_0000_0000_0000,
        b < 0x1_0000_0000_0000,
        a % 4096 == 0,
        b % 4096 == 0,
        a != b,
        crate::addr::spec_page_base(a) == a,
        crate::addr::spec_page_base(b) == b,
    ensures
        !crate::paging::same_page_indices(a, b),
{
    crate::paging::lemma_same_page_indices_iff(a, b);
}

/// An address outside the heap range lies in a different page than any
/// heap page, so mapping a heap page leaves it untouched.
proof fn lemma_outside_heap(page: u64, va: u64)
    requires
        HEAP_START <= page < HEAP_START + HEAP_SIZE,
        page % 4096 == 0,
        page < 0x1_0000_0000_0000,
        crate::addr::spec_page_base(page) == page,
        va < 0x1_0000_0000_0000,
        !in_heap_range(va),
    ensures
        !crate::paging::same_page_indices(page, va),
{
    crate::paging::lemma_same_page_indices_iff(page, va);
    assert(crate::addr::spec_page_base(va) != page) by (nonlinear_arith)
        requires
            va < HEAP_START || va >= HEAP_START + HEAP_SIZE,
            HEAP_START <= page < HEAP_START + HEAP_SIZE,
            page % 4096 == 0,
            HEAP_START % 4096 == 0,
            (HEAP_START + HEAP_SIZE) % 4096 == 0,
    ;
}

} // verus!
