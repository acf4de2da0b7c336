//! Turns mapping descriptors and cached pages into regions of virtual memory
//! with their protection and their content.

use crate::arch::{
    no_execute_bit, page_flags_set, page_no_execute, page_present, page_user_accessible,
    page_writable, present_bit, user_accessible_bit, writable_bit,
};
use crate::error::IntegrityError;
use crate::page_cache::PageCache;
use crate::protocol::message::{Mapping, MappingView, PAGE_SIZE};
use vstd::prelude::*;

verus! {

/// The page-table flags for a region with the given permissions. The page is
/// always present; user mode may access it exactly if it is readable; it is
/// writable exactly if the write permission is given; instruction fetches are
/// forbidden exactly if the execute permission is missing. No other bit is
/// set.
pub open spec fn protection_bits(perm_r: bool, perm_w: bool, perm_x: bool) -> u64 {
    (present_bit() + (if perm_r {
        user_accessible_bit()
    } else {
        0
    }) + (if perm_w {
        writable_bit()
    } else {
        0
    }) + (if perm_x {
        0
    } else {
        no_execute_bit()
    })) as u64
}

/// Reading the single bits of [`protection_bits`].
pub proof fn lemma_protection_bits(perm_r: bool, perm_w: bool, perm_x: bool)
    ensures
        protection_bits(perm_r, perm_w, perm_x) & present_bit() == present_bit(),
        (protection_bits(perm_r, perm_w, perm_x) & user_accessible_bit() != 0) == perm_r,
        (protection_bits(perm_r, perm_w, perm_x) & writable_bit() != 0) == perm_w,
        (protection_bits(perm_r, perm_w, perm_x) & no_execute_bit() != 0) == !perm_x,
        protection_bits(perm_r, perm_w, perm_x) & !(present_bit() | user_accessible_bit()
            | writable_bit() | no_execute_bit()) == 0,
{
    let low: u64 = (1 + (if perm_r {
        4int
    } else {
        0
    }) + (if perm_w {
        2int
    } else {
        0
    })) as u64;
    let bits = protection_bits(perm_r, perm_w, perm_x);
    assert(low == 1 || low == 3 || low == 5 || low == 7);
    assert(bits == low || bits == low + 0x8000_0000_0000_0000);
    assert((low == 1 || low == 3 || low == 5 || low == 7) && (bits == low || bits == low
        + 0x8000_0000_0000_0000) ==> {
        &&& bits & 1 == 1
        &&& (bits & 4 != 0) == (low == 5 || low == 7)
        &&& (bits & 2 != 0) == (low == 3 || low == 7)
        &&& (bits & 0x8000_0000_0000_0000 != 0) == (bits != low)
        &&& bits & !(1u64 | 4 | 2 | 0x8000_0000_0000_0000) == 0
    }) by (bit_vector);
}

/// Translates permissions into page-table flags.
pub fn protection_flags(perm_r: bool, perm_w: bool, perm_x: bool) -> (flags: u64)
    ensures
        flags == protection_bits(perm_r, perm_w, perm_x),
{
    let present = page_present();
    let with_user = page_flags_set(present, page_user_accessible(), perm_r);
    assert(1u64 | 4 == 5 && 1u64 & !4u64 == 1) by (bit_vector);
    let with_write = page_flags_set(with_user, page_writable(), perm_w);
    assert(1u64 | 2 == 3 && 1u64 & !2u64 == 1 && 5u64 | 2 == 7 && 5u64 & !2u64 == 5)
        by (bit_vector);
    assert(with_write == 1 || with_write == 3 || with_write == 5 || with_write == 7);
    let flags = page_flags_set(with_write, page_no_execute(), !perm_x);
    assert(with_write < 8 ==> with_write | 0x8000_0000_0000_0000 == with_write
        + 0x8000_0000_0000_0000 && with_write & !0x8000_0000_0000_0000u64 == with_write)
        by (bit_vector);
    flags
}

/// A claim on the virtual addresses from `start` to `end`, both included.
#[derive(Clone, Copy, Debug, PartialEq, Eq, Structural)]
pub struct VirtualMemoryRegion {
    pub start: u64,
    pub end: u64,
}

impl VirtualMemoryRegion {
    /// The range is not empty and its length fits in 64 bits.
    pub open spec fn wf(&self) -> bool {
        self.start <= self.end && self.end - self.start < u64::MAX
    }

    /// Whether `start` and `end` bound a region that can be claimed.
    pub open spec fn valid_range(start: u64, end: u64) -> bool {
        start <= end && end - start < u64::MAX
    }

    /// Claims the addresses from `start` to `end`, if they bound a region.
    pub fn take_range(start: u64, end: u64) -> (r: Option<VirtualMemoryRegion>)
        ensures
            r == if Self::valid_range(start, end) {
                Some(VirtualMemoryRegion { start, end })
            } else {
                None
            },
    {
        if start <= end && end - start < u64::MAX {
            Some(VirtualMemoryRegion { start, end })
        } else {
            None
        }
    }

    /// The first address of the region.
    pub fn start(&self) -> (r: u64)
        ensures
            r == self.start,
    {
        self.start
    }

    /// The number of addresses in the region.
    pub fn len(&self) -> (r: u64)
        requires
            self.wf(),
        ensures
            r == self.end - self.start + 1,
    {
        self.end - self.start + 1
    }
}

/// The content of a region: the pages named by `pages`, one after the other.
pub open spec fn region_content(cache: Map<u32, Seq<u8>>, pages: Seq<u32>) -> Seq<u8> {
    Seq::new(
        pages.len() * (PAGE_SIZE as nat),
        |i: int| cache[pages[i / (PAGE_SIZE as int)]][i % (PAGE_SIZE as int)],
    )
}

/// The content of a region has one page of bytes for each page named, so it
/// fills the range of a mapping exactly if the pages of the mapping do.
pub proof fn lemma_content_fills_range(cache: Map<u32, Seq<u8>>, mapping: MappingView)
    ensures
        region_content(cache, mapping.pages).len() == mapping.pages.len() * PAGE_SIZE,
        Mapping::spec_covers_pages(mapping) ==> region_content(cache, mapping.pages).len()
            == mapping.page_end - mapping.page_start + 1,
{
}

/// `pages[i]` is the first page of the list that the cache does not hold.
pub open spec fn first_missing_page(cache: Map<u32, Seq<u8>>, pages: Seq<u32>, i: int) -> bool {
    &&& 0 <= i < pages.len()
    &&& !cache.contains_key(pages[i])
    &&& forall|j: int| 0 <= j < i ==> cache.contains_key(#[trigger] pages[j])
}

/// The cache holds every page of the list.
pub open spec fn all_pages_known(cache: Map<u32, Seq<u8>>, pages: Seq<u32>) -> bool {
    forall|j: int| 0 <= j < pages.len() ==> cache.contains_key(#[trigger] pages[j])
}

/// Concatenates the cached pages that `pages` names, in order. Fails on the
/// first identifier that the cache does not hold.
pub fn assemble(cache: &PageCache, pages: &Vec<u32>) -> (r: Result<Vec<u8>, IntegrityError>)
    requires
        cache.wf(),
    ensures
        match r {
            Ok(data) => all_pages_known(cache@, pages@) && data@ == region_content(
                cache@,
                pages@,
            ),
            Err(e) => exists|i: int|
                #![trigger pages@[i]]
                first_missing_page(cache@, pages@, i) && e == (IntegrityError::UnknownPage {
                    page_id: pages@[i],
                }),
        },
{
    let mut data: Vec<u8> = Vec::new();
    let mut i: usize = 0;
    while i < pages.len()
        invariant
            i <= pages.len(),
            cache.wf(),
            all_pages_known(cache@, pages@.take(i as int)),
            data@ == region_content(cache@, pages@.take(i as int)),
        decreases pages.len() - i,
    {
        let page_id = pages[i];
        match cache.get(page_id) {
            None => {
                proof {
                    assert forall|j: int| 0 <= j < i implies cache@.contains_key(
                        #[trigger] pages@[j],
                    ) by {
                        assert(pages@.take(i as int)[j] == pages@[j]);
                    }
                    assert(first_missing_page(cache@, pages@, i as int));
                }
                return Err(IntegrityError::UnknownPage { page_id });
            },
            Some(page) => {
                let ghost before = data@;
                data.extend_from_slice(page.as_slice());
                proof {
                    let shorter = pages@.take(i as int);
                    let longer = pages@.take(i + 1);
                    assert(cache@[page_id].len() == PAGE_SIZE);
                    assert forall|j: int| 0 <= j < longer.len() implies cache@.contains_key(
                        #[trigger] longer[j],
                    ) by {
                        if j < i {
                            assert(shorter[j] == longer[j]);
                        }
                    }
                    assert forall|k: int| 0 <= k < data@.len() implies data@[k]
                        == region_content(cache@, longer)[k] by {
                        if k < before.len() {
                            assert(k / (PAGE_SIZE as int) < i);
                            let page = k / (PAGE_SIZE as int);
                            assert(shorter[page] == longer[page]);
                        } else {
                            assert(k / (PAGE_SIZE as int) == i);
                            assert(k % (PAGE_SIZE as int) == k - before.len());
                        }
                    }
                    assert(data@ =~= region_content(cache@, longer));
                }
            },
        }
        i += 1;
    }
    proof {
        assert(pages@.take(i as int) =~= pages@);
    }
    Ok(data)
}

/// Why the addresses from `start` to `end` cannot be claimed, given the
/// regions claimed so far (each start with its end): they bound no region, or
/// the start is claimed with another end.
pub open spec fn claim_fault(regions: Map<u64, u64>, start: u64, end: u64) -> Option<
    IntegrityError,
> {
    if !VirtualMemoryRegion::valid_range(start, end) {
        Some(IntegrityError::InvalidRange { start, end })
    } else if regions.contains_key(start) && regions[start] != end {
        Some(IntegrityError::InconsistentRegion { start })
    } else {
        None
    }
}

/// The claimed regions after a claim on `start` to `end`: the first claim for
/// a start stands.
pub open spec fn claimed(regions: Map<u64, u64>, start: u64, end: u64) -> Map<u64, u64> {
    if regions.contains_key(start) {
        regions
    } else {
        regions.insert(start, end)
    }
}

/// The claimed regions after each of `mappings` has claimed its range, in
/// order.
pub open spec fn claims(regions: Map<u64, u64>, mappings: Seq<MappingView>) -> Map<u64, u64>
    decreases mappings.len(),
{
    if mappings.len() == 0 {
        regions
    } else {
        let last = mappings.last();
        claimed(claims(regions, mappings.drop_last()), last.page_start, last.page_end)
    }
}

/// The mapping can be installed: its range can be claimed and the cache
/// holds each of its pages.
pub open spec fn mapping_sound(
    regions: Map<u64, u64>,
    cache: Map<u32, Seq<u8>>,
    mapping: MappingView,
) -> bool {
    &&& claim_fault(regions, mapping.page_start, mapping.page_end) is None
    &&& all_pages_known(cache, mapping.pages)
}

/// The mapping cannot be installed, and `error` says why: what is wrong with
/// its range or, if the range is in order, the first of its pages that the
/// cache does not hold.
pub open spec fn mapping_fault(
    regions: Map<u64, u64>,
    cache: Map<u32, Seq<u8>>,
    mapping: MappingView,
    error: IntegrityError,
) -> bool {
    match claim_fault(regions, mapping.page_start, mapping.page_end) {
        Some(fault) => error == fault,
        None => exists|i: int|
            #![trigger mapping.pages[i]]
            first_missing_page(cache, mapping.pages, i) && error == (
            IntegrityError::UnknownPage { page_id: mapping.pages[i] }),
    }
}

/// Each of the first `n` mappings can be installed once those before it have
/// claimed their ranges.
pub open spec fn sound_prefix(
    regions: Map<u64, u64>,
    cache: Map<u32, Seq<u8>>,
    mappings: Seq<MappingView>,
    n: int,
) -> bool {
    forall|i: int|
        0 <= i < n ==> mapping_sound(
            claims(regions, mappings.take(i)),
            cache,
            #[trigger] mappings[i],
        )
}

/// The first `n` mappings can be installed and the one after them cannot, for
/// the reason that `error` gives.
pub open spec fn first_fault(
    regions: Map<u64, u64>,
    cache: Map<u32, Seq<u8>>,
    mappings: Seq<MappingView>,
    n: int,
    error: IntegrityError,
) -> bool {
    &&& 0 <= n < mappings.len()
    &&& sound_prefix(regions, cache, mappings, n)
    &&& mapping_fault(claims(regions, mappings.take(n)), cache, mappings[n], error)
}

/// The regions claimed when mapping `n` is found at fault: those of the
/// mappings before it and, if its range was in order, its own.
pub open spec fn claims_at_fault(
    regions: Map<u64, u64>,
    mappings: Seq<MappingView>,
    n: int,
) -> Map<u64, u64> {
    let before = claims(regions, mappings.take(n));
    if claim_fault(before, mappings[n].page_start, mappings[n].page_end) is None {
        claims(regions, mappings.take(n + 1))
    } else {
        before
    }
}

/// What is handed to the memory subsystem for one mapping.
#[derive(Debug, PartialEq, Eq)]
pub struct RegionPlan {
    /// The claim on the addresses of the region.
    pub region: VirtualMemoryRegion,
    /// Whether this mapping is the first to claim the region.
    pub fresh: bool,
    /// The page-table flags of the region.
    pub flags: u64,
    /// The bytes to fill the region with, from its first address on.
    pub content: Vec<u8>,
}

/// The mathematical value of a [`RegionPlan`].
pub struct RegionPlanView {
    pub region: VirtualMemoryRegion,
    pub fresh: bool,
    pub flags: u64,
    pub content: Seq<u8>,
}

impl View for RegionPlan {
    type V = RegionPlanView;

    open spec fn view(&self) -> RegionPlanView {
        RegionPlanView {
            region: self.region,
            fresh: self.fresh,
            flags: self.flags,
            content: self.content@,
        }
    }
}

/// The part of the content that belongs to page `index` of a region: the
/// bytes of the content from `index` pages on, one page of them at most.
pub open spec fn page_part(content: Seq<u8>, index: nat) -> Seq<u8> {
    if index * PAGE_SIZE >= content.len() {
        Seq::empty()
    } else if (index + 1) * PAGE_SIZE >= content.len() {
        content.subrange(index * PAGE_SIZE, content.len() as int)
    } else {
        content.subrange(index * PAGE_SIZE, (index + 1) * PAGE_SIZE)
    }
}

impl RegionPlan {
    /// The part of the content that belongs to page `index` of the region.
    /// It is a whole page, except where the content ends; what lies beyond
    /// the content is empty.
    pub fn page(&self, index: usize) -> (part: &[u8])
        ensures
            part@ == page_part(self.content@, index as nat),
    {
        let len = self.content.len();
        let from = if index <= len / PAGE_SIZE {
            index * PAGE_SIZE
        } else {
            len
        };
        let to = if len - from > PAGE_SIZE {
            from + PAGE_SIZE
        } else {
            len
        };
        let part = vstd::slice::slice_subrange(self.content.as_slice(), from, to);
        assert(part@ =~= page_part(self.content@, index as nat));
        part
    }
}

/// The plan for a sound mapping, given the regions claimed before it.
pub open spec fn plan_of(
    regions: Map<u64, u64>,
    cache: Map<u32, Seq<u8>>,
    mapping: MappingView,
) -> RegionPlanView {
    RegionPlanView {
        region: VirtualMemoryRegion { start: mapping.page_start, end: mapping.page_end },
        fresh: !regions.contains_key(mapping.page_start),
        flags: protection_bits(mapping.perm_r, mapping.perm_w, mapping.perm_x),
        content: region_content(cache, mapping.pages),
    }
}

/// Each plan is the plan of the mapping at its place, given the regions that
/// the mappings before it have claimed.
pub open spec fn plans_follow(
    regions: Map<u64, u64>,
    cache: Map<u32, Seq<u8>>,
    mappings: Seq<MappingView>,
    plans: Seq<RegionPlan>,
) -> bool {
    forall|i: int|
        0 <= i < plans.len() ==> (#[trigger] plans[i])@ == plan_of(
            claims(regions, mappings.take(i)),
            cache,
            mappings[i],
        )
}

/// The regions claimed after a mapping was tried: its range is claimed
/// unless the range itself is at fault.
pub open spec fn claimed_by(regions: Map<u64, u64>, mapping: MappingView) -> Map<u64, u64> {
    if claim_fault(regions, mapping.page_start, mapping.page_end) is None {
        claimed(regions, mapping.page_start, mapping.page_end)
    } else {
        regions
    }
}

/// Why the address space cannot be installed further, with what is to be
/// installed before the machine stops: the plans of the mappings that come
/// before the faulty one, in order.
#[derive(Debug, PartialEq, Eq)]
pub struct SetupFault {
    pub plans: Vec<RegionPlan>,
    pub error: IntegrityError,
}

/// A claim stands: once a start is claimed, later mappings do not change its
/// end.
pub proof fn lemma_claims_stand(
    regions: Map<u64, u64>,
    mappings: Seq<MappingView>,
    n: int,
    m: int,
    start: u64,
)
    requires
        0 <= n <= m <= mappings.len(),
        claims(regions, mappings.take(n)).contains_key(start),
    ensures
        claims(regions, mappings.take(m)).contains_key(start),
        claims(regions, mappings.take(m))[start] == claims(regions, mappings.take(n))[start],
    decreases m - n,
{
    if n < m {
        lemma_claims_stand(regions, mappings, n, m - 1, start);
        assert(mappings.take(m).drop_last() =~= mappings.take(m - 1));
    }
}

/// Plans that follow the mappings still do so with the plan of the next
/// mapping after them.
pub proof fn lemma_plans_follow_next(
    regions: Map<u64, u64>,
    cache: Map<u32, Seq<u8>>,
    mappings: Seq<MappingView>,
    plans: Seq<RegionPlan>,
    plan: RegionPlan,
)
    requires
        plans_follow(regions, cache, mappings, plans),
        plan@ == plan_of(
            claims(regions, mappings.take(plans.len() as int)),
            cache,
            mappings[plans.len() as int],
        ),
    ensures
        plans_follow(regions, cache, mappings, plans.push(plan)),
{
    let more = plans.push(plan);
    assert forall|i: int| 0 <= i < more.len() implies (#[trigger] more[i])@ == plan_of(
        claims(regions, mappings.take(i)),
        cache,
        mappings[i],
    ) by {
        if i < plans.len() {
            assert(more[i] == plans[i]);
        }
    }
}

/// A sound prefix with a sound mapping after it is a sound prefix.
pub proof fn lemma_sound_prefix_next(
    regions: Map<u64, u64>,
    cache: Map<u32, Seq<u8>>,
    mappings: Seq<MappingView>,
    n: int,
)
    requires
        sound_prefix(regions, cache, mappings, n),
        mapping_sound(claims(regions, mappings.take(n)), cache, mappings[n]),
    ensures
        sound_prefix(regions, cache, mappings, n + 1),
{
}

/// The regions claimed after one more mapping are those claimed before it,
/// with its own claim.
pub proof fn lemma_claims_next(regions: Map<u64, u64>, mappings: Seq<MappingView>, i: int)
    requires
        0 <= i < mappings.len(),
    ensures
        claims(regions, mappings.take(i + 1)) == claimed(
            claims(regions, mappings.take(i)),
            mappings[i].page_start,
            mappings[i].page_end,
        ),
{
    assert(mappings.take(i + 1).drop_last() =~= mappings.take(i));
}

/// A sound mapping leaves its own range claimed.
pub proof fn lemma_claims_hold_mapping(
    regions: Map<u64, u64>,
    cache: Map<u32, Seq<u8>>,
    mappings: Seq<MappingView>,
    i: int,
)
    requires
        0 <= i < mappings.len(),
        mapping_sound(claims(regions, mappings.take(i)), cache, mappings[i]),
    ensures
        claims(regions, mappings.take(i + 1)).contains_key(mappings[i].page_start),
        claims(regions, mappings.take(i + 1))[mappings[i].page_start] == mappings[i].page_end,
{
    assert(mappings.take(i + 1).drop_last() =~= mappings.take(i));
}

/// A snapshot with a mapping that names a page absent from the cache cannot
/// be installed.
pub proof fn lemma_unknown_page_rejected(
    regions: Map<u64, u64>,
    cache: Map<u32, Seq<u8>>,
    mappings: Seq<MappingView>,
    i: int,
    k: int,
)
    requires
        0 <= i < mappings.len(),
        0 <= k < mappings[i].pages.len(),
        !cache.contains_key(mappings[i].pages[k]),
    ensures
        !sound_prefix(regions, cache, mappings, mappings.len() as int),
{
}

/// A snapshot with two mappings that start at the same address and end at
/// different addresses cannot be installed.
pub proof fn lemma_redefinition_rejected(
    regions: Map<u64, u64>,
    cache: Map<u32, Seq<u8>>,
    mappings: Seq<MappingView>,
    i: int,
    j: int,
)
    requires
        0 <= i < j < mappings.len(),
        mappings[i].page_start == mappings[j].page_start,
        mappings[i].page_end != mappings[j].page_end,
    ensures
        !sound_prefix(regions, cache, mappings, mappings.len() as int),
{
    if sound_prefix(regions, cache, mappings, mappings.len() as int) {
        lemma_claims_hold_mapping(regions, cache, mappings, i);
        lemma_claims_stand(regions, mappings, i + 1, j, mappings[i].page_start);
        assert(mapping_sound(claims(regions, mappings.take(j)), cache, mappings[j]));
    }
}

/// A mapping is not both sound and at fault, and it is at fault for one
/// reason only.
pub proof fn lemma_fault_is_definite(
    regions: Map<u64, u64>,
    cache: Map<u32, Seq<u8>>,
    mapping: MappingView,
    e1: IntegrityError,
    e2: IntegrityError,
)
    requires
        mapping_fault(regions, cache, mapping, e1),
    ensures
        !mapping_sound(regions, cache, mapping),
        mapping_fault(regions, cache, mapping, e2) ==> e1 == e2,
{
    if claim_fault(regions, mapping.page_start, mapping.page_end) is None {
        let i = choose|i: int|
            #![trigger mapping.pages[i]]
            first_missing_page(cache, mapping.pages, i) && e1 == (IntegrityError::UnknownPage {
                page_id: mapping.pages[i],
            });
        assert(!cache.contains_key(mapping.pages[i]));
        if mapping_fault(regions, cache, mapping, e2) {
            let j = choose|j: int|
                #![trigger mapping.pages[j]]
                first_missing_page(cache, mapping.pages, j) && e2 == (
                IntegrityError::UnknownPage { page_id: mapping.pages[j] });
            if i < j {
                assert(cache.contains_key(mapping.pages[i]));
            }
            if j < i {
                assert(cache.contains_key(mapping.pages[j]));
            }
        }
    }
}

/// The first fault of a snapshot is definite: there is one place and one
/// reason at most.
pub proof fn lemma_first_fault_is_definite(
    regions: Map<u64, u64>,
    cache: Map<u32, Seq<u8>>,
    mappings: Seq<MappingView>,
    n1: int,
    e1: IntegrityError,
    n2: int,
    e2: IntegrityError,
)
    requires
        first_fault(regions, cache, mappings, n1, e1),
        first_fault(regions, cache, mappings, n2, e2),
    ensures
        n1 == n2,
        e1 == e2,
{
    if n1 < n2 {
        assert(mapping_sound(claims(regions, mappings.take(n1)), cache, mappings[n1]));
        lemma_fault_is_definite(claims(regions, mappings.take(n1)), cache, mappings[n1], e1, e1);
    } else if n2 < n1 {
        assert(mapping_sound(claims(regions, mappings.take(n2)), cache, mappings[n2]));
        lemma_fault_is_definite(claims(regions, mappings.take(n2)), cache, mappings[n2], e2, e2);
    } else {
        lemma_fault_is_definite(claims(regions, mappings.take(n1)), cache, mappings[n1], e1, e2);
    }
}

/// No mapping starts where a region is claimed or where another mapping
/// starts, and each has a valid range.
pub open spec fn fresh_starts(regions: Map<u64, u64>, mappings: Seq<MappingView>) -> bool {
    &&& forall|i: int|
        0 <= i < mappings.len() ==> !regions.contains_key((#[trigger] mappings[i]).page_start)
            && VirtualMemoryRegion::valid_range(mappings[i].page_start, mappings[i].page_end)
    &&& forall|i: int, j: int|
        0 <= i < j < mappings.len() ==> (#[trigger] mappings[i]).page_start != (
        #[trigger] mappings[j]).page_start
}

/// What is claimed after some mappings was claimed before or is the start of
/// one of them.
pub proof fn lemma_claims_come_from_mappings(
    regions: Map<u64, u64>,
    mappings: Seq<MappingView>,
    n: int,
    start: u64,
)
    requires
        0 <= n <= mappings.len(),
        claims(regions, mappings.take(n)).contains_key(start),
    ensures
        regions.contains_key(start) || exists|i: int|
            0 <= i < n && (#[trigger] mappings[i]).page_start == start,
    decreases n,
{
    if n > 0 {
        lemma_claims_next(regions, mappings, n - 1);
        if claims(regions, mappings.take(n - 1)).contains_key(start) {
            lemma_claims_come_from_mappings(regions, mappings, n - 1, start);
        } else {
            assert(mappings[n - 1].page_start == start);
        }
    } else {
        assert(mappings.take(0) =~= Seq::<MappingView>::empty());
    }
}

/// Where no two mappings share a start, the snapshot fails at the first
/// mapping that names a page absent from the cache: the mappings before it
/// are sound, so their plans are handed out, and the fault lies at that
/// mapping and nowhere else.
pub proof fn lemma_fails_at_first_unknown_page(
    regions: Map<u64, u64>,
    cache: Map<u32, Seq<u8>>,
    mappings: Seq<MappingView>,
    k: int,
    n: int,
    e: IntegrityError,
)
    requires
        fresh_starts(regions, mappings),
        0 <= k < mappings.len(),
        !all_pages_known(cache, mappings[k].pages),
        forall|i: int| 0 <= i < k ==> all_pages_known(cache, (#[trigger] mappings[i]).pages),
    ensures
        sound_prefix(regions, cache, mappings, k),
        !mapping_sound(claims(regions, mappings.take(k)), cache, mappings[k]),
        first_fault(regions, cache, mappings, n, e) ==> n == k,
        first_fault(regions, cache, mappings, n, e) ==> e is UnknownPage && !cache.contains_key(
            e->UnknownPage_page_id,
        ),
{
    assert forall|i: int| 0 <= i < mappings.len() implies claim_fault(
        claims(regions, mappings.take(i)),
        (#[trigger] mappings[i]).page_start,
        mappings[i].page_end,
    ) is None by {
        let start = mappings[i].page_start;
        if claims(regions, mappings.take(i)).contains_key(start) {
            lemma_claims_come_from_mappings(regions, mappings, i, start);
        }
    }
    if first_fault(regions, cache, mappings, n, e) {
        if n < k {
            lemma_fault_is_definite(claims(regions, mappings.take(n)), cache, mappings[n], e, e);
        }
        if n > k {
            assert(mapping_sound(claims(regions, mappings.take(k)), cache, mappings[k]));
        }
    }
}

} // verus!
