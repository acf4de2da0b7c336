//! One migration session: it collects the pages and the snapshot of a frozen
//! process, plans the address space and prepares the return to user mode.

use crate::address_space::{
    all_pages_known, assemble, claim_fault, claimed, claimed_by, claims, claims_at_fault,
    first_fault, first_missing_page, lemma_claims_next, lemma_plans_follow_next,
    lemma_sound_prefix_next, mapping_fault, mapping_sound, plan_of, plans_follow,
    protection_flags, region_content, sound_prefix, RegionPlan, SetupFault, VirtualMemoryRegion,
};
use crate::error::{IntegrityError, ProtocolError, SessionError};
use crate::page_cache::{pages_whole, PageCache};
use crate::protocol::decode::decode_admin;
use crate::protocol::message::{
    mappings_view, AdminToNode, AdminToNodeView, Mapping, MappingView, NodeToAdmin, PAGE_SIZE,
};
use crate::protocol::wire::decoded;
use crate::userspace::{start_user_task, SavedRegs};
use std::collections::BTreeMap;
use vstd::prelude::*;

verus! {

/// How far the transfer has come.
#[derive(Clone, Copy, Debug, PartialEq, Eq, Structural)]
pub enum IngestState {
    /// Nothing was sent or received yet.
    AwaitingReady,
    /// The node has said that it is ready; pages are being received.
    Collecting,
    /// The snapshot has arrived.
    Finalized,
}

/// What happened on the connection.
#[derive(Clone, Debug, PartialEq, Eq)]
pub enum IngestEvent {
    /// The connection stands and nothing was exchanged yet.
    Begin,
    /// A message has arrived.
    Received(AdminToNode),
}

/// The mathematical value of an [`IngestEvent`].
pub enum IngestEventView {
    Begin,
    Received(AdminToNodeView),
}

impl View for IngestEvent {
    type V = IngestEventView;

    open spec fn view(&self) -> IngestEventView {
        match *self {
            IngestEvent::Begin => IngestEventView::Begin,
            IngestEvent::Received(message) => IngestEventView::Received(message@),
        }
    }
}

/// What to do on the connection next.
#[derive(Clone, Copy, Debug, PartialEq, Eq, Structural)]
pub enum IngestAction {
    /// Send the message, then wait for the next one.
    Send(NodeToAdmin),
    /// Wait for the next message.
    Receive,
    /// The transfer is complete.
    Done,
}

/// The claim that a mapping has on its region.
#[derive(Clone, Copy, Debug, PartialEq, Eq, Structural)]
pub struct RegionClaim {
    pub region: VirtualMemoryRegion,
    /// Whether this is the first claim on the region.
    pub fresh: bool,
}

/// The state of one session.
pub struct Session {
    state: IngestState,
    page_cache: PageCache,
    regs: SavedRegs,
    mappings: Vec<Mapping>,
    vmem_ranges: BTreeMap<u64, VirtualMemoryRegion>,
}

/// The mathematical value of a [`Session`].
pub struct SessionView {
    pub state: IngestState,
    /// The pages received, by identifier.
    pub cache: Map<u32, Seq<u8>>,
    /// The registers of the snapshot; zero until it has arrived.
    pub regs: SavedRegs,
    /// The mappings of the snapshot; none until it has arrived.
    pub mappings: Seq<MappingView>,
    /// The regions claimed: each start with its end.
    pub regions: Map<u64, u64>,
}

impl View for Session {
    type V = SessionView;

    closed spec fn view(&self) -> SessionView {
        SessionView {
            state: self.state,
            cache: self.page_cache@,
            regs: self.regs,
            mappings: mappings_view(self.mappings@),
            regions: self.vmem_ranges@.map_values(|region: VirtualMemoryRegion| region.end),
        }
    }
}

/// The step of the transfer: the session after `event` and what to do next,
/// or why the session has failed.
pub open spec fn ingest(session: SessionView, event: IngestEventView) -> Result<
    (SessionView, IngestAction),
    SessionError,
> {
    match (session.state, event) {
        (IngestState::AwaitingReady, IngestEventView::Begin) => Ok(
            (
                SessionView { state: IngestState::Collecting, ..session },
                IngestAction::Send(NodeToAdmin::Ready),
            ),
        ),
        (
            IngestState::Collecting,
            IngestEventView::Received(AdminToNodeView::PushPage { page_id, page }),
        ) => if page.len() == PAGE_SIZE {
            Ok(
                (
                    SessionView { cache: session.cache.insert(page_id, page), ..session },
                    IngestAction::Receive,
                ),
            )
        } else {
            Err(
                SessionError::Integrity(
                    IntegrityError::WrongPageLength { page_id, len: page.len() as usize },
                ),
            )
        },
        (
            IngestState::Collecting,
            IngestEventView::Received(AdminToNodeView::PushSnapshot { regs, mappings }),
        ) => Ok(
            (
                SessionView { state: IngestState::Finalized, regs, mappings, ..session },
                IngestAction::Done,
            ),
        ),
        _ => Err(SessionError::Protocol(ProtocolError::OutOfOrder)),
    }
}

impl Session {
    /// The invariant of a session: every cached page is whole, and every
    /// claimed region is keyed by its start and is a valid range.
    pub closed spec fn wf(&self) -> bool {
        &&& self.page_cache.wf()
        &&& forall|start: u64| #[trigger]
            self.vmem_ranges@.contains_key(start) ==> self.vmem_ranges@[start].start == start
                && self.vmem_ranges@[start].wf()
    }

    /// What the invariant says of the value of a session.
    pub proof fn lemma_wf(&self)
        requires
            self.wf(),
        ensures
            pages_whole(self@.cache),
            forall|start: u64| #[trigger]
                self@.regions.contains_key(start) ==> VirtualMemoryRegion::valid_range(
                    start,
                    self@.regions[start],
                ),
    {
    }

    /// A session on which nothing has happened yet.
    pub fn new() -> (session: Session)
        ensures
            session.wf(),
            session@ == (SessionView {
                state: IngestState::AwaitingReady,
                cache: Map::empty(),
                regs: SavedRegs::zeroed(),
                mappings: Seq::empty(),
                regions: Map::empty(),
            }),
    {
        let session = Session {
            state: IngestState::AwaitingReady,
            page_cache: PageCache::new(),
            regs: SavedRegs::default(),
            mappings: Vec::new(),
            vmem_ranges: BTreeMap::new(),
        };
        assert(session@.mappings =~= Seq::empty());
        assert(session@.regions =~= Map::empty());
        session
    }

    /// Takes the transfer one step further. At the beginning the node says
    /// that it is ready. After that each page is admitted to the cache, and
    /// the snapshot is recorded and ends the transfer, however many pages came
    /// before it. A page of the wrong size, and any event out of its turn,
    /// fails the session and leaves it unchanged.
    pub fn recv_snapshot(&mut self, event: IngestEvent) -> (r: Result<IngestAction, SessionError>)
        requires
            old(self).wf(),
        ensures
            final(self).wf(),
            match ingest(old(self)@, event@) {
                Ok((next, action)) => r == Ok::<IngestAction, SessionError>(action)
                    && final(self)@ == next,
                Err(e) => r == Err::<IngestAction, SessionError>(e)
                    && final(self)@ == old(self)@,
            },
    {
        match self.state {
            IngestState::AwaitingReady => match event {
                IngestEvent::Begin => {
                    self.state = IngestState::Collecting;
                    Ok(IngestAction::Send(NodeToAdmin::Ready))
                },
                IngestEvent::Received(_) => Err(SessionError::Protocol(ProtocolError::OutOfOrder)),
            },
            IngestState::Collecting => match event {
                IngestEvent::Begin => Err(SessionError::Protocol(ProtocolError::OutOfOrder)),
                IngestEvent::Received(AdminToNode::PushPage { page_id, page }) => {
                    match self.page_cache.insert(page_id, page) {
                        Ok(()) => Ok(IngestAction::Receive),
                        Err(e) => Err(SessionError::Integrity(e)),
                    }
                },
                IngestEvent::Received(AdminToNode::PushSnapshot { regs, mappings }) => {
                    self.regs = regs;
                    self.mappings = mappings;
                    self.state = IngestState::Finalized;
                    Ok(IngestAction::Done)
                },
            },
            IngestState::Finalized => Err(SessionError::Protocol(ProtocolError::OutOfOrder)),
        }
    }

    /// Takes the transfer one step further with the payload of a frame that
    /// has arrived: the payload is decoded, and the message that it carries is
    /// handled as [`Session::recv_snapshot`] handles it. A payload that is the
    /// wire form of no message fails the session and leaves it unchanged.
    pub fn recv(&mut self, payload: &[u8]) -> (r: Result<IngestAction, SessionError>)
        requires
            old(self).wf(),
        ensures
            final(self).wf(),
            match decoded::<AdminToNodeView>(payload@) {
                Some(message) => match ingest(old(self)@, IngestEventView::Received(message)) {
                    Ok((next, action)) => r == Ok::<IngestAction, SessionError>(action)
                        && final(self)@ == next,
                    Err(e) => r == Err::<IngestAction, SessionError>(e)
                        && final(self)@ == old(self)@,
                },
                None => r == Err::<IngestAction, SessionError>(
                    SessionError::Protocol(ProtocolError::Malformed),
                ) && final(self)@ == old(self)@,
            },
    {
        match decode_admin(payload) {
            Ok(message) => self.recv_snapshot(IngestEvent::Received(message)),
            Err(e) => Err(SessionError::Protocol(e)),
        }
    }

    /// How far the transfer has come.
    pub fn state(&self) -> (r: IngestState)
        ensures
            r == self@.state,
    {
        self.state
    }

    /// The page cache.
    pub fn page_cache(&self) -> (r: &PageCache)
        ensures
            r@ == self@.cache,
    {
        &self.page_cache
    }

    /// The registers of the snapshot.
    pub fn regs(&self) -> (r: SavedRegs)
        ensures
            r == self@.regs,
    {
        self.regs
    }

    /// The mappings of the snapshot.
    pub fn mappings(&self) -> (r: &Vec<Mapping>)
        ensures
            mappings_view(r@) == self@.mappings,
    {
        &self.mappings
    }

    /// Claims the addresses from `start` to `end` for a mapping. The first
    /// claim for a start is recorded; a later claim for the same start must
    /// name the same end.
    pub fn user_range(&mut self, start: u64, end: u64) -> (r: Result<RegionClaim, IntegrityError>)
        requires
            old(self).wf(),
        ensures
            final(self).wf(),
            final(self)@ == (SessionView { regions: final(self)@.regions, ..old(self)@ }),
            match r {
                Ok(claim) => {
                    &&& claim_fault(old(self)@.regions, start, end) is None
                    &&& claim.region == (VirtualMemoryRegion { start, end })
                    &&& claim.fresh == !old(self)@.regions.contains_key(start)
                    &&& final(self)@.regions == claimed(old(self)@.regions, start, end)
                },
                Err(e) => {
                    &&& claim_fault(old(self)@.regions, start, end) == Some(e)
                    &&& final(self)@.regions == old(self)@.regions
                },
            },
    {
        let region = match VirtualMemoryRegion::take_range(start, end) {
            Some(region) => region,
            None => {
                return Err(IntegrityError::InvalidRange { start, end });
            },
        };
        let known = match self.vmem_ranges.get(&start) {
            Some(existing) => Some(*existing),
            None => None,
        };
        match known {
            Some(existing) => {
                if existing.end != end {
                    Err(IntegrityError::InconsistentRegion { start })
                } else {
                    Ok(RegionClaim { region: existing, fresh: false })
                }
            },
            None => {
                self.vmem_ranges.insert(start, region);
                assert(self@.regions =~= old(self)@.regions.insert(start, end));
                Ok(RegionClaim { region, fresh: true })
            },
        }
    }

    /// Plans one mapping of the snapshot, the one at `index`: the claim on its
    /// region, its page-table flags and its content, put together from the
    /// cached pages. The mappings are planned one after the other, in the
    /// order received, each to be installed before the next is planned. A
    /// mapping that cannot be installed gives the reason; its range stays
    /// claimed unless the range itself is at fault.
    pub fn plan_mapping(&mut self, index: usize) -> (r: Result<RegionPlan, IntegrityError>)
        requires
            old(self).wf(),
            index < old(self)@.mappings.len(),
        ensures
            final(self).wf(),
            final(self)@ == (SessionView { regions: final(self)@.regions, ..old(self)@ }),
            final(self)@.regions == claimed_by(
                old(self)@.regions,
                old(self)@.mappings[index as int],
            ),
            match r {
                Ok(plan) => mapping_sound(
                    old(self)@.regions,
                    old(self)@.cache,
                    old(self)@.mappings[index as int],
                ) && plan@ == plan_of(
                    old(self)@.regions,
                    old(self)@.cache,
                    old(self)@.mappings[index as int],
                ),
                Err(e) => mapping_fault(
                    old(self)@.regions,
                    old(self)@.cache,
                    old(self)@.mappings[index as int],
                    e,
                ),
            },
    {
        let ghost before = self@;
        let ghost mapping = before.mappings[index as int];
        assert(mapping == self.mappings[index as int]@);
        let start = self.mappings[index].page_start;
        let end = self.mappings[index].page_end;
        let claim = match self.user_range(start, end) {
            Ok(claim) => claim,
            Err(e) => {
                return Err(e);
            },
        };
        let flags = protection_flags(
            self.mappings[index].perm_r,
            self.mappings[index].perm_w,
            self.mappings[index].perm_x,
        );
        match assemble(&self.page_cache, &self.mappings[index].pages) {
            Ok(content) => Ok(
                RegionPlan { region: claim.region, fresh: claim.fresh, flags, content },
            ),
            Err(e) => {
                proof {
                    let pages = self.mappings[index as int].pages@;
                    assert(pages == mapping.pages);
                    assert(self.page_cache@ == before.cache);
                    let k = choose|k: int|
                        #![trigger pages[k]]
                        first_missing_page(before.cache, pages, k) && e == (
                        IntegrityError::UnknownPage { page_id: pages[k] });
                    assert(first_missing_page(before.cache, mapping.pages, k));
                    assert(e == (IntegrityError::UnknownPage { page_id: mapping.pages[k] }));
                }
                Err(e)
            },
        }
    }

    /// Plans the address space of the snapshot: every mapping, in the order
    /// received. The first mapping that cannot be installed ends the
    /// planning: the fault names the reason and carries the plans of the
    /// mappings before it, which are those to install before the machine
    /// stops; the mappings from the faulty one on are not planned. The ranges
    /// claimed up to then stay claimed.
    pub fn setup_pages(&mut self) -> (r: Result<Vec<RegionPlan>, SetupFault>)
        requires
            old(self).wf(),
        ensures
            final(self).wf(),
            final(self)@ == (SessionView { regions: final(self)@.regions, ..old(self)@ }),
            match r {
                Ok(plans) => {
                    let before = old(self)@;
                    &&& sound_prefix(
                        before.regions,
                        before.cache,
                        before.mappings,
                        before.mappings.len() as int,
                    )
                    &&& plans@.len() == before.mappings.len()
                    &&& plans_follow(before.regions, before.cache, before.mappings, plans@)
                    &&& final(self)@.regions == claims(before.regions, before.mappings)
                },
                Err(fault) => {
                    let before = old(self)@;
                    let n = fault.plans@.len() as int;
                    &&& first_fault(before.regions, before.cache, before.mappings, n, fault.error)
                    &&& plans_follow(before.regions, before.cache, before.mappings, fault.plans@)
                    &&& final(self)@.regions == claims_at_fault(
                        before.regions,
                        before.mappings,
                        n,
                    )
                },
            },
    {
        let ghost before = self@;
        let mut plans: Vec<RegionPlan> = Vec::new();
        let mut i: usize = 0;
        proof {
            assert(before.mappings.take(0) =~= Seq::empty());
        }
        while i < self.mappings.len()
            invariant
                self.wf(),
                before == old(self)@,
                self@ == (SessionView { regions: self@.regions, ..before }),
                i <= before.mappings.len(),
                before.mappings.len() == self.mappings.len(),
                self@.regions == claims(before.regions, before.mappings.take(i as int)),
                sound_prefix(before.regions, before.cache, before.mappings, i as int),
                plans@.len() == i,
                plans_follow(before.regions, before.cache, before.mappings, plans@),
            decreases self.mappings.len() - i,
        {
            let ghost planned = plans@;
            let ghost claimed_before = self@.regions;
            let ghost mapping = before.mappings[i as int];
            proof {
                lemma_claims_next(before.regions, before.mappings, i as int);
            }
            match self.plan_mapping(i) {
                Ok(plan) => {
                    let ghost plan_view = plan;
                    plans.push(plan);
                    proof {
                        lemma_sound_prefix_next(
                            before.regions,
                            before.cache,
                            before.mappings,
                            i as int,
                        );
                        lemma_plans_follow_next(
                            before.regions,
                            before.cache,
                            before.mappings,
                            planned,
                            plan_view,
                        );
                    }
                },
                Err(error) => {
                    proof {
                        assert(mapping_fault(claimed_before, before.cache, mapping, error));
                        assert(first_fault(
                            before.regions,
                            before.cache,
                            before.mappings,
                            i as int,
                            error,
                        ));
                        assert(self@.regions == claims_at_fault(
                            before.regions,
                            before.mappings,
                            i as int,
                        ));
                    }
                    return Err(SetupFault { plans, error });
                },
            }
            i += 1;
        }
        proof {
            assert(before.mappings.take(i as int) =~= before.mappings);
        }
        Ok(plans)
    }

    /// The registers with which the process is resumed.
    pub fn run(&self) -> (entry: SavedRegs)
        ensures
            entry == self@.regs.user_entry(),
    {
        start_user_task(self.regs)
    }
}

/// The session after a sequence of events, or why it has failed.
pub open spec fn ingest_all(session: SessionView, events: Seq<IngestEventView>) -> Result<
    SessionView,
    SessionError,
>
    decreases events.len(),
{
    if events.len() == 0 {
        Ok(session)
    } else {
        match ingest_all(session, events.drop_last()) {
            Ok(so_far) => match ingest(so_far, events.last()) {
                Ok((next, _)) => Ok(next),
                Err(e) => Err(e),
            },
            Err(e) => Err(e),
        }
    }
}

/// The events of receiving each of `pushes` as a page, in order. A push is a
/// page identifier with the content of the page.
pub open spec fn page_events(pushes: Seq<(u32, Seq<u8>)>) -> Seq<IngestEventView> {
    Seq::new(
        pushes.len(),
        |i: int|
            IngestEventView::Received(
                AdminToNodeView::PushPage { page_id: pushes[i].0, page: pushes[i].1 },
            ),
    )
}

/// Push `i` is the last one with its page identifier.
pub open spec fn last_push(pushes: Seq<(u32, Seq<u8>)>, i: int) -> bool {
    &&& 0 <= i < pushes.len()
    &&& forall|j: int| i < j < pushes.len() ==> (#[trigger] pushes[j]).0 != pushes[i].0
}

/// Some push has the page identifier `page_id`.
pub open spec fn pushed(pushes: Seq<(u32, Seq<u8>)>, page_id: u32) -> bool {
    exists|i: int| 0 <= i < pushes.len() && (#[trigger] pushes[i]).0 == page_id
}

/// A collecting session admits any sequence of whole pages. Afterwards the
/// cache holds, under each identifier that was pushed, the content of the
/// last push with that identifier, and what it held before under every other
/// identifier.
pub proof fn lemma_pages_collected(session: SessionView, pushes: Seq<(u32, Seq<u8>)>)
    requires
        session.state == IngestState::Collecting,
        forall|i: int| 0 <= i < pushes.len() ==> (#[trigger] pushes[i]).1.len() == PAGE_SIZE,
    ensures
        ingest_all(session, page_events(pushes)) is Ok,
        ({
            let end = ingest_all(session, page_events(pushes))->Ok_0;
            &&& end == (SessionView { cache: end.cache, ..session })
            &&& forall|page_id: u32|
                #![trigger end.cache.contains_key(page_id)]
                end.cache.contains_key(page_id) <==> session.cache.contains_key(page_id)
                    || pushed(pushes, page_id)
            &&& forall|page_id: u32|
                #![trigger end.cache[page_id]]
                session.cache.contains_key(page_id) && !pushed(pushes, page_id)
                    ==> end.cache[page_id] == session.cache[page_id]
            &&& forall|i: int| #[trigger]
                last_push(pushes, i) ==> end.cache.contains_key(pushes[i].0)
                    && end.cache[pushes[i].0] == pushes[i].1
        }),
    decreases pushes.len(),
{
    if pushes.len() > 0 {
        let earlier = pushes.drop_last();
        let (last_id, last_page) = pushes.last();
        lemma_pages_collected(session, earlier);
        assert(page_events(pushes).drop_last() =~= page_events(earlier));
        let so_far = ingest_all(session, page_events(earlier))->Ok_0;
        let events = page_events(pushes);
        assert(events.last() == IngestEventView::Received(
            AdminToNodeView::PushPage { page_id: last_id, page: last_page },
        ));
        assert(pushes[pushes.len() - 1].1.len() == PAGE_SIZE);
        assert(so_far.state == IngestState::Collecting);
        assert(ingest(so_far, events.last()) is Ok);
        let end = ingest_all(session, events)->Ok_0;
        assert(end == ingest(so_far, events.last())->Ok_0.0);
        assert(end.cache == so_far.cache.insert(last_id, last_page));
        assert forall|page_id: u32| pushed(pushes, page_id) <==> pushed(earlier, page_id)
            || page_id == last_id by {
            if pushed(earlier, page_id) {
                let i = choose|i: int|
                    0 <= i < earlier.len() && (#[trigger] earlier[i]).0 == page_id;
                assert(pushes[i].0 == page_id);
            }
            if page_id == last_id {
                assert(pushes[pushes.len() - 1].0 == page_id);
            }
            if pushed(pushes, page_id) && page_id != last_id {
                let i = choose|i: int|
                    0 <= i < pushes.len() && (#[trigger] pushes[i]).0 == page_id;
                assert(earlier[i].0 == page_id);
            }
        }
        assert forall|page_id: u32|
            #![trigger end.cache.contains_key(page_id)]
            end.cache.contains_key(page_id) <==> session.cache.contains_key(page_id) || pushed(
                pushes,
                page_id,
            ) by {
            assert(so_far.cache.contains_key(page_id) <==> session.cache.contains_key(page_id)
                || pushed(earlier, page_id));
            assert(pushed(pushes, page_id) <==> pushed(earlier, page_id) || page_id == last_id);
        }
        assert forall|page_id: u32|
            #![trigger end.cache[page_id]]
            session.cache.contains_key(page_id) && !pushed(
                pushes,
                page_id,
            ) implies end.cache[page_id] == session.cache[page_id] by {
            assert(pushed(pushes, page_id) <==> pushed(earlier, page_id) || page_id == last_id);
            assert(so_far.cache[page_id] == session.cache[page_id]);
        }
        assert forall|i: int| #[trigger] last_push(pushes, i) implies end.cache.contains_key(
            pushes[i].0,
        ) && end.cache[pushes[i].0] == pushes[i].1 by {
            if i < earlier.len() {
                assert(pushes[pushes.len() - 1].0 != pushes[i].0);
                assert forall|j: int| i < j < earlier.len() implies (#[trigger] earlier[j]).0
                    != earlier[i].0 by {
                    assert(pushes[j].0 != pushes[i].0);
                }
                assert(last_push(earlier, i));
            }
        }
    }
}

/// For any sequence of whole pages followed by a snapshot, the session ends
/// finalized with the registers and the mappings of the snapshot, and its
/// cache holds, under each identifier that was pushed, the content of the last
/// push with that identifier.
pub proof fn lemma_last_push_wins(
    session: SessionView,
    pushes: Seq<(u32, Seq<u8>)>,
    regs: SavedRegs,
    mappings: Seq<MappingView>,
)
    requires
        session.state == IngestState::Collecting,
        forall|i: int| 0 <= i < pushes.len() ==> (#[trigger] pushes[i]).1.len() == PAGE_SIZE,
    ensures
        ingest_all(
            session,
            page_events(pushes).push(
                IngestEventView::Received(AdminToNodeView::PushSnapshot { regs, mappings }),
            ),
        ) is Ok,
        ({
            let end = ingest_all(
                session,
                page_events(pushes).push(
                    IngestEventView::Received(AdminToNodeView::PushSnapshot { regs, mappings }),
                ),
            )->Ok_0;
            &&& end.state == IngestState::Finalized
            &&& end.regs == regs
            &&& end.mappings == mappings
            &&& end.regions == session.regions
            &&& forall|page_id: u32|
                #![trigger end.cache.contains_key(page_id)]
                end.cache.contains_key(page_id) <==> session.cache.contains_key(page_id)
                    || pushed(pushes, page_id)
            &&& forall|i: int| #[trigger]
                last_push(pushes, i) ==> end.cache.contains_key(pushes[i].0)
                    && end.cache[pushes[i].0] == pushes[i].1
        }),
{
    lemma_pages_collected(session, pushes);
    let events = page_events(pushes).push(
        IngestEventView::Received(AdminToNodeView::PushSnapshot { regs, mappings }),
    );
    assert(events.drop_last() =~= page_events(pushes));
}

/// The node says that it is ready before it admits anything: a session on
/// which nothing has happened refuses every message, and the one event that
/// it admits has it send `Ready`.
pub proof fn lemma_ready_comes_first(session: SessionView, event: IngestEventView)
    requires
        session.state == IngestState::AwaitingReady,
    ensures
        event is Received ==> ingest(session, event) == Err::<
            (SessionView, IngestAction),
            SessionError,
        >(SessionError::Protocol(ProtocolError::OutOfOrder)),
        event is Begin ==> ingest(session, event) == Ok::<
            (SessionView, IngestAction),
            SessionError,
        >(
            (
                SessionView { state: IngestState::Collecting, ..session },
                IngestAction::Send(NodeToAdmin::Ready),
            ),
        ),
{
}

/// A session admits pages only while it collects, and it collects only after
/// it has sent `Ready`: whenever a sequence of events is admitted and one of
/// them is a message, the first event is the beginning.
pub proof fn lemma_messages_follow_ready(session: SessionView, events: Seq<IngestEventView>)
    requires
        session.state == IngestState::AwaitingReady,
        ingest_all(session, events) is Ok,
        events.len() > 0,
    ensures
        events[0] is Begin,
    decreases events.len(),
{
    reveal_with_fuel(ingest_all, 2);
    if events.len() > 1 {
        lemma_messages_follow_ready(session, events.drop_last());
        assert(events.drop_last()[0] == events[0]);
    } else {
        assert(events.drop_last().len() == 0);
        assert(events.last() == events[0]);
    }
}

/// A snapshot may come before any page. If none of its mappings names a
/// page, no mapping lacks a page, and the content of each region is empty.
pub proof fn lemma_snapshot_without_pages(regs: SavedRegs, mappings: Seq<MappingView>)
    requires
        forall|i: int| 0 <= i < mappings.len() ==> (#[trigger] mappings[i]).pages.len() == 0,
    ensures
        ({
            let fresh = SessionView {
                state: IngestState::AwaitingReady,
                cache: Map::empty(),
                regs: SavedRegs::zeroed(),
                mappings: Seq::empty(),
                regions: Map::empty(),
            };
            let events = seq![
                IngestEventView::Begin,
                IngestEventView::Received(AdminToNodeView::PushSnapshot { regs, mappings }),
            ];
            &&& ingest_all(fresh, events) == Ok::<SessionView, SessionError>(
                SessionView { state: IngestState::Finalized, regs, mappings, ..fresh },
            )
            &&& forall|i: int|
                0 <= i < mappings.len() ==> all_pages_known(
                    Map::<u32, Seq<u8>>::empty(),
                    (#[trigger] mappings[i]).pages,
                ) && region_content(Map::<u32, Seq<u8>>::empty(), mappings[i].pages)
                    == Seq::<u8>::empty()
        }),
{
    let fresh = SessionView {
        state: IngestState::AwaitingReady,
        cache: Map::empty(),
        regs: SavedRegs::zeroed(),
        mappings: Seq::empty(),
        regions: Map::empty(),
    };
    let events = seq![
        IngestEventView::Begin,
        IngestEventView::Received(AdminToNodeView::PushSnapshot { regs, mappings }),
    ];
    assert(events.drop_last() =~= seq![IngestEventView::Begin]);
    assert(events.drop_last().drop_last() =~= Seq::empty());
    reveal_with_fuel(ingest_all, 3);
    assert forall|i: int| 0 <= i < mappings.len() implies region_content(
        Map::<u32, Seq<u8>>::empty(),
        (#[trigger] mappings[i]).pages,
    ) == Seq::<u8>::empty() by {
        assert(region_content(Map::<u32, Seq<u8>>::empty(), mappings[i].pages) =~= Seq::<
            u8,
        >::empty());
    }
}

} // verus!
