//! A directory tree held in memory, and what a scan of it yields.
//!
//! A [`FsNode`] records of each entry what a driver would see of it on the
//! file system: what it is, whether it opens, what it holds, what decoding it
//! gives and where its path resolves. [`scan_tree`] drives a
//! [`Walker`](crate::walker::Walker) over such a tree and passes every item
//! through the [`pipeline`](crate::pipeline). What comes out is stated by
//! [`trace_node`], which follows the shape of the tree.

use crate::entry::{text_of, ItemView, WalkItem};
use crate::fingerprint::{GridView, PixelGrid};
use crate::pipeline::{
    decoded_view, effects_view, item_effects, process, resolved_view, Effect, EffectView,
};
use crate::policy::TraversalPolicy;
use crate::walker::{
    counted, entry_of, frame_of, next, shown, verdict, yielded, Command, EntryReport, FrameView,
    Phase, ReportView, Response, Verdict, Walker,
};
use vstd::prelude::*;

verus! {

/// An entry of a tree.
#[derive(Debug)]
pub struct FsNode {
    /// What examining the entry gives.
    pub report: EntryReport,
    /// For a directory that cannot be opened, the description of why.
    pub open_error: Option<String>,
    /// For a directory, what listing it gives, in order.
    pub children: Vec<FsSlot>,
    /// What decoding the entry as an image gives.
    pub decoded: Result<PixelGrid, String>,
    /// What resolving the path of the entry gives.
    pub canonical: Result<String, String>,
}

/// One place in the listing of a directory.
#[derive(Debug)]
pub enum FsSlot {
    /// An entry.
    Node(FsNode),
    /// An entry that could not be read, with the description of why.
    Unreadable(String),
}

/// The mathematical content of an [`FsNode`].
pub struct Tree {
    pub report: ReportView,
    pub open_error: Option<Seq<char>>,
    pub children: Seq<Slot>,
    pub decoded: Result<GridView, Seq<char>>,
    pub canonical: Result<Seq<char>, Seq<char>>,
}

/// The mathematical content of an [`FsSlot`].
pub enum Slot {
    Node(Tree),
    Unreadable(Seq<char>),
}

/// The content of a node.
pub open spec fn tree_of(node: FsNode) -> Tree
    decreases node, 0nat,
{
    Tree {
        report: node.report@,
        open_error: text_of(node.open_error),
        children: slots_of(node.children@, node.children@.len()),
        decoded: decoded_view(node.decoded),
        canonical: resolved_view(node.canonical),
    }
}

/// The contents of the first `n` places of a listing.
pub open spec fn slots_of(slots: Seq<FsSlot>, n: nat) -> Seq<Slot>
    decreases slots, n,
{
    if n == 0 || n > slots.len() {
        Seq::empty()
    } else {
        slots_of(slots, (n - 1) as nat).push(
            match slots[n - 1] {
                FsSlot::Node(node) => Slot::Node(tree_of(node)),
                FsSlot::Unreadable(description) => Slot::Unreadable(description@),
            },
        )
    }
}

impl View for FsNode {
    type V = Tree;

    open spec fn view(&self) -> Tree {
        tree_of(*self)
    }
}

impl View for FsSlot {
    type V = Slot;

    open spec fn view(&self) -> Slot {
        match self {
            FsSlot::Node(node) => Slot::Node(tree_of(*node)),
            FsSlot::Unreadable(description) => Slot::Unreadable(description@),
        }
    }
}

/// An item of a traversal together with the effects that it led to.
#[derive(Clone, Debug, PartialEq, Eq)]
pub struct ScanEvent {
    pub item: WalkItem,
    pub effects: Vec<Effect>,
}

/// The mathematical content of a [`ScanEvent`].
pub struct EventView {
    pub item: ItemView,
    pub effects: Seq<EffectView>,
}

impl View for ScanEvent {
    type V = EventView;

    open spec fn view(&self) -> EventView {
        EventView { item: self.item@, effects: effects_view(self.effects@) }
    }
}

/// The contents of a sequence of events.
pub open spec fn events_view(events: Seq<ScanEvent>) -> Seq<EventView> {
    events.map_values(|event: ScanEvent| event@)
}

/// What a scan went through.
#[derive(Debug)]
pub struct Trace {
    /// The items that the traversal yielded, each with its effects, in order.
    pub events: Vec<ScanEvent>,
    /// The greatest number of directory handles that were open at once.
    pub peak_handles: usize,
}

/// The event of an item that was yielded for an entry of the tree.
pub open spec fn event_of(item: ItemView, tree: Tree) -> EventView {
    EventView { item, effects: item_effects(item, tree.decoded, tree.canonical) }
}

/// The events of what a step yielded for an entry: one, or none.
pub open spec fn events_of(item: Option<ItemView>, tree: Tree) -> Seq<EventView> {
    match item {
        Some(i) => seq![event_of(i, tree)],
        None => Seq::empty(),
    }
}

/// The event of something that could not be read.
pub open spec fn failure_event(description: Seq<char>) -> EventView {
    EventView {
        item: ItemView::Failure(description),
        effects: crate::pipeline::diagnosis(description),
    }
}

/// What a scan yields of an entry that is found below the given frames, and of
/// everything below it, in a tree whose root lies on `root_device`.
///
/// An entry that is not descended into gives what its verdict gives: nothing
/// where it is pruned, a failure where it is a broken link or closes a loop,
/// and itself otherwise, where it lies deep enough. A directory that is
/// descended into and does not open gives one failure in its place. One that
/// opens gives itself, where it lies deep enough, and then what its listing
/// gives.
pub open spec fn trace_node(
    policy: TraversalPolicy,
    root_device: u64,
    frames: Seq<FrameView>,
    tree: Tree,
) -> Seq<EventView>
    decreases tree, 0nat,
{
    let ruling = verdict(policy, root_device, frames, tree.report);
    if ruling != Verdict::Descend {
        events_of(yielded(policy, frames, tree.report, ruling), tree)
    } else {
        match tree.open_error {
            Some(description) => seq![failure_event(description)],
            None => events_of(shown(policy, entry_of(tree.report, frames.len(), true)), tree)
                + trace_slots(
                policy,
                root_device,
                frames.push(frame_of(tree.report)),
                tree.children,
                tree.children.len(),
            ),
        }
    }
}

/// What a scan yields of the first `n` places of a listing, in order: for an
/// entry what `trace_node` says, and for a place that could not be read one
/// failure.
pub open spec fn trace_slots(
    policy: TraversalPolicy,
    root_device: u64,
    frames: Seq<FrameView>,
    slots: Seq<Slot>,
    n: nat,
) -> Seq<EventView>
    decreases slots, n,
{
    if n == 0 || n > slots.len() {
        Seq::empty()
    } else {
        trace_slots(policy, root_device, frames, slots, (n - 1) as nat) + trace_slot(
            policy,
            root_device,
            frames,
            slots[n - 1],
        )
    }
}

/// What a scan yields of one place of a listing.
pub open spec fn trace_slot(
    policy: TraversalPolicy,
    root_device: u64,
    frames: Seq<FrameView>,
    slot: Slot,
) -> Seq<EventView>
    decreases slot, 1nat,
{
    match slot {
        Slot::Node(tree) => trace_node(policy, root_device, frames, tree),
        Slot::Unreadable(description) => seq![failure_event(description)],
    }
}

/// The larger of two numbers.
pub open spec fn larger(a: int, b: int) -> int {
    if a >= b {
        a
    } else {
        b
    }
}

/// The smaller of two numbers.
pub open spec fn smaller(a: int, b: int) -> int {
    if a <= b {
        a
    } else {
        b
    }
}

/// The greatest number of directories that a scan lists at one time, one
/// inside the other, while it is at an entry found below the given frames or
/// anywhere below it; 0 where the scan opens nothing there.
pub open spec fn nesting_node(
    policy: TraversalPolicy,
    root_device: u64,
    frames: Seq<FrameView>,
    tree: Tree,
) -> int
    decreases tree, 0nat,
{
    if verdict(policy, root_device, frames, tree.report) == Verdict::Descend
        && tree.open_error is None {
        larger(
            frames.len() as int + 1,
            nesting_slots(
                policy,
                root_device,
                frames.push(frame_of(tree.report)),
                tree.children,
                tree.children.len(),
            ),
        )
    } else {
        0
    }
}

/// The greatest such number over the first `n` places of a listing.
pub open spec fn nesting_slots(
    policy: TraversalPolicy,
    root_device: u64,
    frames: Seq<FrameView>,
    slots: Seq<Slot>,
    n: nat,
) -> int
    decreases slots, n,
{
    if n == 0 || n > slots.len() {
        0
    } else {
        larger(
            nesting_slots(policy, root_device, frames, slots, (n - 1) as nat),
            match slots[n - 1] {
                Slot::Node(tree) => nesting_node(policy, root_device, frames, tree),
                Slot::Unreadable(_) => 0,
            },
        )
    }
}

/// The greatest number of directory handles that a scan of a tree has open at
/// one time: as many as the directories that it lists one inside the other,
/// but never more than the policy allows.
pub open spec fn peak_of(policy: TraversalPolicy, tree: Tree) -> int {
    if policy.satisfiable() {
        smaller(
            policy.max_open_handles as int,
            nesting_node(policy, tree.report.id.device, Seq::empty(), tree),
        )
    } else {
        0
    }
}

/// What a scan of a tree yields under a policy: what `trace_node` says of the
/// root, and nothing under bounds that admit no depth.
pub open spec fn scan_of(policy: TraversalPolicy, tree: Tree) -> Seq<EventView> {
    if policy.satisfiable() {
        trace_node(policy, tree.report.id.device, Seq::empty(), tree)
    } else {
        Seq::empty()
    }
}

/// The effects of a sequence of events, in order.
pub open spec fn all_effects(events: Seq<EventView>) -> Seq<EffectView>
    decreases events.len(),
{
    if events.len() == 0 {
        Seq::empty()
    } else {
        all_effects(events.drop_last()) + events.last().effects
    }
}

/// A listing has the content of each of its places.
pub proof fn lemma_slots_of(slots: Seq<FsSlot>, n: nat)
    requires
        n <= slots.len(),
    ensures
        slots_of(slots, n).len() == n,
        forall|i: int| 0 <= i < n ==> (#[trigger] slots_of(slots, n)[i]) == slots[i]@,
    decreases n,
{
    if n > 0 {
        lemma_slots_of(slots, (n - 1) as nat);
    }
}

/// What holds of the greatest number of open handles that was seen while a
/// walker ran: it is no less than the number that are open now and no more
/// than the policy allows, and it has reached what the policy allows if a
/// handle was ever given up.
spec fn seasoned(state: crate::walker::WalkerView, peak: int) -> bool {
    &&& state.open_handles() <= peak <= state.policy.max_open_handles
    &&& state.open_from > 0 ==> peak == state.policy.max_open_handles
}

/// Hands a response to the walker and records what the step yields.
fn drive(walker: &mut Walker, response: Response, node: &FsNode, trace: &mut Trace)
    requires
        old(walker)@.wf(),
    ensures
        final(walker)@.wf(),
        final(walker)@ == next(old(walker)@, response@).0,
        final(walker)@.policy == old(walker)@.policy,
        events_view(final(trace).events@) == events_view(old(trace).events@) + events_of(
            next(old(walker)@, response@).1,
            node@,
        ),
        final(trace).peak_handles == larger(
            old(trace).peak_handles as int,
            final(walker)@.open_handles(),
        ),
{
    let item = walker.step(response);
    let open: usize = walker.open_handles();
    if open > trace.peak_handles {
        trace.peak_handles = open;
    }
    match item {
        Some(item) => {
            let effects = process(&item, &node.decoded, &node.canonical);
            let event = ScanEvent { item, effects };
            let ghost before = trace.events@;
            trace.events.push(event);
            assert(events_view(trace.events@) =~= events_view(before) + seq![event@]);
        },
        None => {
            assert(events_view(trace.events@) =~= events_view(trace.events@) + Seq::<
                EventView,
            >::empty());
        },
    }
}

/// Drives the walker through an entry and everything below it.
fn replay_node(walker: &mut Walker, node: &FsNode, trace: &mut Trace)
    requires
        old(walker)@.wf(),
        old(walker)@.phase == Phase::Start || old(walker)@.phase == Phase::Listing,
        seasoned(old(walker)@, old(trace).peak_handles as int),
    ensures
        final(walker)@.wf(),
        final(walker)@.policy == old(walker)@.policy,
        final(walker)@.frames == old(walker)@.frames,
        final(walker)@.root_device == (if old(walker)@.phase == Phase::Start {
            node.report.id.device
        } else {
            old(walker)@.root_device
        }),
        final(walker)@.phase == (if old(walker)@.frames.len() == 0 {
            Phase::Done
        } else {
            Phase::Listing
        }),
        events_view(final(trace).events@) == events_view(old(trace).events@) + trace_node(
            old(walker)@.policy,
            final(walker)@.root_device,
            old(walker)@.frames,
            node@,
        ),
        final(walker)@.cursors == (if old(walker)@.phase == Phase::Start {
            old(walker)@.cursors
        } else {
            counted(old(walker)@).cursors
        }),
        seasoned(final(walker)@, final(trace).peak_handles as int),
        final(trace).peak_handles == larger(
            old(trace).peak_handles as int,
            smaller(
                old(walker)@.policy.max_open_handles as int,
                nesting_node(
                    old(walker)@.policy,
                    final(walker)@.root_device,
                    old(walker)@.frames,
                    node@,
                ),
            ),
        ),
    decreases node,
{
    let ghost policy = walker@.policy;
    let ghost frames = walker@.frames;
    let ghost start = events_view(trace.events@);
    let ghost peak = trace.peak_handles as int;
    let ghost limit = policy.max_open_handles as int;
    let ghost tree = node@;
    drive(walker, Response::Found(node.report.duplicate()), node, trace);
    let ghost root_device = walker@.root_device;
    let ghost outer = walker@.cursors;
    let ghost ruling = verdict(policy, root_device, frames, tree.report);
    match walker.command() {
        Command::Open { evict: _ } => {
            assert(ruling == Verdict::Descend);
            let ghost inner = frames.push(frame_of(tree.report));
            match &node.open_error {
                Some(description) => {
                    drive(walker, Response::Failed(description.clone()), node, trace);
                    assert(events_view(trace.events@) =~= start + trace_node(
                        policy,
                        root_device,
                        frames,
                        tree,
                    ));
                },
                None => {
                    drive(walker, Response::Opened, node, trace);
                    let ghost opened = events_view(trace.events@);
                    let ghost entered = trace.peak_handles as int;
                    assert(entered == larger(peak, smaller(limit, frames.len() as int + 1)));
                    let count: usize = node.children.len();
                    proof {
                        lemma_slots_of(node.children@, count as nat);
                    }
                    let mut i: usize = 0;
                    while i < count
                        invariant
                            i <= count,
                            count == node.children@.len(),
                            tree == node@,
                            tree.children.len() == count,
                            forall|k: int|
                                0 <= k < count ==> (#[trigger] tree.children[k])
                                    == node.children@[k]@,
                            walker@.wf(),
                            walker@.policy == policy,
                            walker@.frames == inner,
                            walker@.cursors == outer.push(i),
                            walker@.root_device == root_device,
                            walker@.phase == Phase::Listing,
                            limit == policy.max_open_handles,
                            seasoned(walker@, trace.peak_handles as int),
                            trace.peak_handles == larger(
                                entered,
                                smaller(
                                    limit,
                                    nesting_slots(
                                        policy,
                                        root_device,
                                        inner,
                                        tree.children,
                                        i as nat,
                                    ),
                                ),
                            ),
                            events_view(trace.events@) == opened + trace_slots(
                                policy,
                                root_device,
                                inner,
                                tree.children,
                                i as nat,
                            ),
                        decreases count - i,
                    {
                        let ghost so_far = events_view(trace.events@);
                        let place: usize = match walker.command() {
                            Command::Read { reopen: _, taken } => taken,
                            _ => i,
                        };
                        assert(place == i);
                        match &node.children[place] {
                            FsSlot::Node(child) => {
                                replay_node(walker, child, trace);
                            },
                            FsSlot::Unreadable(description) => {
                                drive(walker, Response::Failed(description.clone()), node, trace);
                            },
                        }
                        assert(events_view(trace.events@) == so_far + trace_slot(
                            policy,
                            root_device,
                            inner,
                            tree.children[i as int],
                        ));
                        assert(events_view(trace.events@) =~= opened + trace_slots(
                            policy,
                            root_device,
                            inner,
                            tree.children,
                            (i + 1) as nat,
                        ));
                        i += 1;
                    }
                    drive(walker, Response::Exhausted, node, trace);
                    assert(walker@.frames =~= frames);
                    assert(events_view(trace.events@) =~= start + trace_node(
                        policy,
                        root_device,
                        frames,
                        tree,
                    ));
                },
            }
        },
        _ => {
            assert(ruling != Verdict::Descend);
        },
    }
}

impl Trace {
    /// Lists everything that the scan asked to be written, in order.
    pub fn effects(&self) -> (effects: Vec<Effect>)
        ensures
            effects_view(effects@) == all_effects(events_view(self.events@)),
    {
        let ghost all = events_view(self.events@);
        let mut effects: Vec<Effect> = Vec::new();
        let mut i: usize = 0;
        assert(effects_view(effects@) =~= all_effects(all.take(0)));
        while i < self.events.len()
            invariant
                i <= self.events.len(),
                all == events_view(self.events@),
                effects_view(effects@) == all_effects(all.take(i as int)),
            decreases self.events.len() - i,
        {
            let event: &ScanEvent = &self.events[i];
            let ghost so_far = effects_view(effects@);
            let ghost these = effects_view(event.effects@);
            assert(all.take(i + 1).drop_last() =~= all.take(i as int));
            assert(all.take(i + 1).last().effects == these);
            let mut j: usize = 0;
            assert(effects_view(effects@) =~= so_far + these.take(0));
            while j < event.effects.len()
                invariant
                    j <= event.effects.len(),
                    these == effects_view(event.effects@),
                    effects_view(effects@) == so_far + these.take(j as int),
                decreases event.effects.len() - j,
            {
                let ghost before = effects@;
                let copy = event.effects[j].duplicate();
                effects.push(copy);
                assert(effects_view(effects@) =~= effects_view(before).push(copy@));
                assert(so_far + these.take(j + 1) =~= (so_far + these.take(j as int)).push(
                    these[j as int],
                ));
                j += 1;
            }
            assert(these.take(j as int) =~= these);
            i += 1;
        }
        assert(all.take(i as int) =~= all);
        effects
    }
}

/// Scans a tree under a policy: walks it as a driver would walk the file
/// system, and carries every item that the walk yields through the pipeline.
pub fn scan_tree(root: &FsNode, policy: TraversalPolicy) -> (trace: Trace)
    requires
        policy.valid(),
    ensures
        events_view(trace.events@) == scan_of(policy, root@),
        trace.peak_handles == peak_of(policy, root@),
        trace.peak_handles <= policy.max_open_handles,
{
    let mut trace = Trace { events: Vec::new(), peak_handles: 0 };
    assert(events_view(trace.events@) =~= Seq::<EventView>::empty());
    let mut walker = Walker::new(policy);
    if !walker.is_done() {
        replay_node(&mut walker, root, &mut trace);
        assert(events_view(trace.events@) =~= scan_of(policy, root@));
    }
    trace
}

} // verus!
