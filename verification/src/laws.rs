//! What holds of every scan.

use crate::entry::{hidden_name, passed_over, place_name, ItemView};
use crate::fingerprint::fingerprint_of;
use crate::pipeline::{
    diagnosis, diagnostics, disciplined, lemma_disciplined_concat, lemma_output_concat,
    lemma_output_of_diagnosis, lemma_output_of_record, lemma_terminal_keeps_order, performed,
    produced, records, EffectView, RecordView,
};
use crate::policy::TraversalPolicy;
use crate::snapshot::{
    all_effects, events_of, failure_event, nesting_node, peak_of, scan_of, trace_node, trace_slot, trace_slots,
    EventView, Slot, Tree,
};
use crate::walker::{
    entry_of, frame_of, initial, next, shown, verdict, FrameView, ResponseView, Verdict, WalkerView,
};
use vstd::prelude::*;

verus! {

/// An event keeps the bounds when its item, if it is an entry, lies at a depth
/// that the policy admits and is not one to pass over for its name.
pub open spec fn in_bounds(policy: TraversalPolicy, event: EventView) -> bool {
    event.item matches ItemView::Entry(entry) ==> policy.admits(entry.depth as int)
        && !passed_over(entry.file_name, entry.depth)
}

/// Every event of a sequence keeps the bounds.
pub open spec fn all_in_bounds(policy: TraversalPolicy, events: Seq<EventView>) -> bool {
    forall|i: int| 0 <= i < events.len() ==> in_bounds(policy, #[trigger] events[i])
}

/// Every event of what an entry gives keeps the bounds.
proof fn lemma_bounds_node(
    policy: TraversalPolicy,
    root_device: u64,
    frames: Seq<FrameView>,
    tree: Tree,
)
    requires
        policy.within_max(frames.len() as int),
    ensures
        all_in_bounds(policy, trace_node(policy, root_device, frames, tree)),
    decreases tree, 0nat,
{
    let ruling = verdict(policy, root_device, frames, tree.report);
    if ruling == Verdict::Descend && tree.open_error is None {
        let inner = frames.push(frame_of(tree.report));
        lemma_bounds_slots(policy, root_device, inner, tree.children, tree.children.len());
    }
}

/// Every event of what a listing gives keeps the bounds.
proof fn lemma_bounds_slots(
    policy: TraversalPolicy,
    root_device: u64,
    frames: Seq<FrameView>,
    slots: Seq<Slot>,
    n: nat,
)
    requires
        policy.within_max(frames.len() as int),
    ensures
        all_in_bounds(policy, trace_slots(policy, root_device, frames, slots, n)),
    decreases slots, n,
{
    if !(n == 0 || n > slots.len()) {
        lemma_bounds_slots(policy, root_device, frames, slots, (n - 1) as nat);
        match slots[n - 1] {
            Slot::Node(tree) => {
                lemma_bounds_node(policy, root_device, frames, tree);
            },
            Slot::Unreadable(_) => {},
        }
        assert(trace_slot(policy, root_device, frames, slots[n - 1]) == match slots[n - 1] {
            Slot::Node(tree) => trace_node(policy, root_device, frames, tree),
            Slot::Unreadable(description) => seq![failure_event(description)],
        });
    }
}

/// No entry that a scan yields lies above the least depth or below the
/// greatest depth of its policy.
pub proof fn lemma_scan_keeps_depth_bounds(policy: TraversalPolicy, tree: Tree)
    ensures
        forall|i: int|
            0 <= i < scan_of(policy, tree).len() ==> (
            #[trigger] scan_of(policy, tree)[i].item matches ItemView::Entry(entry)
                ==> policy.min_depth <= entry.depth && policy.within_max(entry.depth as int)),
{
    lemma_bounds_node(policy, tree.report.id.device, Seq::empty(), tree);
    let events = scan_of(policy, tree);
    assert forall|i: int| 0 <= i < events.len() implies (
    #[trigger] events[i].item matches ItemView::Entry(entry) ==> policy.min_depth <= entry.depth
        && policy.within_max(entry.depth as int)) by {
        assert(in_bounds(policy, events[i]));
    }
}

/// No entry that a scan yields below the root has a hidden name, and the
/// root has none either unless it was given as `.` or `..`.
pub proof fn lemma_scan_yields_no_hidden_entry(policy: TraversalPolicy, tree: Tree)
    ensures
        forall|i: int|
            0 <= i < scan_of(policy, tree).len() ==> (
            #[trigger] scan_of(policy, tree)[i].item matches ItemView::Entry(entry) ==> {
                &&& !passed_over(entry.file_name, entry.depth)
                &&& entry.depth > 0 ==> !hidden_name(entry.file_name)
            }),
{
    lemma_bounds_node(policy, tree.report.id.device, Seq::empty(), tree);
    let events = scan_of(policy, tree);
    assert forall|i: int| 0 <= i < events.len() implies (
    #[trigger] events[i].item matches ItemView::Entry(entry) ==> {
        &&& !passed_over(entry.file_name, entry.depth)
        &&& entry.depth > 0 ==> !hidden_name(entry.file_name)
    }) by {
        assert(in_bounds(policy, events[i]));
    }
}

/// An entry that is passed over for its name gives nothing, wherever it is
/// found and whatever lies below it: no record and no diagnostic comes of it or
/// of its subtree. Every entry with a hidden name is passed over, but for the
/// root given as `.` or `..`.
pub proof fn lemma_hidden_subtree_is_silent(
    policy: TraversalPolicy,
    root_device: u64,
    frames: Seq<FrameView>,
    tree: Tree,
)
    requires
        hidden_name(tree.report.file_name),
        frames.len() > 0 || !place_name(tree.report.file_name),
    ensures
        trace_node(policy, root_device, frames, tree) == Seq::<EventView>::empty(),
{
}

/// The root of a scan given as `.` or `..` is not passed over: where it is a
/// directory that opens, and the greatest depth lets the scan go below it, the
/// scan yields the root, if the least depth admits it, and then what its
/// listing gives.
pub proof fn lemma_place_root_is_entered(policy: TraversalPolicy, tree: Tree)
    requires
        policy.satisfiable(),
        policy.within_max(1),
        place_name(tree.report.file_name),
        tree.report.is_dir,
        !tree.report.is_symlink,
        tree.open_error is None,
    ensures
        verdict(policy, tree.report.id.device, Seq::empty(), tree.report) == Verdict::Descend,
        scan_of(policy, tree) == events_of(
            shown(policy, entry_of(tree.report, 0, true)),
            tree,
        ) + whole(policy, tree.report.id.device, seq![frame_of(tree.report)], tree.children),
{
    assert(Seq::<FrameView>::empty().push(frame_of(tree.report)) =~= seq![frame_of(tree.report)]);
}

/// Under bounds whose least depth lies below the greatest, a scan yields
/// nothing.
pub proof fn lemma_contrary_bounds_yield_nothing(policy: TraversalPolicy, tree: Tree)
    requires
        policy.max_depth matches Some(limit) && policy.min_depth > limit,
    ensures
        scan_of(policy, tree) == Seq::<EventView>::empty(),
{
}

/// A traversal never has more directory handles open than its policy allows:
/// this holds when it begins, and every step keeps it, whatever the driver
/// answers and however deep the tree is.
pub proof fn lemma_handle_budget_kept(state: WalkerView, response: ResponseView)
    requires
        state.wf(),
    ensures
        state.open_handles() <= state.policy.max_open_handles,
        next(state, response).0.wf(),
        next(state, response).0.policy == state.policy,
        next(state, response).0.open_handles() <= state.policy.max_open_handles,
{
}

/// Whatever the driver answers, an entry that a step yields is not one to
/// pass over for its name, so that below the root it has no hidden name, and
/// lies at the depth of the directories being listed, which the policy
/// admits.
pub proof fn lemma_step_yields_within_bounds(state: WalkerView, response: ResponseView)
    requires
        state.wf(),
    ensures
        next(state, response).1 matches Some(ItemView::Entry(entry)) ==> {
            &&& entry.depth == state.frames.len()
            &&& state.policy.admits(entry.depth as int)
            &&& !passed_over(entry.file_name, entry.depth)
            &&& entry.depth > 0 ==> !hidden_name(entry.file_name)
        },
{
}

/// A scan of a tree never has more directory handles open than its policy
/// allows, and it has that many open where the directories that it lists nest
/// at least as deep.
pub proof fn lemma_peak_within_budget(policy: TraversalPolicy, tree: Tree)
    ensures
        peak_of(policy, tree) <= policy.max_open_handles,
        policy.satisfiable() && nesting_node(policy, tree.report.id.device, Seq::empty(), tree)
            >= policy.max_open_handles ==> peak_of(policy, tree) == policy.max_open_handles,
{
}

/// A traversal begins well, with no handle open.
pub proof fn lemma_initial_state(policy: TraversalPolicy)
    requires
        policy.valid(),
    ensures
        initial(policy).wf(),
        initial(policy).open_handles() == 0,
{
}

/// The effects of two sequences of events, one after the other.
proof fn lemma_all_effects_concat(first: Seq<EventView>, second: Seq<EventView>)
    ensures
        all_effects(first + second) == all_effects(first) + all_effects(second),
    decreases second.len(),
{
    if second.len() == 0 {
        assert(first + second =~= first);
        assert(all_effects(first) + all_effects(second) =~= all_effects(first));
    } else {
        assert((first + second).drop_last() =~= first + second.drop_last());
        lemma_all_effects_concat(first, second.drop_last());
        assert(all_effects(first + second) =~= all_effects(first) + all_effects(second));
    }
}

/// What an entry gives is disciplined.
proof fn lemma_discipline_node(
    policy: TraversalPolicy,
    root_device: u64,
    frames: Seq<FrameView>,
    tree: Tree,
)
    ensures
        disciplined(all_effects(trace_node(policy, root_device, frames, tree))),
    decreases tree, 0nat,
{
    let ruling = verdict(policy, root_device, frames, tree.report);
    let events = trace_node(policy, root_device, frames, tree);
    if ruling == Verdict::Descend && tree.open_error is None {
        let inner = frames.push(frame_of(tree.report));
        let head = events_of(
            shown(
                policy,
                entry_of(tree.report, frames.len(), true),
            ),
            tree,
        );
        let tail = trace_slots(policy, root_device, inner, tree.children, tree.children.len());
        lemma_discipline_slots(policy, root_device, inner, tree.children, tree.children.len());
        lemma_discipline_single(head);
        lemma_all_effects_concat(head, tail);
        lemma_disciplined_concat(all_effects(head), all_effects(tail));
    } else {
        lemma_discipline_single(events);
    }
}

/// At most one event, whose effects are those of an item or of a failure.
proof fn lemma_discipline_single(events: Seq<EventView>)
    requires
        events.len() <= 1,
        events.len() == 1 ==> disciplined(events[0].effects),
    ensures
        disciplined(all_effects(events)),
{
    if events.len() == 1 {
        assert(events.drop_last() =~= Seq::<EventView>::empty());
        assert(all_effects(events.drop_last()) =~= Seq::<EffectView>::empty());
        assert(all_effects(events) =~= events[0].effects);
    }
}

/// What a listing gives is disciplined.
proof fn lemma_discipline_slots(
    policy: TraversalPolicy,
    root_device: u64,
    frames: Seq<FrameView>,
    slots: Seq<Slot>,
    n: nat,
)
    ensures
        disciplined(all_effects(trace_slots(policy, root_device, frames, slots, n))),
    decreases slots, n,
{
    if !(n == 0 || n > slots.len()) {
        let before = trace_slots(policy, root_device, frames, slots, (n - 1) as nat);
        let last = trace_slot(policy, root_device, frames, slots[n - 1]);
        lemma_discipline_slots(policy, root_device, frames, slots, (n - 1) as nat);
        match slots[n - 1] {
            Slot::Node(tree) => {
                lemma_discipline_node(policy, root_device, frames, tree);
            },
            Slot::Unreadable(_) => {
                lemma_discipline_single(last);
            },
        }
        lemma_all_effects_concat(before, last);
        lemma_disciplined_concat(all_effects(before), all_effects(last));
    }
}

/// In what a scan writes, the record sink is flushed directly before each
/// diagnostic, so that a terminal which shows both sinks shows every line in
/// the order in which the scan produced it.
pub proof fn lemma_scan_is_disciplined(policy: TraversalPolicy, tree: Tree)
    ensures
        disciplined(all_effects(scan_of(policy, tree))),
        performed(all_effects(scan_of(policy, tree))).shown + performed(
            all_effects(scan_of(policy, tree)),
        ).held == produced(all_effects(scan_of(policy, tree))),
{
    if policy.satisfiable() {
        lemma_discipline_node(policy, tree.report.id.device, Seq::empty(), tree);
    }
    lemma_terminal_keeps_order(all_effects(scan_of(policy, tree)));
}

/// What a scan yields of a whole listing.
pub open spec fn whole(
    policy: TraversalPolicy,
    root_device: u64,
    frames: Seq<FrameView>,
    slots: Seq<Slot>,
) -> Seq<EventView> {
    trace_slots(policy, root_device, frames, slots, slots.len())
}

/// The first places of a listing give the same whatever follows them.
proof fn lemma_trace_prefix(
    policy: TraversalPolicy,
    root_device: u64,
    frames: Seq<FrameView>,
    first: Seq<Slot>,
    second: Seq<Slot>,
    n: nat,
)
    requires
        n <= first.len(),
    ensures
        trace_slots(policy, root_device, frames, first + second, n) == trace_slots(
            policy,
            root_device,
            frames,
            first,
            n,
        ),
    decreases n,
{
    if n > 0 {
        lemma_trace_prefix(policy, root_device, frames, first, second, (n - 1) as nat);
        assert((first + second)[n - 1] == first[n - 1]);
    }
}

/// What two listings joined give, up to a place in the second.
proof fn lemma_trace_append(
    policy: TraversalPolicy,
    root_device: u64,
    frames: Seq<FrameView>,
    first: Seq<Slot>,
    second: Seq<Slot>,
    j: nat,
)
    requires
        j <= second.len(),
    ensures
        trace_slots(policy, root_device, frames, first + second, first.len() + j) == whole(
            policy,
            root_device,
            frames,
            first,
        ) + trace_slots(policy, root_device, frames, second, j),
    decreases j,
{
    if j == 0 {
        lemma_trace_prefix(policy, root_device, frames, first, second, first.len());
        assert(whole(policy, root_device, frames, first) + Seq::<EventView>::empty() =~= whole(
            policy,
            root_device,
            frames,
            first,
        ));
    } else {
        lemma_trace_append(policy, root_device, frames, first, second, (j - 1) as nat);
        assert((first + second)[first.len() + j - 1] == second[j - 1]);
        let so_far = trace_slots(policy, root_device, frames, second, (j - 1) as nat);
        let last = trace_slot(policy, root_device, frames, second[j - 1]);
        assert(whole(policy, root_device, frames, first) + (so_far + last) =~= (whole(
            policy,
            root_device,
            frames,
            first,
        ) + so_far) + last);
    }
}

/// What a scan yields of two listings joined is what it yields of the first
/// followed by what it yields of the second.
proof fn lemma_whole_join(
    policy: TraversalPolicy,
    root_device: u64,
    frames: Seq<FrameView>,
    first: Seq<Slot>,
    second: Seq<Slot>,
)
    ensures
        whole(policy, root_device, frames, first + second) == whole(
            policy,
            root_device,
            frames,
            first,
        ) + whole(policy, root_device, frames, second),
{
    lemma_trace_append(policy, root_device, frames, first, second, second.len());
}

/// A listing of one place gives what that place gives.
proof fn lemma_whole_single(
    policy: TraversalPolicy,
    root_device: u64,
    frames: Seq<FrameView>,
    slot: Slot,
)
    ensures
        whole(policy, root_device, frames, seq![slot]) == trace_slot(
            policy,
            root_device,
            frames,
            slot,
        ),
{
    let slots = seq![slot];
    assert(trace_slots(policy, root_device, frames, slots, 0) =~= Seq::<EventView>::empty());
    assert(trace_slots(policy, root_device, frames, slots, 1) =~= trace_slot(
        policy,
        root_device,
        frames,
        slot,
    ));
}

/// A listing splits at each of its places.
proof fn lemma_whole_split(
    policy: TraversalPolicy,
    root_device: u64,
    frames: Seq<FrameView>,
    slots: Seq<Slot>,
    i: int,
)
    requires
        0 <= i < slots.len(),
    ensures
        whole(policy, root_device, frames, slots) == whole(
            policy,
            root_device,
            frames,
            slots.take(i),
        ) + trace_slot(policy, root_device, frames, slots[i]) + whole(
            policy,
            root_device,
            frames,
            slots.skip(i + 1),
        ),
{
    let head = slots.take(i);
    let middle = seq![slots[i]];
    let rest = slots.skip(i + 1);
    assert(slots =~= (head + middle) + rest);
    lemma_whole_join(policy, root_device, frames, head + middle, rest);
    lemma_whole_join(policy, root_device, frames, head, middle);
    lemma_whole_single(policy, root_device, frames, slots[i]);
}

/// The entry at an address, which gives the places to take from the root
/// down through the listings.
pub open spec fn node_at(tree: Tree, address: Seq<int>) -> Option<Tree>
    decreases address.len(),
{
    if address.len() == 0 {
        Some(tree)
    } else if 0 <= address[0] < tree.children.len() {
        match tree.children[address[0]] {
            Slot::Node(child) => node_at(child, address.drop_first()),
            Slot::Unreadable(_) => None,
        }
    } else {
        None
    }
}

/// Whether a scan lists the directory at an address: it and every directory
/// above it is descended into and opens.
pub open spec fn listed(
    policy: TraversalPolicy,
    root_device: u64,
    frames: Seq<FrameView>,
    tree: Tree,
    address: Seq<int>,
) -> bool
    decreases address.len(),
{
    &&& verdict(policy, root_device, frames, tree.report) == Verdict::Descend
    &&& tree.open_error is None
    &&& address.len() > 0 ==> 0 <= address[0] < tree.children.len() && (
    tree.children[address[0]] matches Slot::Node(child) && listed(
        policy,
        root_device,
        frames.push(frame_of(tree.report)),
        child,
        address.drop_first(),
    ))
}

/// The tree with one more place in the listing of the directory at an address:
/// a place that cannot be read, put before the place at `position`.
pub open spec fn inject(tree: Tree, address: Seq<int>, position: int, description: Seq<char>) -> Tree
    decreases address.len(),
{
    if address.len() == 0 {
        Tree { children: tree.children.insert(position, Slot::Unreadable(description)), ..tree }
    } else if 0 <= address[0] < tree.children.len() {
        match tree.children[address[0]] {
            Slot::Node(child) => Tree {
                children: tree.children.update(
                    address[0],
                    Slot::Node(inject(child, address.drop_first(), position, description)),
                ),
                ..tree
            },
            Slot::Unreadable(_) => tree,
        }
    } else {
        tree
    }
}

/// Putting a value into the middle part of three joined sequences.
proof fn lemma_insert_in_middle<A>(first: Seq<A>, middle: Seq<A>, last: Seq<A>, q: int, value: A)
    requires
        0 <= q <= middle.len(),
    ensures
        (first + middle + last).insert(first.len() + q, value) == first + middle.insert(q, value)
            + last,
{
    assert((first + middle + last).insert(first.len() + q, value) =~= first + middle.insert(
        q,
        value,
    ) + last);
}

/// What a directory that is listed gives: itself, then its listing.
proof fn lemma_listed_node(
    policy: TraversalPolicy,
    root_device: u64,
    frames: Seq<FrameView>,
    tree: Tree,
)
    requires
        verdict(policy, root_device, frames, tree.report) == Verdict::Descend,
        tree.open_error is None,
    ensures
        trace_node(policy, root_device, frames, tree) == events_of(
            shown(policy, entry_of(tree.report, frames.len(), true)),
            tree,
        ) + whole(policy, root_device, frames.push(frame_of(tree.report)), tree.children),
{
}

/// What an entry that is not listed gives does not depend on its listing.
proof fn lemma_unlisted_node(
    policy: TraversalPolicy,
    root_device: u64,
    frames: Seq<FrameView>,
    tree: Tree,
    other: Tree,
)
    requires
        !(verdict(policy, root_device, frames, tree.report) == Verdict::Descend
            && tree.open_error is None),
        other == (Tree { children: other.children, ..tree }),
    ensures
        trace_node(policy, root_device, frames, other) == trace_node(
            policy,
            root_device,
            frames,
            tree,
        ),
{
}

/// A place more in a listing, which cannot be read, gives one failure more.
proof fn lemma_whole_insert(
    policy: TraversalPolicy,
    root_device: u64,
    frames: Seq<FrameView>,
    slots: Seq<Slot>,
    position: int,
    description: Seq<char>,
)
    requires
        0 <= position <= slots.len(),
    ensures
        whole(policy, root_device, frames, slots.take(position)).len() <= whole(
            policy,
            root_device,
            frames,
            slots,
        ).len(),
        whole(policy, root_device, frames, slots.insert(position, Slot::Unreadable(description)))
            == whole(policy, root_device, frames, slots).insert(
            whole(policy, root_device, frames, slots.take(position)).len() as int,
            failure_event(description),
        ),
{
    let failure = failure_event(description);
    let slots2 = slots.insert(position, Slot::Unreadable(description));
    let first = whole(policy, root_device, frames, slots.take(position));
    let second = whole(policy, root_device, frames, slots.skip(position));
    assert(slots =~= slots.take(position) + slots.skip(position));
    lemma_whole_join(policy, root_device, frames, slots.take(position), slots.skip(position));
    assert(slots2.take(position) =~= slots.take(position));
    assert(slots2.skip(position + 1) =~= slots.skip(position));
    lemma_whole_split(policy, root_device, frames, slots2, position);
    assert(trace_slot(policy, root_device, frames, slots2[position]) == seq![failure]);
    assert(first + seq![failure] + second =~= (first + second).insert(
        first.len() as int,
        failure,
    ));
}

/// Another entry at one place of a listing changes what the listing gives
/// as it changes what that place gives.
proof fn lemma_whole_update(
    policy: TraversalPolicy,
    root_device: u64,
    frames: Seq<FrameView>,
    slots: Seq<Slot>,
    i: int,
    child: Tree,
)
    requires
        0 <= i < slots.len(),
    ensures
        whole(policy, root_device, frames, slots) == whole(
            policy,
            root_device,
            frames,
            slots.take(i),
        ) + trace_slot(policy, root_device, frames, slots[i]) + whole(
            policy,
            root_device,
            frames,
            slots.skip(i + 1),
        ),
        whole(policy, root_device, frames, slots.update(i, Slot::Node(child))) == whole(
            policy,
            root_device,
            frames,
            slots.take(i),
        ) + trace_node(policy, root_device, frames, child) + whole(
            policy,
            root_device,
            frames,
            slots.skip(i + 1),
        ),
{
    let slots2 = slots.update(i, Slot::Node(child));
    assert(slots2.take(i) =~= slots.take(i));
    assert(slots2.skip(i + 1) =~= slots.skip(i + 1));
    lemma_whole_split(policy, root_device, frames, slots, i);
    lemma_whole_split(policy, root_device, frames, slots2, i);
}

/// One unreadable entry more changes what a scan yields by one failure and
/// nothing else. Where the scan lists the directory that holds the entry, what
/// it yields is what it yielded before with the failure put in at one place;
/// where it does not, it yields what it yielded before.
pub proof fn lemma_error_isolation(
    policy: TraversalPolicy,
    root_device: u64,
    frames: Seq<FrameView>,
    tree: Tree,
    address: Seq<int>,
    position: int,
    description: Seq<char>,
)
    requires
        node_at(tree, address) matches Some(directory) && 0 <= position
            <= directory.children.len(),
    ensures
        ({
            let before = trace_node(policy, root_device, frames, tree);
            let after = trace_node(
                policy,
                root_device,
                frames,
                inject(tree, address, position, description),
            );
            if listed(policy, root_device, frames, tree, address) {
                exists|p: int|
                    0 <= p <= before.len() && after == #[trigger] before.insert(
                        p,
                        failure_event(description),
                    )
            } else {
                after == before
            }
        }),
    decreases address.len(),
{
    let failure = failure_event(description);
    let before = trace_node(policy, root_device, frames, tree);
    let changed = inject(tree, address, position, description);
    let after = trace_node(policy, root_device, frames, changed);
    let inner = frames.push(frame_of(tree.report));
    let head = events_of(shown(policy, entry_of(tree.report, frames.len(), true)), tree);
    let slots = tree.children;
    assert(changed == (Tree { children: changed.children, ..tree }));
    if verdict(policy, root_device, frames, tree.report) == Verdict::Descend
        && tree.open_error is None {
        lemma_listed_node(policy, root_device, frames, tree);
        lemma_listed_node(policy, root_device, frames, changed);
        let empty = Seq::<EventView>::empty();
        if address.len() == 0 {
            lemma_whole_insert(policy, root_device, inner, slots, position, description);
            let q = whole(policy, root_device, inner, slots.take(position)).len() as int;
            lemma_insert_in_middle(
                head,
                whole(policy, root_device, inner, slots),
                empty,
                q,
                failure,
            );
            assert(before =~= head + whole(policy, root_device, inner, slots) + empty);
            assert(after =~= head + whole(policy, root_device, inner, slots).insert(q, failure)
                + empty);
            assert(after == before.insert(head.len() + q, failure));
        } else {
            let i = address[0];
            if 0 <= i < slots.len() && slots[i] is Node {
                let child = slots[i]->Node_0;
                let rest = address.drop_first();
                lemma_error_isolation(
                    policy,
                    root_device,
                    inner,
                    child,
                    rest,
                    position,
                    description,
                );
                let child2 = inject(child, rest, position, description);
                lemma_whole_update(policy, root_device, inner, slots, i, child2);
                let first = head + whole(policy, root_device, inner, slots.take(i));
                let second = whole(policy, root_device, inner, slots.skip(i + 1));
                let middle = trace_node(policy, root_device, inner, child);
                let middle2 = trace_node(policy, root_device, inner, child2);
                assert(before =~= first + middle + second);
                assert(after =~= first + middle2 + second);
                if listed(policy, root_device, inner, child, rest) {
                    let q = choose|q: int|
                        0 <= q <= middle.len() && middle2 == #[trigger] middle.insert(q, failure);
                    lemma_insert_in_middle(first, middle, second, q, failure);
                    assert(after == before.insert(first.len() + q, failure));
                }
            }
        }
    } else {
        lemma_unlisted_node(policy, root_device, frames, tree, changed);
    }
}

/// The effects of no event, and of one.
proof fn lemma_all_effects_small(events: Seq<EventView>)
    requires
        events.len() <= 1,
    ensures
        events.len() == 0 ==> all_effects(events) == Seq::<EffectView>::empty(),
        events.len() == 1 ==> all_effects(events) == events[0].effects,
{
    if events.len() == 1 {
        assert(events.drop_last() =~= Seq::<EventView>::empty());
        assert(all_effects(events.drop_last()) =~= Seq::<EffectView>::empty());
        assert(all_effects(events) =~= events[0].effects);
    }
}

/// The records and the diagnostics of two sequences of events, one after the
/// other.
proof fn lemma_event_output_concat(first: Seq<EventView>, second: Seq<EventView>)
    ensures
        records(all_effects(first + second)) == records(all_effects(first)) + records(
            all_effects(second),
        ),
        diagnostics(all_effects(first + second)) == diagnostics(all_effects(first)) + diagnostics(
            all_effects(second),
        ),
{
    lemma_all_effects_concat(first, second);
    lemma_output_concat(all_effects(first), all_effects(second));
}

/// The record of an image file, found below the given frames: the entry is
/// not entered, it lies at a depth that the policy admits, it decodes, and its
/// path resolves.
pub open spec fn record_here(policy: TraversalPolicy, root_device: u64, frames: Seq<FrameView>, tree: Tree) -> Option<
    RecordView,
> {
    if verdict(policy, root_device, frames, tree.report) == Verdict::Leaf && policy.admits(
        frames.len() as int,
    ) {
        match (tree.decoded, tree.canonical) {
            (Ok(grid), Ok(path)) => Some(
                RecordView { fingerprint: fingerprint_of(grid), canonical_path: path },
            ),
            _ => None,
        }
    } else {
        None
    }
}

/// The record of the image file at an address, where the scan comes to it:
/// every directory above the file is one that the scan descends into and that
/// opens, which is to say that none is passed over for its name, below the
/// greatest depth, on
/// another device while the scan stays on one, or a link that closes a loop.
pub open spec fn record_at(
    policy: TraversalPolicy,
    root_device: u64,
    frames: Seq<FrameView>,
    tree: Tree,
    address: Seq<int>,
) -> Option<RecordView>
    decreases address.len(),
{
    if address.len() == 0 {
        record_here(policy, root_device, frames, tree)
    } else if verdict(policy, root_device, frames, tree.report) == Verdict::Descend
        && tree.open_error is None && 0 <= address[0] < tree.children.len() {
        match tree.children[address[0]] {
            Slot::Node(child) => record_at(
                policy,
                root_device,
                frames.push(frame_of(tree.report)),
                child,
                address.drop_first(),
            ),
            Slot::Unreadable(_) => None,
        }
    } else {
        None
    }
}

/// Whether some image file in a tree has this record.
pub open spec fn recorded_in_node(
    policy: TraversalPolicy,
    root_device: u64,
    frames: Seq<FrameView>,
    tree: Tree,
    record: RecordView,
) -> bool {
    exists|address: Seq<int>|
        #[trigger] record_at(policy, root_device, frames, tree, address) == Some(record)
}

/// Whether some image file in one of the first `n` places of a listing has this
/// record.
pub open spec fn recorded_in_slots(
    policy: TraversalPolicy,
    root_device: u64,
    frames: Seq<FrameView>,
    slots: Seq<Slot>,
    n: nat,
    record: RecordView,
) -> bool {
    exists|k: int|
        0 <= k < n && k < slots.len() && (#[trigger] slots[k]) is Node && recorded_in_node(
            policy,
            root_device,
            frames,
            slots[k]->Node_0,
            record,
        )
}

/// What an entry that is not listed writes: the record of the entry itself,
/// where it has one.
proof fn lemma_records_unlisted(
    policy: TraversalPolicy,
    root_device: u64,
    frames: Seq<FrameView>,
    tree: Tree,
)
    requires
        policy.within_max(frames.len() as int),
        !(verdict(policy, root_device, frames, tree.report) == Verdict::Descend
            && tree.open_error is None),
    ensures
        records(all_effects(trace_node(policy, root_device, frames, tree))) == (match record_here(
            policy,
            root_device,
            frames,
            tree,
        ) {
            Some(record) => seq![record],
            None => Seq::empty(),
        }),
{
    let events = trace_node(policy, root_device, frames, tree);
    let ruling = verdict(policy, root_device, frames, tree.report);
    lemma_all_effects_small(events);
    if events.len() == 1 {
        let event = events[0];
        match event.item {
            ItemView::Failure(description) => {
                lemma_output_of_diagnosis(description);
                assert(event.effects == diagnosis(description));
            },
            ItemView::Entry(entry) => {
                if entry.is_directory {
                    assert(event.effects == Seq::<EffectView>::empty());
                } else {
                    assert(ruling == Verdict::Leaf);
                    match tree.decoded {
                        Ok(grid) => match tree.canonical {
                            Ok(path) => {
                                lemma_output_of_record(fingerprint_of(grid), path);
                            },
                            Err(description) => {
                                lemma_output_of_diagnosis(description);
                            },
                        },
                        Err(description) => {
                            lemma_output_of_diagnosis(description);
                        },
                    }
                }
            },
        }
    }
}

/// What a directory that is listed writes is what its listing writes.
proof fn lemma_records_listed(
    policy: TraversalPolicy,
    root_device: u64,
    frames: Seq<FrameView>,
    tree: Tree,
)
    requires
        verdict(policy, root_device, frames, tree.report) == Verdict::Descend,
        tree.open_error is None,
    ensures
        records(all_effects(trace_node(policy, root_device, frames, tree))) == records(
            all_effects(
                whole(policy, root_device, frames.push(frame_of(tree.report)), tree.children),
            ),
        ),
{
    let head = events_of(shown(policy, entry_of(tree.report, frames.len(), true)), tree);
    let tail = whole(policy, root_device, frames.push(frame_of(tree.report)), tree.children);
    lemma_listed_node(policy, root_device, frames, tree);
    lemma_all_effects_small(head);
    lemma_event_output_concat(head, tail);
    assert(records(all_effects(head)) =~= Seq::<RecordView>::empty());
    assert(records(all_effects(head)) + records(all_effects(tail)) =~= records(
        all_effects(tail),
    ));
}

/// A value is in two joined sequences when it is in one of them.
proof fn lemma_contains_concat<A>(first: Seq<A>, second: Seq<A>, value: A)
    ensures
        (first + second).contains(value) <==> first.contains(value) || second.contains(value),
{
    if first.contains(value) {
        let i = choose|i: int| 0 <= i < first.len() && first[i] == value;
        assert((first + second)[i] == value);
    }
    if second.contains(value) {
        let i = choose|i: int| 0 <= i < second.len() && second[i] == value;
        assert((first + second)[first.len() + i] == value);
    }
    if (first + second).contains(value) {
        let i = choose|i: int| 0 <= i < (first + second).len() && (first + second)[i] == value;
        if i < first.len() {
            assert(first[i] == value);
        } else {
            assert(second[i - first.len()] == value);
        }
    }
}

/// The records that an entry gives are those of the image files in it.
proof fn lemma_records_node(
    policy: TraversalPolicy,
    root_device: u64,
    frames: Seq<FrameView>,
    tree: Tree,
    record: RecordView,
)
    requires
        policy.within_max(frames.len() as int),
    ensures
        records(all_effects(trace_node(policy, root_device, frames, tree))).contains(record)
            <==> recorded_in_node(policy, root_device, frames, tree, record),
    decreases tree, 0nat,
{
    let written = records(all_effects(trace_node(policy, root_device, frames, tree)));
    let here = Seq::<int>::empty();
    if verdict(policy, root_device, frames, tree.report) == Verdict::Descend
        && tree.open_error is None {
        let inner = frames.push(frame_of(tree.report));
        let slots = tree.children;
        lemma_records_listed(policy, root_device, frames, tree);
        lemma_records_slots(policy, root_device, inner, slots, slots.len(), record);
        if recorded_in_slots(policy, root_device, inner, slots, slots.len(), record) {
            let k = choose|k: int|
                0 <= k < slots.len() && (#[trigger] slots[k]) is Node && recorded_in_node(
                    policy,
                    root_device,
                    inner,
                    slots[k]->Node_0,
                    record,
                );
            let rest = choose|rest: Seq<int>|
                #[trigger] record_at(policy, root_device, inner, slots[k]->Node_0, rest) == Some(
                    record,
                );
            let address = seq![k] + rest;
            assert(address.drop_first() =~= rest);
            assert(record_at(policy, root_device, frames, tree, address) == Some(record));
        }
        if recorded_in_node(policy, root_device, frames, tree, record) {
            let address = choose|address: Seq<int>|
                #[trigger] record_at(policy, root_device, frames, tree, address) == Some(record);
            assert(address.len() > 0);
            let k = address[0];
            assert(record_at(
                policy,
                root_device,
                inner,
                slots[k]->Node_0,
                address.drop_first(),
            ) == Some(record));
            assert(slots[k] is Node);
            assert(recorded_in_node(policy, root_device, inner, slots[k]->Node_0, record));
        }
    } else {
        lemma_records_unlisted(policy, root_device, frames, tree);
        if written.contains(record) {
            assert(written[0] == record);
            assert(record_at(policy, root_device, frames, tree, here) == Some(record));
        }
        if recorded_in_node(policy, root_device, frames, tree, record) {
            let address = choose|address: Seq<int>|
                #[trigger] record_at(policy, root_device, frames, tree, address) == Some(record);
            assert(address.len() == 0);
            assert(written[0] == record);
        }
    }
}

/// The records that a listing gives are those of the image files in it.
proof fn lemma_records_slots(
    policy: TraversalPolicy,
    root_device: u64,
    frames: Seq<FrameView>,
    slots: Seq<Slot>,
    n: nat,
    record: RecordView,
)
    requires
        policy.within_max(frames.len() as int),
        n <= slots.len(),
    ensures
        records(all_effects(trace_slots(policy, root_device, frames, slots, n))).contains(record)
            <==> recorded_in_slots(policy, root_device, frames, slots, n, record),
    decreases slots, n,
{
    if n == 0 {
        lemma_all_effects_small(trace_slots(policy, root_device, frames, slots, n));
    } else {
        let before = trace_slots(policy, root_device, frames, slots, (n - 1) as nat);
        let last = trace_slot(policy, root_device, frames, slots[n - 1]);
        lemma_records_slots(policy, root_device, frames, slots, (n - 1) as nat, record);
        lemma_event_output_concat(before, last);
        lemma_contains_concat(
            records(all_effects(before)),
            records(all_effects(last)),
            record,
        );
        match slots[n - 1] {
            Slot::Node(child) => {
                lemma_records_node(policy, root_device, frames, child, record);
            },
            Slot::Unreadable(description) => {
                lemma_all_effects_small(last);
                lemma_output_of_diagnosis(description);
            },
        }
        if recorded_in_slots(policy, root_device, frames, slots, n, record) {
            let k = choose|k: int|
                0 <= k < n && k < slots.len() && (#[trigger] slots[k]) is Node && recorded_in_node(
                    policy,
                    root_device,
                    frames,
                    slots[k]->Node_0,
                    record,
                );
            if k < n - 1 {
                assert(recorded_in_slots(
                    policy,
                    root_device,
                    frames,
                    slots,
                    (n - 1) as nat,
                    record,
                ));
            }
        }
        if recorded_in_slots(policy, root_device, frames, slots, (n - 1) as nat, record) {
            let k = choose|k: int|
                0 <= k < n - 1 && k < slots.len() && (#[trigger] slots[k]) is Node
                    && recorded_in_node(policy, root_device, frames, slots[k]->Node_0, record);
            assert(recorded_in_slots(policy, root_device, frames, slots, n, record));
        }
        if slots[n - 1] is Node && recorded_in_node(
            policy,
            root_device,
            frames,
            slots[n - 1]->Node_0,
            record,
        ) {
            assert(recorded_in_slots(policy, root_device, frames, slots, n, record));
        }
    }
}

/// The records that a scan writes are exactly those of the image files that
/// it comes to: a record is written if and only if, at some address in the
/// tree, there is a file that is not passed over and lies below no hidden, unopened
/// or unentered directory, at an admitted depth, that decodes and whose path
/// resolves, and the record is the one of that file.
pub proof fn lemma_records_are_the_reachable_images(
    policy: TraversalPolicy,
    tree: Tree,
    record: RecordView,
)
    ensures
        records(all_effects(scan_of(policy, tree))).contains(record) <==> policy.satisfiable()
            && exists|address: Seq<int>|
            #[trigger] record_at(
                policy,
                tree.report.id.device,
                Seq::empty(),
                tree,
                address,
            ) == Some(record),
{
    if policy.satisfiable() {
        lemma_records_node(policy, tree.report.id.device, Seq::empty(), tree, record);
    } else {
        lemma_all_effects_small(scan_of(policy, tree));
    }
}

/// One event more, which is a failure, leaves the records as they were and
/// puts one diagnostic in.
proof fn lemma_output_with_failure(events: Seq<EventView>, p: int, description: Seq<char>)
    requires
        0 <= p <= events.len(),
    ensures
        records(all_effects(events.insert(p, failure_event(description)))) == records(
            all_effects(events),
        ),
        exists|q: int|
            0 <= q <= diagnostics(all_effects(events)).len() && diagnostics(
                all_effects(events.insert(p, failure_event(description))),
            ) == #[trigger] diagnostics(all_effects(events)).insert(q, description),
{
    let failure = seq![failure_event(description)];
    let first = events.take(p);
    let second = events.skip(p);
    assert(events =~= first + second);
    assert(events.insert(p, failure_event(description)) =~= (first + failure) + second);
    lemma_event_output_concat(first, second);
    lemma_event_output_concat(first + failure, second);
    lemma_event_output_concat(first, failure);
    lemma_all_effects_small(failure);
    lemma_output_of_diagnosis(description);
    let shown_first = diagnostics(all_effects(first));
    let shown_second = diagnostics(all_effects(second));
    assert(records(all_effects(first)) + Seq::<RecordView>::empty() + records(
        all_effects(second),
    ) =~= records(all_effects(first)) + records(all_effects(second)));
    assert(shown_first + seq![description] + shown_second =~= (shown_first
        + shown_second).insert(shown_first.len() as int, description));
}

/// One unreadable entry more in a tree changes what a scan of it writes by one
/// diagnostic and nothing else: every record is written as before, in the same
/// order, and the diagnostics are those from before with the new one among
/// them, where the scan lists the directory that holds the entry, and those
/// from before where it does not.
pub proof fn lemma_scan_isolates_errors(
    policy: TraversalPolicy,
    tree: Tree,
    address: Seq<int>,
    position: int,
    description: Seq<char>,
)
    requires
        node_at(tree, address) matches Some(directory) && 0 <= position
            <= directory.children.len(),
    ensures
        ({
            let before = all_effects(scan_of(policy, tree));
            let after = all_effects(
                scan_of(policy, inject(tree, address, position, description)),
            );
            &&& records(after) == records(before)
            &&& if policy.satisfiable() && listed(
                policy,
                tree.report.id.device,
                Seq::empty(),
                tree,
                address,
            ) {
                exists|q: int|
                    0 <= q <= diagnostics(before).len() && diagnostics(after)
                        == #[trigger] diagnostics(before).insert(q, description)
            } else {
                diagnostics(after) == diagnostics(before)
            }
        }),
{
    let changed = inject(tree, address, position, description);
    assert(changed.report == tree.report);
    if policy.satisfiable() {
        let device = tree.report.id.device;
        let frames = Seq::<FrameView>::empty();
        lemma_error_isolation(policy, device, frames, tree, address, position, description);
        if listed(policy, device, frames, tree, address) {
            let before = trace_node(policy, device, frames, tree);
            let after = trace_node(policy, device, frames, changed);
            let p = choose|p: int|
                0 <= p <= before.len() && after == #[trigger] before.insert(
                    p,
                    failure_event(description),
                );
            lemma_output_with_failure(before, p, description);
            assert(scan_of(policy, tree) == before);
            assert(scan_of(policy, changed) == after);
            assert(records(all_effects(after)) == records(all_effects(before)));
        } else {
            assert(scan_of(policy, changed) == scan_of(policy, tree));
        }
    } else {
        assert(scan_of(policy, changed) == scan_of(policy, tree));
    }
}

/// The least depth decides what is yielded and never what is visited: under
/// two policies that differ in nothing else, a scan lists the same
/// directories, so that entries deep enough are reached through directories
/// that are themselves too shallow to be yielded.
pub proof fn lemma_least_depth_prunes_nothing(
    policy: TraversalPolicy,
    least: usize,
    root_device: u64,
    frames: Seq<FrameView>,
    tree: Tree,
    address: Seq<int>,
)
    ensures
        listed(policy, root_device, frames, tree, address) == listed(
            TraversalPolicy { min_depth: least, ..policy },
            root_device,
            frames,
            tree,
            address,
        ),
    decreases address.len(),
{
    if address.len() > 0 && 0 <= address[0] < tree.children.len() {
        match tree.children[address[0]] {
            Slot::Node(child) => {
                lemma_least_depth_prunes_nothing(
                    policy,
                    least,
                    root_device,
                    frames.push(frame_of(tree.report)),
                    child,
                    address.drop_first(),
                );
            },
            Slot::Unreadable(_) => {},
        }
    }
}

} // verus!
