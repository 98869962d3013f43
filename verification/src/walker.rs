//! The traversal of one directory tree, as a machine that never touches the
//! file system itself.
//!
//! A [`Walker`] holds the stack of directories that are being listed. Its
//! driver asks it what to do next ([`Walker::command`]), does that on the file
//! system, and hands back what it saw ([`Walker::step`]); the step says which
//! item, if any, the traversal yields. The walker decides everything: which
//! entries are hidden and pruned, which links are followed, how deep the walk
//! goes, whether it leaves the root's device, and which directory handle is
//! given up when too many would be open. It also keeps, for each directory, the
//! count of the places of its listing that were read, so that a listing which
//! is taken up again goes on where it stopped and no entry is visited twice.

use crate::entry::{
    copy_text, name_is_hidden, name_is_place, passed_over, text_of, DirectoryEntry, EntryView,
    FileId, ItemView, TraversalError, WalkItem,
};
use crate::policy::TraversalPolicy;
use vstd::prelude::*;

verus! {

/// What the driver saw of one entry. For a symbolic link, `is_dir` and `id`
/// describe what the link points to.
#[derive(Clone, Debug, PartialEq, Eq)]
pub struct EntryReport {
    /// The path by which the entry was reached.
    pub path: String,
    /// The last component of the path, where it is valid Unicode.
    pub file_name: Option<String>,
    /// Whether the entry itself is a symbolic link.
    pub is_symlink: bool,
    /// Whether the entry, or what it points to, is a directory.
    pub is_dir: bool,
    /// The identity of the entry, or of what it points to.
    pub id: FileId,
    /// For a link whose target cannot be examined, the description of why.
    pub link_error: Option<String>,
}

/// The mathematical content of an [`EntryReport`].
pub struct ReportView {
    pub path: Seq<char>,
    pub file_name: Option<Seq<char>>,
    pub is_symlink: bool,
    pub is_dir: bool,
    pub id: FileId,
    pub link_error: Option<Seq<char>>,
}

impl View for EntryReport {
    type V = ReportView;

    open spec fn view(&self) -> ReportView {
        ReportView {
            path: self.path@,
            file_name: text_of(self.file_name),
            is_symlink: self.is_symlink,
            is_dir: self.is_dir,
            id: self.id,
            link_error: text_of(self.link_error),
        }
    }
}

impl EntryReport {
    /// Copies the report.
    pub fn duplicate(&self) -> (copy: EntryReport)
        ensures
            copy == *self,
    {
        EntryReport {
            path: self.path.clone(),
            file_name: copy_text(&self.file_name),
            is_symlink: self.is_symlink,
            is_dir: self.is_dir,
            id: self.id,
            link_error: copy_text(&self.link_error),
        }
    }
}

/// The frame of a directory that was reported.
pub open spec fn frame_of(report: ReportView) -> FrameView {
    FrameView { path: report.path, id: report.id }
}

/// What the walker asks of its driver.
#[derive(Clone, Copy, Debug, PartialEq, Eq)]
pub enum Command {
    /// Examine the root and answer with `Found` or `Failed`.
    Inspect,
    /// Open the directory that was found last and answer with `Opened` or
    /// `Failed`. Where `evict` names a frame, close the handle of that frame
    /// first; its listing is taken up again later.
    Open { evict: Option<usize> },
    /// Read the next entry of the innermost directory and answer with `Found`,
    /// `Failed` or, when there is none left, `Exhausted`, closing the handle.
    /// Where `reopen` is set, the handle of that directory was given up and is
    /// to be opened again first, and the first `taken` places of its listing
    /// are to be passed over, since they were read before; answer with `Gone`
    /// where opening fails.
    Read { reopen: bool, taken: usize },
    /// The traversal is over.
    Finish,
}

/// What the driver answers.
#[derive(Clone, Debug, PartialEq, Eq)]
pub enum Response {
    /// An entry was found.
    Found(EntryReport),
    /// The entry, or the directory to open, could not be read.
    Failed(String),
    /// The directory is open.
    Opened,
    /// The directory has no further entry.
    Exhausted,
    /// The directory, whose handle had been given up, could not be opened
    /// again.
    Gone(String),
}

/// The mathematical content of a [`Response`].
pub enum ResponseView {
    Found(ReportView),
    Failed(Seq<char>),
    Opened,
    Exhausted,
    Gone(Seq<char>),
}

impl View for Response {
    type V = ResponseView;

    open spec fn view(&self) -> ResponseView {
        match self {
            Response::Found(report) => ResponseView::Found(report@),
            Response::Failed(description) => ResponseView::Failed(description@),
            Response::Opened => ResponseView::Opened,
            Response::Exhausted => ResponseView::Exhausted,
            Response::Gone(description) => ResponseView::Gone(description@),
        }
    }
}

/// Where a traversal stands.
#[derive(Clone, Copy, Debug, PartialEq, Eq, Structural)]
pub enum Phase {
    /// The root has not been examined yet.
    Start,
    /// The innermost directory is being listed.
    Listing,
    /// A directory was found and is to be opened.
    Opening,
    /// Nothing is left to do.
    Done,
}

/// What the walker makes of an entry.
#[derive(Clone, Copy, Debug, PartialEq, Eq)]
pub enum Verdict {
    /// The entry is passed over for its hidden name, and nothing below it is
    /// seen.
    Pruned,
    /// The entry is a link that is to be followed and cannot be.
    Broken,
    /// The entry is yielded and not entered.
    Leaf,
    /// The entry is a followed link to a directory that contains it.
    Loop,
    /// The entry is a directory that is yielded and not entered: it lies at
    /// the greatest depth, or on another device.
    Shut,
    /// The entry is a directory that is to be opened.
    Descend,
}

/// A directory that is being listed.
struct Frame {
    path: String,
    id: FileId,
}

/// The mathematical content of a frame.
pub struct FrameView {
    pub path: Seq<char>,
    pub id: FileId,
}

impl View for Frame {
    type V = FrameView;

    closed spec fn view(&self) -> FrameView {
        FrameView { path: self.path@, id: self.id }
    }
}

/// The state of a traversal.
pub struct WalkerView {
    pub policy: TraversalPolicy,
    /// The device of the root, once the root has been found.
    pub root_device: u64,
    /// The directories being listed, the root first.
    pub frames: Seq<FrameView>,
    /// The frames from this index on hold an open handle.
    pub open_from: nat,
    /// For each frame, the number of places of its listing that were read.
    pub cursors: Seq<usize>,
    pub phase: Phase,
    /// The directory that is to be opened.
    pub pending: Option<ReportView>,
}

/// The traversal of one tree.
pub struct Walker {
    policy: TraversalPolicy,
    root_device: u64,
    frames: Vec<Frame>,
    open_from: usize,
    cursors: Vec<usize>,
    phase: Phase,
    pending: Option<EntryReport>,
}

/// The content of an optional report.
pub open spec fn report_text(report: Option<EntryReport>) -> Option<ReportView> {
    match report {
        Some(r) => Some(r@),
        None => None,
    }
}

/// The content of an optional item.
pub open spec fn item_text(item: Option<WalkItem>) -> Option<ItemView> {
    match item {
        Some(i) => Some(i@),
        None => None,
    }
}

/// The contents of a stack of frames.
spec fn frames_view(frames: Seq<Frame>) -> Seq<FrameView> {
    frames.map_values(|frame: Frame| frame@)
}

/// Whether an entry is entered like a directory: it is one, or it is a link to
/// one and links are followed.
pub open spec fn enters(policy: TraversalPolicy, report: ReportView) -> bool {
    report.is_dir && (!report.is_symlink || policy.follow_symlinks)
}

/// The innermost frame whose directory has the given identity.
pub open spec fn loop_ancestor(frames: Seq<FrameView>, id: FileId) -> Option<int>
    decreases frames.len(),
{
    if frames.len() == 0 {
        None
    } else if frames.last().id == id {
        Some(frames.len() - 1)
    } else {
        loop_ancestor(frames.drop_last(), id)
    }
}

/// What is made of an entry found below the given frames, in a tree whose root
/// lies on `root_device`.
///
/// An entry with a hidden name is pruned before anything else is looked at;
/// the root given as `.` or `..` is not, since that names a place. A link that is
/// followed and leads nowhere is broken. What is not entered is a leaf: a file,
/// or a link while links are not followed. A followed link to a directory that
/// contains it closes a loop. A directory at the greatest depth, or on another
/// device than the root while the traversal stays on one, is shut. Any other
/// directory is descended into.
pub open spec fn verdict(
    policy: TraversalPolicy,
    root_device: u64,
    frames: Seq<FrameView>,
    report: ReportView,
) -> Verdict {
    if passed_over(report.file_name, frames.len()) {
        Verdict::Pruned
    } else if policy.follow_symlinks && report.is_symlink && report.link_error is Some {
        Verdict::Broken
    } else if !enters(policy, report) {
        Verdict::Leaf
    } else if policy.follow_symlinks && report.is_symlink && loop_ancestor(frames, report.id)
        is Some {
        Verdict::Loop
    } else if !policy.within_max(frames.len() as int + 1) || (policy.stay_on_filesystem
        && report.id.device != root_device) {
        Verdict::Shut
    } else {
        Verdict::Descend
    }
}

/// The entry that stands for a report at a depth.
pub open spec fn entry_of(report: ReportView, depth: nat, is_directory: bool) -> EntryView {
    EntryView { path: report.path, depth, is_directory, file_name: report.file_name }
}

/// An entry is yielded when it lies at the least depth or below.
pub open spec fn shown(policy: TraversalPolicy, entry: EntryView) -> Option<ItemView> {
    if policy.min_depth <= entry.depth {
        Some(ItemView::Entry(entry))
    } else {
        None
    }
}

/// The description of a loop.
pub open spec fn loop_text(child: Seq<char>, ancestor: Seq<char>) -> Seq<char> {
    "File system loop found: "@ + child + " points to an ancestor "@ + ancestor
}

/// The item that an entry gives under a verdict, before anything is opened.
pub open spec fn yielded(
    policy: TraversalPolicy,
    frames: Seq<FrameView>,
    report: ReportView,
    verdict: Verdict,
) -> Option<ItemView> {
    match verdict {
        Verdict::Pruned => None,
        Verdict::Broken => Some(ItemView::Failure(report.link_error->Some_0)),
        Verdict::Leaf => shown(policy, entry_of(report, frames.len(), false)),
        Verdict::Loop => Some(
            ItemView::Failure(
                loop_text(report.path, frames[loop_ancestor(frames, report.id)->Some_0].path),
            ),
        ),
        Verdict::Shut => shown(policy, entry_of(report, frames.len(), true)),
        Verdict::Descend => None,
    }
}

/// The state in which a traversal begins. Under bounds that admit no depth
/// it is over before it starts.
pub open spec fn initial(policy: TraversalPolicy) -> WalkerView {
    WalkerView {
        policy,
        root_device: 0,
        frames: Seq::empty(),
        open_from: 0,
        cursors: Seq::empty(),
        phase: if policy.satisfiable() {
            Phase::Start
        } else {
            Phase::Done
        },
        pending: None,
    }
}

/// The state after an entry has been found, and the item it gives.
pub open spec fn consider(state: WalkerView, report: ReportView) -> (WalkerView, Option<ItemView>) {
    let v = verdict(state.policy, state.root_device, state.frames, report);
    if v == Verdict::Descend {
        (WalkerView { phase: Phase::Opening, pending: Some(report), ..state }, None)
    } else {
        (state, yielded(state.policy, state.frames, report, v))
    }
}

/// The state in which nothing is left to do.
pub open spec fn finished(state: WalkerView) -> WalkerView {
    WalkerView { phase: Phase::Done, pending: None, ..state }
}

/// The state after the innermost directory has been left.
pub open spec fn left(state: WalkerView) -> WalkerView {
    let frames = state.frames.drop_last();
    WalkerView {
        frames,
        cursors: state.cursors.drop_last(),
        open_from: if state.open_from <= frames.len() {
            state.open_from
        } else {
            frames.len()
        },
        phase: if frames.len() == 0 {
            Phase::Done
        } else {
            Phase::Listing
        },
        ..state
    }
}

/// A count of places read, one further; it stays where the machine can count
/// no further.
pub open spec fn bumped(count: usize) -> usize {
    if count < usize::MAX {
        (count + 1) as usize
    } else {
        count
    }
}

/// The state after one more place of the innermost listing has been read.
pub open spec fn counted(state: WalkerView) -> WalkerView {
    if state.cursors.len() > 0 {
        WalkerView {
            cursors: state.cursors.update(
                state.cursors.len() - 1,
                bumped(state.cursors.last()),
            ),
            ..state
        }
    } else {
        state
    }
}

/// Whether opening one more directory needs a handle to be given up first.
pub open spec fn must_evict(state: WalkerView) -> bool {
    state.frames.len() - state.open_from >= state.policy.max_open_handles
}

/// The state once the handle of the innermost directory is open again.
pub open spec fn reopened(state: WalkerView) -> WalkerView {
    if state.frames.len() > 0 && state.open_from >= state.frames.len() {
        WalkerView { open_from: (state.frames.len() - 1) as nat, ..state }
    } else {
        state
    }
}

/// The state after the pending directory has been tried, with the oldest
/// handle given up where that was needed.
pub open spec fn tried(state: WalkerView) -> WalkerView {
    WalkerView {
        open_from: if must_evict(state) {
            state.open_from + 1
        } else {
            state.open_from
        },
        pending: None,
        ..state
    }
}

/// The state after a response, and the item that the step yields.
///
/// At the start the root is considered like any entry, and the traversal ends
/// there unless the root is to be opened. While a directory is listed, each
/// entry found is considered, an entry that failed becomes a failure and the
/// listing goes on, and at the end of the entries the directory is left; a
/// directory that cannot be opened again becomes a failure and is left. A
/// directory that opens is yielded and listed next; one that does not becomes a
/// failure. A response that does not answer the command ends the traversal.
pub open spec fn next(state: WalkerView, response: ResponseView) -> (WalkerView, Option<ItemView>) {
    match state.phase {
        Phase::Done => (state, None),
        Phase::Start => match response {
            ResponseView::Found(report) => {
                let rooted = WalkerView { root_device: report.id.device, ..state };
                let (after, item) = consider(rooted, report);
                if after.phase == Phase::Opening {
                    (after, item)
                } else {
                    (finished(after), item)
                }
            },
            ResponseView::Failed(description) => (
                finished(state),
                Some(ItemView::Failure(description)),
            ),
            _ => (finished(state), None),
        },
        Phase::Listing => match response {
            ResponseView::Found(report) => consider(counted(reopened(state)), report),
            ResponseView::Failed(description) => (
                counted(reopened(state)),
                Some(ItemView::Failure(description)),
            ),
            ResponseView::Exhausted => (left(reopened(state)), None),
            ResponseView::Gone(description) => (
                left(reopened(state)),
                Some(ItemView::Failure(description)),
            ),
            ResponseView::Opened => (finished(state), None),
        },
        Phase::Opening => match response {
            ResponseView::Opened => {
                let report = state.pending->Some_0;
                let entered = tried(state);
                (
                    WalkerView {
                        frames: state.frames.push(frame_of(report)),
                        cursors: state.cursors.push(0),
                        phase: Phase::Listing,
                        ..entered
                    },
                    shown(state.policy, entry_of(report, state.frames.len(), true)),
                )
            },
            ResponseView::Failed(description) => {
                let entered = tried(state);
                (
                    WalkerView {
                        phase: if state.frames.len() == 0 {
                            Phase::Done
                        } else {
                            Phase::Listing
                        },
                        ..entered
                    },
                    Some(ItemView::Failure(description)),
                )
            },
            _ => (finished(state), None),
        },
    }
}

/// The command that a state waits for.
pub open spec fn awaited(state: WalkerView) -> Command {
    match state.phase {
        Phase::Start => Command::Inspect,
        Phase::Listing => Command::Read {
            reopen: state.open_from >= state.frames.len(),
            taken: state.cursors.last(),
        },
        Phase::Opening => Command::Open {
            evict: if must_evict(state) {
                Some(state.open_from as usize)
            } else {
                None
            },
        },
        Phase::Done => Command::Finish,
    }
}

impl WalkerView {
    /// The number of directory handles that are open.
    pub open spec fn open_handles(self) -> int {
        self.frames.len() - self.open_from
    }

    /// What holds of every state that a traversal reaches: every directory
    /// being listed has its count of places read, no more handles are open
    /// than the policy allows, the entries of the innermost directory lie
    /// within the greatest depth, and a directory that is to be opened is not
    /// passed over for its name and may be entered.
    pub open spec fn wf(self) -> bool {
        &&& self.policy.valid()
        &&& self.open_from <= self.frames.len()
        &&& self.cursors.len() == self.frames.len()
        &&& self.open_handles() <= self.policy.max_open_handles
        &&& self.policy.within_max(self.frames.len() as int)
        &&& self.phase == Phase::Start ==> self.frames.len() == 0
        &&& self.phase == Phase::Listing ==> self.frames.len() > 0
        &&& self.phase == Phase::Opening <==> self.pending is Some
        &&& self.pending matches Some(report) ==> {
            &&& !passed_over(report.file_name, self.frames.len())
            &&& enters(self.policy, report)
            &&& self.policy.within_max(self.frames.len() as int + 1)
        }
    }
}

impl View for Walker {
    type V = WalkerView;

    closed spec fn view(&self) -> WalkerView {
        WalkerView {
            policy: self.policy,
            root_device: self.root_device,
            frames: frames_view(self.frames@),
            open_from: self.open_from as nat,
            cursors: self.cursors@,
            phase: self.phase,
            pending: report_text(self.pending),
        }
    }
}

/// Renders the description of a loop.
pub fn loop_message(child: &str, ancestor: &str) -> (message: String)
    ensures
        message@ == loop_text(child@, ancestor@),
{
    let mut message: String = String::from_str("File system loop found: ");
    message.append(child);
    message.append(" points to an ancestor ");
    message.append(ancestor);
    assert(message@ =~= loop_text(child@, ancestor@));
    message
}

/// Finds the innermost frame whose directory has the given identity.
fn find_ancestor(frames: &Vec<Frame>, id: FileId) -> (found: Option<usize>)
    ensures
        found is Some <==> loop_ancestor(frames_view(frames@), id) is Some,
        found matches Some(k) ==> k < frames@.len() && loop_ancestor(frames_view(frames@), id)
            == Some(k as int),
{
    let ghost all = frames_view(frames@);
    let mut i: usize = frames.len();
    assert(all.take(i as int) =~= all);
    while i > 0
        invariant
            i <= frames@.len(),
            all == frames_view(frames@),
            loop_ancestor(all, id) == loop_ancestor(all.take(i as int), id),
        decreases i,
    {
        let frame: &Frame = &frames[i - 1];
        assert(all.take(i as int).last() == frame@);
        assert(all.take(i as int).drop_last() =~= all.take(i - 1));
        if frame.id.device == id.device && frame.id.inode == id.inode {
            return Some(i - 1);
        }
        i -= 1;
    }
    None
}

/// Decides what to make of an entry.
fn judge(
    policy: &TraversalPolicy,
    root_device: u64,
    frames: &Vec<Frame>,
    report: &EntryReport,
) -> (ruling: Verdict)
    ensures
        ruling == verdict(*policy, root_device, frames_view(frames@), report@),
{
    if name_is_hidden(&report.file_name) && !(frames.len() == 0 && name_is_place(
        &report.file_name,
    )) {
        return Verdict::Pruned;
    }
    if policy.follow_symlinks && report.is_symlink && report.link_error.is_some() {
        return Verdict::Broken;
    }
    if !(report.is_dir && (!report.is_symlink || policy.follow_symlinks)) {
        return Verdict::Leaf;
    }
    if policy.follow_symlinks && report.is_symlink {
        if find_ancestor(frames, report.id).is_some() {
            return Verdict::Loop;
        }
    }
    if !policy.allows_below(frames.len()) || (policy.stay_on_filesystem && report.id.device
        != root_device) {
        Verdict::Shut
    } else {
        Verdict::Descend
    }
}

/// Makes the entry of a report, as an item, where its depth lets it show.
fn show(policy: &TraversalPolicy, report: &EntryReport, depth: usize, is_directory: bool) -> (item:
    Option<WalkItem>)
    ensures
        item_text(item) == shown(*policy, entry_of(report@, depth as nat, is_directory)),
{
    if policy.min_depth <= depth {
        Some(
            WalkItem::Entry(
                DirectoryEntry {
                    path: report.path.clone(),
                    depth,
                    is_directory,
                    file_name: copy_text(&report.file_name),
                },
            ),
        )
    } else {
        None
    }
}

impl Walker {
    /// Begins a traversal under a policy.
    pub fn new(policy: TraversalPolicy) -> (walker: Walker)
        requires
            policy.valid(),
        ensures
            walker@ == initial(policy),
            walker@.wf(),
    {
        let phase = if policy.is_satisfiable() {
            Phase::Start
        } else {
            Phase::Done
        };
        let walker = Walker {
            policy,
            root_device: 0,
            frames: Vec::new(),
            open_from: 0,
            cursors: Vec::new(),
            phase,
            pending: None,
        };
        assert(frames_view(walker.frames@) =~= Seq::<FrameView>::empty());
        walker
    }

    /// Says what the driver is to do next.
    pub fn command(&self) -> (command: Command)
        requires
            self@.wf(),
        ensures
            command == awaited(self@),
    {
        match self.phase {
            Phase::Start => Command::Inspect,
            Phase::Listing => Command::Read {
                reopen: self.open_from >= self.frames.len(),
                taken: self.cursors[self.cursors.len() - 1],
            },
            Phase::Opening => {
                let evict: Option<usize> = if self.frames.len() - self.open_from
                    >= self.policy.max_open_handles {
                    Some(self.open_from)
                } else {
                    None
                };
                Command::Open { evict }
            },
            Phase::Done => Command::Finish,
        }
    }

    /// Says whether the traversal is over.
    pub fn is_done(&self) -> (done: bool)
        ensures
            done == (self@.phase == Phase::Done),
    {
        match self.phase {
            Phase::Done => true,
            _ => false,
        }
    }

    /// The number of directories that are being listed, which is the depth of
    /// the entries that are found next.
    pub fn depth(&self) -> (depth: usize)
        ensures
            depth == self@.frames.len(),
    {
        self.frames.len()
    }

    /// The number of directory handles that are open.
    pub fn open_handles(&self) -> (count: usize)
        requires
            self@.wf(),
        ensures
            count == self@.open_handles(),
            count <= self@.policy.max_open_handles,
    {
        self.frames.len() - self.open_from
    }

    /// The policy of the traversal.
    pub fn policy(&self) -> (policy: TraversalPolicy)
        ensures
            policy == self@.policy,
    {
        self.policy
    }

    /// Takes an entry that was found: records it as the directory to open, or
    /// gives the item that it yields.
    fn found(&mut self, report: EntryReport) -> (item: Option<WalkItem>)
        requires
            old(self)@.wf(),
            old(self)@.phase != Phase::Opening,
        ensures
            final(self)@ == consider(old(self)@, report@).0,
            item_text(item) == consider(old(self)@, report@).1,
    {
        let ruling = judge(&self.policy, self.root_device, &self.frames, &report);
        let depth: usize = self.frames.len();
        match ruling {
            Verdict::Pruned => None,
            Verdict::Broken => {
                match report.link_error {
                    Some(description) => Some(
                        WalkItem::Failure(TraversalError { message: description }),
                    ),
                    None => None,
                }
            },
            Verdict::Leaf => show(&self.policy, &report, depth, false),
            Verdict::Loop => match find_ancestor(&self.frames, report.id) {
                Some(k) => {
                    let ancestor: &Frame = &self.frames[k];
                    assert(frames_view(self.frames@)[k as int] == ancestor@);
                    Some(
                        WalkItem::Failure(
                            TraversalError {
                                message: loop_message(report.path.as_str(), ancestor.path.as_str()),
                            },
                        ),
                    )
                },
                None => None,
            },
            Verdict::Shut => show(&self.policy, &report, depth, true),
            Verdict::Descend => {
                self.phase = Phase::Opening;
                self.pending = Some(report);
                None
            },
        }
    }

    /// Takes the driver's answer to the command, moves the traversal on, and
    /// gives the item that the step yields, if any.
    pub fn step(&mut self, response: Response) -> (item: Option<WalkItem>)
        requires
            old(self)@.wf(),
        ensures
            final(self)@.wf(),
            final(self)@ == next(old(self)@, response@).0,
            item_text(item) == next(old(self)@, response@).1,
    {
        match self.phase {
            Phase::Done => None,
            Phase::Start => match response {
                Response::Found(report) => {
                    self.root_device = report.id.device;
                    let item = self.found(report);
                    match self.phase {
                        Phase::Opening => {},
                        _ => {
                            self.phase = Phase::Done;
                        },
                    }
                    item
                },
                Response::Failed(description) => {
                    self.phase = Phase::Done;
                    Some(WalkItem::Failure(TraversalError { message: description }))
                },
                _ => {
                    self.phase = Phase::Done;
                    None
                },
            },
            Phase::Listing => match response {
                Response::Found(report) => {
                    self.reopen();
                    self.count();
                    self.found(report)
                },
                Response::Failed(description) => {
                    self.reopen();
                    self.count();
                    Some(WalkItem::Failure(TraversalError { message: description }))
                },
                Response::Exhausted => {
                    self.reopen();
                    self.leave();
                    None
                },
                Response::Gone(description) => {
                    self.reopen();
                    self.leave();
                    Some(WalkItem::Failure(TraversalError { message: description }))
                },
                Response::Opened => {
                    self.phase = Phase::Done;
                    None
                },
            },
            Phase::Opening => {
                let depth: usize = self.frames.len();
                let evict: bool = depth - self.open_from >= self.policy.max_open_handles;
                let pending: Option<EntryReport> = self.pending.take();
                match (response, pending) {
                    (Response::Opened, Some(report)) => {
                        if evict {
                            self.open_from = self.open_from + 1;
                        }
                        let item = show(&self.policy, &report, depth, true);
                        let ghost before = self.frames@;
                        let frame = Frame { path: report.path, id: report.id };
                        self.frames.push(frame);
                        self.cursors.push(0);
                        assert(frames_view(self.frames@) =~= frames_view(before).push(frame@));
                        self.phase = Phase::Listing;
                        item
                    },
                    (Response::Failed(description), _) => {
                        if evict {
                            self.open_from = self.open_from + 1;
                        }
                        self.phase = if depth == 0 {
                            Phase::Done
                        } else {
                            Phase::Listing
                        };
                        Some(WalkItem::Failure(TraversalError { message: description }))
                    },
                    _ => {
                        self.phase = Phase::Done;
                        None
                    },
                }
            },
        }
    }

    /// Counts one more place of the innermost listing as read.
    fn count(&mut self)
        requires
            old(self)@.wf(),
            old(self)@.phase == Phase::Listing,
        ensures
            final(self)@ == counted(old(self)@),
            final(self)@.wf(),
    {
        let last: usize = self.cursors.len() - 1;
        let taken: usize = self.cursors[last];
        if taken < usize::MAX {
            self.cursors.set(last, taken + 1);
        }
        assert(self.cursors@ =~= counted(old(self)@).cursors);
    }

    /// Leaves the innermost directory.
    fn leave(&mut self)
        requires
            old(self)@.wf(),
            old(self)@.phase == Phase::Listing,
        ensures
            final(self)@ == left(old(self)@),
            final(self)@.wf(),
    {
        let ghost before = self.frames@;
        self.frames.pop();
        self.cursors.pop();
        assert(frames_view(self.frames@) =~= frames_view(before).drop_last());
        assert(self.cursors@ =~= old(self).cursors@.drop_last());
        if self.open_from > self.frames.len() {
            self.open_from = self.frames.len();
        }
        if self.frames.len() == 0 {
            self.phase = Phase::Done;
        }
    }

    /// Counts the handle of the innermost directory as open again.
    fn reopen(&mut self)
        requires
            old(self)@.wf(),
            old(self)@.phase == Phase::Listing,
        ensures
            final(self)@ == reopened(old(self)@),
            final(self)@.wf(),
    {
        if self.open_from >= self.frames.len() {
            self.open_from = self.frames.len() - 1;
        }
    }
}

} // verus!
