//! What is written for each item of a traversal.
//!
//! An item passes through a line of stages: it is received, decoded,
//! fingerprinted, its path is resolved, and a record is written. Decoding and
//! resolving touch the file system and belong to the caller; each function here
//! takes the outcome of the stage before it and says what to write, as a list of
//! [`Effect`]s to perform in order. A stage that fails ends the line with a
//! diagnostic, and the scan goes on with the next item.
//!
//! Records go to a sink that may buffer; diagnostics go to one that does not.
//! Before each diagnostic the record sink is flushed, so that on a terminal
//! which shows both, every line appears in the order in which it was produced.

use crate::entry::{ItemView, WalkItem};
use crate::fingerprint::{fingerprint, fingerprint_of, GridView, PixelGrid};
use vstd::prelude::*;

verus! {

/// What is known of an image that was processed: its fingerprint and the
/// canonical form of its path.
#[derive(Clone, Debug, PartialEq, Eq)]
pub struct ResultRecord {
    pub fingerprint: String,
    pub canonical_path: String,
}

/// The mathematical content of a [`ResultRecord`].
pub struct RecordView {
    pub fingerprint: Seq<char>,
    pub canonical_path: Seq<char>,
}

impl View for ResultRecord {
    type V = RecordView;

    open spec fn view(&self) -> RecordView {
        RecordView { fingerprint: self.fingerprint@, canonical_path: self.canonical_path@ }
    }
}

/// One operation on the two sinks.
#[derive(Clone, Debug, PartialEq, Eq)]
pub enum Effect {
    /// Write the line of a record to the record sink.
    Write(ResultRecord),
    /// Flush the record sink.
    Flush,
    /// Write the diagnostic with this description to the diagnostic sink.
    Report(String),
}

/// The mathematical content of an [`Effect`].
pub enum EffectView {
    Write(RecordView),
    Flush,
    Report(Seq<char>),
}

impl View for Effect {
    type V = EffectView;

    open spec fn view(&self) -> EffectView {
        match self {
            Effect::Write(record) => EffectView::Write(record@),
            Effect::Flush => EffectView::Flush,
            Effect::Report(description) => EffectView::Report(description@),
        }
    }
}

/// The contents of a sequence of effects.
pub open spec fn effects_view(effects: Seq<Effect>) -> Seq<EffectView> {
    effects.map_values(|effect: Effect| effect@)
}

/// What becomes of an item when it is received.
#[derive(Clone, Debug, PartialEq, Eq)]
pub enum Reception {
    /// Nothing more is to be done for the item than to perform these effects.
    Settled(Vec<Effect>),
    /// The file at this path is to be decoded.
    Decode(String),
}

/// The mathematical content of a [`Reception`].
pub enum ReceptionView {
    Settled(Seq<EffectView>),
    Decode(Seq<char>),
}

impl View for Reception {
    type V = ReceptionView;

    open spec fn view(&self) -> ReceptionView {
        match self {
            Reception::Settled(effects) => ReceptionView::Settled(effects_view(effects@)),
            Reception::Decode(path) => ReceptionView::Decode(path@),
        }
    }
}

/// What becomes of a file when it has been decoded.
#[derive(Clone, Debug, PartialEq, Eq)]
pub enum Digest {
    /// The file is no image: nothing more is to be done than to perform these
    /// effects.
    Rejected(Vec<Effect>),
    /// The image has this fingerprint, and its path is to be resolved.
    Fingerprint(String),
}

/// The mathematical content of a [`Digest`].
pub enum DigestView {
    Rejected(Seq<EffectView>),
    Fingerprint(Seq<char>),
}

impl View for Digest {
    type V = DigestView;

    open spec fn view(&self) -> DigestView {
        match self {
            Digest::Rejected(effects) => DigestView::Rejected(effects_view(effects@)),
            Digest::Fingerprint(text) => DigestView::Fingerprint(text@),
        }
    }
}

/// A record: the fingerprint, a tab, the canonical path, and a line break.
pub open spec fn record_text(fingerprint: Seq<char>, path: Seq<char>) -> Seq<char> {
    fingerprint + seq!['\t'] + path + seq!['\n']
}

/// A diagnostic: `ERROR: `, the description, and a line break.
pub open spec fn diagnostic_text(description: Seq<char>) -> Seq<char> {
    seq!['E', 'R', 'R', 'O', 'R', ':', ' '] + description + seq!['\n']
}

/// The effects of a failure: the record sink is flushed, then the diagnostic is
/// written.
pub open spec fn diagnosis(description: Seq<char>) -> Seq<EffectView> {
    seq![EffectView::Flush, EffectView::Report(description)]
}

/// The effects of a record.
pub open spec fn record(fingerprint: Seq<char>, path: Seq<char>) -> Seq<EffectView> {
    seq![EffectView::Write(RecordView { fingerprint, canonical_path: path })]
}

/// What receiving an item leads to: a failure is diagnosed, a directory is
/// passed over, and any other entry is to be decoded.
pub open spec fn received(item: ItemView) -> ReceptionView {
    match item {
        ItemView::Failure(description) => ReceptionView::Settled(diagnosis(description)),
        ItemView::Entry(entry) => if entry.is_directory {
            ReceptionView::Settled(Seq::empty())
        } else {
            ReceptionView::Decode(entry.path)
        },
    }
}

/// What a decoded file leads to: a decoding error is diagnosed, and an image
/// is fingerprinted.
pub open spec fn digested(decoded: Result<GridView, Seq<char>>) -> DigestView {
    match decoded {
        Ok(grid) => DigestView::Fingerprint(fingerprint_of(grid)),
        Err(description) => DigestView::Rejected(diagnosis(description)),
    }
}

/// What a fingerprinted image leads to once its path has been looked up: a
/// record where the path resolved, and a diagnostic where it did not.
pub open spec fn emitted(fingerprint: Seq<char>, resolved: Result<Seq<char>, Seq<char>>) -> Seq<
    EffectView,
> {
    match resolved {
        Ok(path) => record(fingerprint, path),
        Err(description) => diagnosis(description),
    }
}

/// Everything that an item leads to, given what decoding the file and
/// resolving its path come to. The file is decoded only where the item is
/// received as a file, and its path is resolved only where it is an image.
pub open spec fn item_effects(
    item: ItemView,
    decoded: Result<GridView, Seq<char>>,
    resolved: Result<Seq<char>, Seq<char>>,
) -> Seq<EffectView> {
    match received(item) {
        ReceptionView::Settled(effects) => effects,
        ReceptionView::Decode(_) => match digested(decoded) {
            DigestView::Rejected(effects) => effects,
            DigestView::Fingerprint(text) => emitted(text, resolved),
        },
    }
}

/// The line that an effect writes, if it writes one.
pub open spec fn line_of(effect: EffectView) -> Option<Seq<char>> {
    match effect {
        EffectView::Write(record) => Some(record_text(record.fingerprint, record.canonical_path)),
        EffectView::Flush => None,
        EffectView::Report(description) => Some(diagnostic_text(description)),
    }
}

/// The content of a decoding outcome.
pub open spec fn decoded_view(decoded: Result<PixelGrid, String>) -> Result<GridView, Seq<char>> {
    match decoded {
        Ok(grid) => Ok(grid@),
        Err(description) => Err(description@),
    }
}

/// The content of a path lookup.
pub open spec fn resolved_view(resolved: Result<String, String>) -> Result<Seq<char>, Seq<char>> {
    match resolved {
        Ok(path) => Ok(path@),
        Err(description) => Err(description@),
    }
}

/// Renders a record.
pub fn record_line(fingerprint: &str, path: &str) -> (line: String)
    ensures
        line@ == record_text(fingerprint@, path@),
{
    proof {
        reveal_strlit("\t");
        reveal_strlit("\n");
    }
    let mut line: String = String::from_str(fingerprint);
    line.append("\t");
    line.append(path);
    line.append("\n");
    assert(line@ =~= record_text(fingerprint@, path@));
    line
}

/// Renders a diagnostic.
pub fn diagnostic_line(description: &str) -> (line: String)
    ensures
        line@ == diagnostic_text(description@),
{
    proof {
        reveal_strlit("ERROR: ");
        reveal_strlit("\n");
    }
    let mut line: String = String::from_str("ERROR: ");
    line.append(description);
    line.append("\n");
    assert(line@ =~= diagnostic_text(description@));
    line
}

/// Lists the effects of a failure with the given description.
pub fn diagnose(description: &str) -> (effects: Vec<Effect>)
    ensures
        effects_view(effects@) == diagnosis(description@),
{
    let mut effects: Vec<Effect> = Vec::new();
    effects.push(Effect::Flush);
    effects.push(Effect::Report(String::from_str(description)));
    assert(effects_view(effects@) =~= diagnosis(description@));
    effects
}

/// Receives an item of a traversal.
pub fn receive(item: &WalkItem) -> (reception: Reception)
    ensures
        reception@ == received(item@),
{
    match item {
        WalkItem::Failure(error) => Reception::Settled(diagnose(error.message.as_str())),
        WalkItem::Entry(entry) => {
            if entry.is_directory {
                let effects: Vec<Effect> = Vec::new();
                assert(effects_view(effects@) =~= Seq::<EffectView>::empty());
                Reception::Settled(effects)
            } else {
                Reception::Decode(entry.path.clone())
            }
        },
    }
}

/// Takes the outcome of decoding a file, and fingerprints the image if there is
/// one.
pub fn digest(decoded: &Result<PixelGrid, String>) -> (digest: Digest)
    ensures
        digest@ == digested(decoded_view(*decoded)),
{
    match decoded {
        Ok(grid) => Digest::Fingerprint(fingerprint(grid)),
        Err(description) => Digest::Rejected(diagnose(description.as_str())),
    }
}

/// Takes the fingerprint of an image and the outcome of resolving its path, and
/// lists what to write. A path that does not resolve costs the image its
/// record and gives a diagnostic; the scan goes on.
pub fn emit(fingerprint: &str, resolved: &Result<String, String>) -> (effects: Vec<Effect>)
    ensures
        effects_view(effects@) == emitted(fingerprint@, resolved_view(*resolved)),
{
    match resolved {
        Ok(path) => {
            let mut effects: Vec<Effect> = Vec::new();
            effects.push(
                Effect::Write(
                    ResultRecord {
                        fingerprint: String::from_str(fingerprint),
                        canonical_path: path.clone(),
                    },
                ),
            );
            assert(effects_view(effects@) =~= record(fingerprint@, path@));
            effects
        },
        Err(description) => diagnose(description.as_str()),
    }
}

/// Carries an item through all the stages at once, where the outcomes of
/// decoding its file and of resolving its path are known beforehand.
pub fn process(
    item: &WalkItem,
    decoded: &Result<PixelGrid, String>,
    resolved: &Result<String, String>,
) -> (effects: Vec<Effect>)
    ensures
        effects_view(effects@) == item_effects(
            item@,
            decoded_view(*decoded),
            resolved_view(*resolved),
        ),
{
    match receive(item) {
        Reception::Settled(effects) => effects,
        Reception::Decode(_) => match digest(decoded) {
            Digest::Rejected(effects) => effects,
            Digest::Fingerprint(text) => emit(text.as_str(), resolved),
        },
    }
}

impl Effect {
    /// Renders the line that the effect writes, if it writes one.
    pub fn line(&self) -> (line: Option<String>)
        ensures
            crate::entry::text_of(line) == line_of(self@),
    {
        match self {
            Effect::Write(record) => Some(
                record_line(record.fingerprint.as_str(), record.canonical_path.as_str()),
            ),
            Effect::Flush => None,
            Effect::Report(description) => Some(diagnostic_line(description.as_str())),
        }
    }
}

/// The records that a sequence of effects writes, in order.
pub open spec fn records(effects: Seq<EffectView>) -> Seq<RecordView>
    decreases effects.len(),
{
    if effects.len() == 0 {
        Seq::empty()
    } else {
        match effects.last() {
            EffectView::Write(record) => records(effects.drop_last()).push(record),
            _ => records(effects.drop_last()),
        }
    }
}

/// The descriptions of the diagnostics that a sequence of effects reports, in
/// order.
pub open spec fn diagnostics(effects: Seq<EffectView>) -> Seq<Seq<char>>
    decreases effects.len(),
{
    if effects.len() == 0 {
        Seq::empty()
    } else {
        match effects.last() {
            EffectView::Report(description) => diagnostics(effects.drop_last()).push(description),
            _ => diagnostics(effects.drop_last()),
        }
    }
}

/// The records of two sequences of effects, one after the other, are those of
/// the first followed by those of the second; and so are the diagnostics.
pub proof fn lemma_output_concat(first: Seq<EffectView>, second: Seq<EffectView>)
    ensures
        records(first + second) == records(first) + records(second),
        diagnostics(first + second) == diagnostics(first) + diagnostics(second),
    decreases second.len(),
{
    if second.len() == 0 {
        assert(first + second =~= first);
        assert(records(first) + records(second) =~= records(first));
        assert(diagnostics(first) + diagnostics(second) =~= diagnostics(first));
    } else {
        assert((first + second).drop_last() =~= first + second.drop_last());
        assert((first + second).last() == second.last());
        lemma_output_concat(first, second.drop_last());
        assert(records(first + second) =~= records(first) + records(second));
        assert(diagnostics(first + second) =~= diagnostics(first) + diagnostics(second));
    }
}

/// A failure reports one diagnostic and writes no record.
pub proof fn lemma_output_of_diagnosis(description: Seq<char>)
    ensures
        records(diagnosis(description)) == Seq::<RecordView>::empty(),
        diagnostics(diagnosis(description)) == seq![description],
{
    let effects = diagnosis(description);
    assert(effects.drop_last() =~= seq![EffectView::Flush]);
    assert(effects.drop_last().drop_last() =~= Seq::<EffectView>::empty());
    assert(records(effects.drop_last().drop_last()) =~= Seq::<RecordView>::empty());
    assert(diagnostics(effects.drop_last().drop_last()) =~= Seq::<Seq<char>>::empty());
    assert(records(effects.drop_last()) =~= Seq::<RecordView>::empty());
    assert(diagnostics(effects.drop_last()) =~= Seq::<Seq<char>>::empty());
    assert(diagnostics(effects) =~= seq![description]);
}

/// A record writes itself and reports nothing.
pub proof fn lemma_output_of_record(fingerprint: Seq<char>, path: Seq<char>)
    ensures
        records(record(fingerprint, path)) == seq![
            RecordView { fingerprint, canonical_path: path },
        ],
        diagnostics(record(fingerprint, path)) == Seq::<Seq<char>>::empty(),
{
    let effects = record(fingerprint, path);
    assert(effects.drop_last() =~= Seq::<EffectView>::empty());
    assert(records(effects.drop_last()) =~= Seq::<RecordView>::empty());
    assert(diagnostics(effects.drop_last()) =~= Seq::<Seq<char>>::empty());
    assert(effects.last() == EffectView::Write(RecordView { fingerprint, canonical_path: path }));
    assert(records(effects) =~= seq![RecordView { fingerprint, canonical_path: path }]);
    assert(diagnostics(effects) =~= Seq::<Seq<char>>::empty());
}

impl ResultRecord {
    /// Copies the record.
    pub fn duplicate(&self) -> (copy: ResultRecord)
        ensures
            copy == *self,
    {
        ResultRecord {
            fingerprint: self.fingerprint.clone(),
            canonical_path: self.canonical_path.clone(),
        }
    }
}

impl Effect {
    /// Copies the effect.
    pub fn duplicate(&self) -> (copy: Effect)
        ensures
            copy == *self,
    {
        match self {
            Effect::Write(record) => Effect::Write(record.duplicate()),
            Effect::Flush => Effect::Flush,
            Effect::Report(description) => Effect::Report(description.clone()),
        }
    }
}

/// Picks the records out of a list of effects, in order.
pub fn records_of(effects: &Vec<Effect>) -> (written: Vec<ResultRecord>)
    ensures
        written@.map_values(|record: ResultRecord| record@) == records(effects_view(effects@)),
{
    let ghost all = effects_view(effects@);
    let mut written: Vec<ResultRecord> = Vec::new();
    let mut i: usize = 0;
    assert(written@.map_values(|record: ResultRecord| record@) =~= records(all.take(0)));
    while i < effects.len()
        invariant
            i <= effects.len(),
            all == effects_view(effects@),
            written@.map_values(|record: ResultRecord| record@) == records(all.take(i as int)),
        decreases effects.len() - i,
    {
        assert(all.take(i + 1).drop_last() =~= all.take(i as int));
        assert(all.take(i + 1).last() == effects@[i as int]@);
        match &effects[i] {
            Effect::Write(record) => {
                let ghost before = written@;
                written.push(record.duplicate());
                assert(written@.map_values(|record: ResultRecord| record@) =~= before.map_values(
                    |record: ResultRecord| record@,
                ).push(record@));
            },
            _ => {},
        }
        i += 1;
    }
    assert(all.take(i as int) =~= all);
    written
}

/// Picks the descriptions of the diagnostics out of a list of effects, in
/// order.
pub fn diagnostics_of(effects: &Vec<Effect>) -> (reported: Vec<String>)
    ensures
        reported@.map_values(|description: String| description@) == diagnostics(
            effects_view(effects@),
        ),
{
    let ghost all = effects_view(effects@);
    let mut reported: Vec<String> = Vec::new();
    let mut i: usize = 0;
    assert(reported@.map_values(|description: String| description@) =~= diagnostics(
        all.take(0),
    ));
    while i < effects.len()
        invariant
            i <= effects.len(),
            all == effects_view(effects@),
            reported@.map_values(|description: String| description@) == diagnostics(
                all.take(i as int),
            ),
        decreases effects.len() - i,
    {
        assert(all.take(i + 1).drop_last() =~= all.take(i as int));
        assert(all.take(i + 1).last() == effects@[i as int]@);
        match &effects[i] {
            Effect::Report(description) => {
                let ghost before = reported@;
                reported.push(description.clone());
                assert(reported@.map_values(|description: String| description@)
                    =~= before.map_values(|description: String| description@).push(
                    description@,
                ));
            },
            _ => {},
        }
        i += 1;
    }
    assert(all.take(i as int) =~= all);
    reported
}

/// In a disciplined sequence of effects, a flush of the record sink comes
/// directly before each diagnostic.
pub open spec fn disciplined(effects: Seq<EffectView>) -> bool {
    forall|i: int|
        0 <= i < effects.len() && (#[trigger] effects[i]) is Report ==> i > 0 && effects[i
            - 1] is Flush
}

/// A terminal on which both sinks show: the lines that have appeared, and the
/// records that the record sink still holds back.
pub struct Terminal {
    pub shown: Seq<Seq<char>>,
    pub held: Seq<Seq<char>>,
}

/// A terminal on which nothing has been written.
pub open spec fn blank() -> Terminal {
    Terminal { shown: Seq::empty(), held: Seq::empty() }
}

/// The terminal after one effect: a record is held back, a flush shows what is
/// held back, and a diagnostic shows at once.
pub open spec fn perform(terminal: Terminal, effect: EffectView) -> Terminal {
    match effect {
        EffectView::Write(_) => Terminal {
            shown: terminal.shown,
            held: terminal.held.push(line_of(effect)->Some_0),
        },
        EffectView::Flush => Terminal {
            shown: terminal.shown + terminal.held,
            held: Seq::empty(),
        },
        EffectView::Report(_) => Terminal {
            shown: terminal.shown.push(line_of(effect)->Some_0),
            held: terminal.held,
        },
    }
}

/// The terminal after a sequence of effects, performed in order on a blank one.
pub open spec fn performed(effects: Seq<EffectView>) -> Terminal
    decreases effects.len(),
{
    if effects.len() == 0 {
        blank()
    } else {
        perform(performed(effects.drop_last()), effects.last())
    }
}

/// The lines of a sequence of effects, in the order in which they were produced.
pub open spec fn produced(effects: Seq<EffectView>) -> Seq<Seq<char>>
    decreases effects.len(),
{
    if effects.len() == 0 {
        Seq::empty()
    } else {
        match line_of(effects.last()) {
            Some(line) => produced(effects.drop_last()).push(line),
            None => produced(effects.drop_last()),
        }
    }
}

/// Whatever an item leads to, at each stage, is disciplined.
pub proof fn lemma_stages_disciplined(
    item: ItemView,
    decoded: Result<GridView, Seq<char>>,
    fingerprint: Seq<char>,
    resolved: Result<Seq<char>, Seq<char>>,
)
    ensures
        received(item) matches ReceptionView::Settled(effects) ==> disciplined(effects),
        digested(decoded) matches DigestView::Rejected(effects) ==> disciplined(effects),
        disciplined(emitted(fingerprint, resolved)),
        disciplined(item_effects(item, decoded, resolved)),
{
}

/// Two disciplined sequences, one after the other, are disciplined.
pub proof fn lemma_disciplined_concat(first: Seq<EffectView>, second: Seq<EffectView>)
    requires
        disciplined(first),
        disciplined(second),
    ensures
        disciplined(first + second),
{
    let both = first + second;
    assert forall|i: int| 0 <= i < both.len() && (#[trigger] both[i]) is Report implies i > 0
        && both[i - 1] is Flush by {
        if i < first.len() {
            assert(both[i] == first[i]);
        } else {
            assert(both[i] == second[i - first.len()]);
            assert(both[i - 1] == second[i - 1 - first.len()]);
        }
    }
}

/// Under the discipline the terminal shows every line in the order in which it
/// was produced: what has appeared, followed by what the record sink still
/// holds back, is the sequence of lines produced, and right after a flush
/// nothing is held back.
pub proof fn lemma_terminal_keeps_order(effects: Seq<EffectView>)
    requires
        disciplined(effects),
    ensures
        performed(effects).shown + performed(effects).held == produced(effects),
        effects.len() > 0 && effects.last() is Flush ==> performed(effects).held.len() == 0,
    decreases effects.len(),
{
    if effects.len() > 0 {
        let before = effects.drop_last();
        assert forall|i: int| 0 <= i < before.len() && (#[trigger] before[i]) is Report implies i
            > 0 && before[i - 1] is Flush by {
            assert(before[i] == effects[i]);
            assert(before[i - 1] == effects[i - 1]);
        }
        lemma_terminal_keeps_order(before);
        let earlier = performed(before);
        match effects.last() {
            EffectView::Write(_) => {
                let line = line_of(effects.last())->Some_0;
                assert(earlier.shown + earlier.held.push(line) =~= (earlier.shown
                    + earlier.held).push(line));
            },
            EffectView::Flush => {
                assert((earlier.shown + earlier.held) + Seq::<Seq<char>>::empty() =~= earlier.shown
                    + earlier.held);
            },
            EffectView::Report(_) => {
                let line = line_of(effects.last())->Some_0;
                assert(effects[effects.len() - 1] is Report);
                assert(before.last() == effects[effects.len() - 2]);
                assert(earlier.held =~= Seq::<Seq<char>>::empty());
                assert(earlier.shown.push(line) + earlier.held =~= (earlier.shown
                    + earlier.held).push(line));
            },
        }
    }
}

} // verus!
