//! The routing cycle as a state machine.
//!
//! A cycle drains the source directory in iterations. One iteration lists
//! the directory, selects a batch of pending files and reads them, then
//! creates, writes, flushes and renames one file per sink, and only then
//! removes the files of the batch. The machine decides; whoever drives it
//! performs each [`Action`] on the file system and hands back what came of
//! it as an [`Event`].

use crate::batch::{file_lines, file_rejects, payload, payload_of, relabel_into};
use crate::clock::Instant;
use crate::labels::{flat, flatten};
use crate::names::{
    committed_name, committed_name_of, is_metrics_name, metrics_name, pending_name,
    pending_name_of,
};
use crate::sink::Sink;
use crate::text::views;
use vstd::prelude::*;

verus! {

/// What the driver is to do next.
#[derive(Debug, Clone, Copy, PartialEq, Eq)]
pub enum Action {
    /// List the source directory; answer with `Listed` or `Failed`.
    List,
    /// Read the whole text of the listed entry; answer with `Content` or
    /// `Failed`.
    Read { entry: usize },
    /// Create the sink's pending file, truncating one that is there.
    Create { sink: usize },
    /// Append the sink's payload to its pending file.
    Write { sink: usize },
    /// Flush the sink's pending file.
    Flush { sink: usize },
    /// Rename the sink's pending file to its committed name for `stamp`.
    Rename { sink: usize, stamp: i64 },
    /// Remove the listed entry from the source directory.
    Remove { entry: usize },
    /// The cycle has ended, well or not.
    Finish { ok: bool },
}

/// What came of the last action.
#[derive(Debug)]
pub enum Event {
    /// The names of the entries of the source directory, in listing order.
    Listed(Vec<String>),
    /// The names of the entries that the listing gave, in order, before it
    /// broke off with an error.
    Partial(Vec<String>),
    /// The text of the file that was read.
    Content(String),
    /// The action was carried out.
    Done,
    /// The action failed.
    Failed,
}

/// Where in a cycle the machine stands: the action it waits on.
#[derive(Debug, Clone, Copy, PartialEq, Eq)]
pub enum Phase {
    /// The source directory is being listed.
    Listing,
    /// The entry at the state's position is being read.
    Reading,
    /// The pending file of the sink at this position is being created.
    Creating(usize),
    /// The payload of the sink at this position is being written.
    Writing(usize),
    /// The pending file of the sink at this position is being flushed.
    Flushing(usize),
    /// The pending file of the sink at this position is being renamed.
    Renaming(usize),
    /// The file at this position of the batch is being removed.
    Removing(usize),
    /// The cycle has ended, well or not; also the state of a router at rest.
    Finished(bool),
}

/// What a router is set up with.
pub struct Config {
    pub sinks: Seq<Sink>,
    pub labels: Seq<char>,
    pub batch_count: u64,
    pub batch_size: u64,
}

/// The state of a cycle.
#[verifier::ext_equal]
pub struct State {
    pub phase: Phase,
    /// The listing of the current iteration.
    pub entries: Seq<Seq<char>>,
    /// Whether the listing broke off with an error behind its last entry.
    pub torn: bool,
    /// The entries before this position have been dealt with.
    pub index: nat,
    /// The bytes of the files taken into the batch.
    pub size: u64,
    /// The positions of the files taken into the batch.
    pub files: Seq<usize>,
    /// The relabelled lines of those files.
    pub lines: Seq<Seq<char>>,
    /// The malformed lines of those files, which were dropped.
    pub dropped: Seq<Seq<char>>,
    /// The time of the commit, once the sink files are flushed.
    pub stamp: i64,
}

/// The length of `text` in bytes, as `str::len` counts it.
pub open spec fn byte_len(text: Seq<char>) -> usize {
    vstd::utf8::encode_utf8(text).len() as usize
}

/// `size` and `more` added, stopping at the largest number.
pub open spec fn add_bytes(size: u64, more: usize) -> u64 {
    if size + more > u64::MAX {
        u64::MAX
    } else {
        (size + more) as u64
    }
}

/// The state in which a cycle starts: waiting for the listing.
pub open spec fn start() -> State {
    State {
        phase: Phase::Listing,
        entries: Seq::empty(),
        torn: false,
        index: 0,
        size: 0,
        files: Seq::empty(),
        lines: Seq::empty(),
        dropped: Seq::empty(),
        stamp: 0,
    }
}

/// The cycle ends in failure; the batch is left as it is.
pub open spec fn fail(s: State) -> (State, Action) {
    (State { phase: Phase::Finished(false), ..s }, Action::Finish { ok: false })
}

/// Whether a ceiling is passed before the next file is taken: the files
/// taken so far are more than the file count, or their bytes more than the
/// byte size. Both are tested against what the batch holds before a file is
/// added, so each ceiling can be passed by one file. Entries that are passed
/// over, and files that cannot be read, count for neither.
pub open spec fn full(cfg: Config, s: State) -> bool {
    s.files.len() > cfg.batch_count || s.size > cfg.batch_size
}

/// Whether the batch of a state is complete: the phase is one in which the
/// sink files are made or the batch is removed, or the cycle has ended well.
pub open spec fn complete(phase: Phase) -> bool {
    match phase {
        Phase::Listing => false,
        Phase::Reading => false,
        Phase::Finished(ok) => ok,
        _ => true,
    }
}

/// The batch is complete: with no file in it the cycle ends well; otherwise
/// the sink files are created, or, where there is no sink, the files of the
/// batch are removed.
pub open spec fn close(cfg: Config, s: State) -> (State, Action) {
    if s.files.len() == 0 {
        (State { phase: Phase::Finished(true), ..s }, Action::Finish { ok: true })
    } else if cfg.sinks.len() == 0 {
        (State { phase: Phase::Removing(0), ..s }, Action::Remove { entry: s.files[0] })
    } else {
        (State { phase: Phase::Creating(0), ..s }, Action::Create { sink: 0 })
    }
}

/// Goes on through the listing from `s.index`: entries that are no metrics
/// files are passed over; the first one that is, is read, unless a ceiling
/// is passed or the listing ends, which completes the batch. Where the
/// listing broke off, reaching its end is reaching the error, and the cycle
/// fails; a ceiling that is passed before that completes the batch all the
/// same.
pub open spec fn select(cfg: Config, s: State) -> (State, Action)
    decreases s.entries.len() - s.index,
{
    if s.index >= s.entries.len() {
        if s.torn {
            fail(s)
        } else {
            close(cfg, s)
        }
    } else if !is_metrics_name(s.entries[s.index as int]) {
        select(cfg, State { index: s.index + 1, ..s })
    } else if full(cfg, s) {
        close(cfg, s)
    } else {
        (State { phase: Phase::Reading, ..s }, Action::Read { entry: s.index as usize })
    }
}

/// The file at `s.index` has been read: it joins the batch with its lines
/// and its bytes, whether or not some of its lines are dropped.
pub open spec fn absorb(cfg: Config, s: State, text: Seq<char>) -> State {
    State {
        index: s.index + 1,
        size: add_bytes(s.size, byte_len(text)),
        files: s.files.push(s.index as usize),
        lines: s.lines + file_lines(text, cfg.labels),
        dropped: s.dropped + file_rejects(text, cfg.labels),
        ..s
    }
}

/// The file at `s.index` could not be read: it is passed over, and stays in
/// the source directory.
pub open spec fn pass_over(s: State) -> State {
    State { index: s.index + 1, ..s }
}

/// The machine's step: the state and the action that follow when `event`
/// answers the action that `s` waits on. `now` is the clock's reading, in
/// seconds, and is used by the one step that fixes the commit time.
///
/// A failure ends the cycle at once, except that of reading one file, and
/// except a listing that broke off, which fails the cycle when its end is
/// reached. An event that cannot answer the awaited action ends the cycle
/// too.
pub open spec fn next(cfg: Config, s: State, event: Event, now: i64) -> (State, Action) {
    let sinks = cfg.sinks.len();
    match s.phase {
        Phase::Listing => match event {
            Event::Listed(names) => select(cfg, State { entries: views(names@), ..start() }),
            Event::Partial(names) => select(
                cfg,
                State { entries: views(names@), torn: true, ..start() },
            ),
            _ => fail(s),
        },
        Phase::Reading => match event {
            Event::Content(text) => select(cfg, absorb(cfg, s, text@)),
            Event::Failed => select(cfg, pass_over(s)),
            _ => fail(s),
        },
        Phase::Creating(k) => match event {
            Event::Done => if k + 1 < sinks {
                (
                    State { phase: Phase::Creating((k + 1) as usize), ..s },
                    Action::Create { sink: (k + 1) as usize },
                )
            } else {
                (State { phase: Phase::Writing(0), ..s }, Action::Write { sink: 0 })
            },
            _ => fail(s),
        },
        Phase::Writing(k) => match event {
            Event::Done => if k + 1 < sinks {
                (
                    State { phase: Phase::Writing((k + 1) as usize), ..s },
                    Action::Write { sink: (k + 1) as usize },
                )
            } else {
                (State { phase: Phase::Flushing(0), ..s }, Action::Flush { sink: 0 })
            },
            _ => fail(s),
        },
        Phase::Flushing(k) => match event {
            Event::Done => if k + 1 < sinks {
                (
                    State { phase: Phase::Flushing((k + 1) as usize), ..s },
                    Action::Flush { sink: (k + 1) as usize },
                )
            } else {
                (
                    State { phase: Phase::Renaming(0), stamp: now, ..s },
                    Action::Rename { sink: 0, stamp: now },
                )
            },
            _ => fail(s),
        },
        Phase::Renaming(k) => match event {
            Event::Done => if k + 1 < sinks {
                (
                    State { phase: Phase::Renaming((k + 1) as usize), ..s },
                    Action::Rename { sink: (k + 1) as usize, stamp: s.stamp },
                )
            } else {
                (State { phase: Phase::Removing(0), ..s }, Action::Remove { entry: s.files[0] })
            },
            _ => fail(s),
        },
        Phase::Removing(f) => match event {
            Event::Done => if f + 1 < s.files.len() {
                (
                    State { phase: Phase::Removing((f + 1) as usize), ..s },
                    Action::Remove { entry: s.files[f + 1] },
                )
            } else {
                (State { phase: Phase::Listing, ..s }, Action::List)
            },
            _ => fail(s),
        },
        Phase::Finished(ok) => (s, Action::Finish { ok }),
    }
}

/// Whether the batch of a state is in order: its files are metrics files of
/// the listing that have been dealt with, in listing order, at most one more
/// than the file count allows; and an empty batch has no bytes.
pub open spec fn batch_ok(cfg: Config, s: State) -> bool {
    &&& s.index <= s.entries.len() <= usize::MAX
    &&& s.files.len() <= cfg.batch_count + 1
    &&& s.files.len() == 0 ==> s.size == 0
    &&& forall|i: int|
        0 <= i < s.files.len() ==> {
            &&& i <= #[trigger] s.files[i] < s.index
            &&& is_metrics_name(s.entries[s.files[i] as int])
        }
    &&& forall|i: int, j: int|
        0 <= i < j < s.files.len() ==> #[trigger] s.files[i] < #[trigger] s.files[j]
}

/// Whether a state can arise: there are no more sinks than a list can hold,
/// the batch is in order, a file is read only under both ceilings, a batch
/// is complete only at the end of a whole listing or at a ceiling, and the
/// position that the phase holds is within the sinks or the batch.
pub open spec fn valid(cfg: Config, s: State) -> bool {
    &&& cfg.sinks.len() <= usize::MAX
    &&& batch_ok(cfg, s)
    &&& complete(s.phase) ==> (s.index == s.entries.len() && !s.torn) || full(cfg, s)
    &&& match s.phase {
        Phase::Listing => true,
        Phase::Reading => {
            &&& s.index < s.entries.len()
            &&& is_metrics_name(s.entries[s.index as int])
            &&& !full(cfg, s)
        },
        Phase::Creating(k) => k < cfg.sinks.len() && s.files.len() > 0,
        Phase::Writing(k) => k < cfg.sinks.len() && s.files.len() > 0,
        Phase::Flushing(k) => k < cfg.sinks.len() && s.files.len() > 0,
        Phase::Renaming(k) => k < cfg.sinks.len() && s.files.len() > 0,
        Phase::Removing(f) => f < s.files.len(),
        Phase::Finished(_) => true,
    }
}

/// A batch holds at most one file more than the file count allows, and a
/// file joins it only while it holds no more than the file count.
pub proof fn lemma_file_ceiling(cfg: Config, s: State, text: Seq<char>)
    requires
        valid(cfg, s),
    ensures
        s.files.len() <= cfg.batch_count + 1,
        s.phase == Phase::Reading ==> s.files.len() <= cfg.batch_count && absorb(
            cfg,
            s,
            text,
        ).files.len() == s.files.len() + 1,
{
}

/// A batch passes the byte size by at most the file that it takes last: a
/// file is read only while the bytes taken so far are within the byte size.
pub proof fn lemma_byte_ceiling(cfg: Config, s: State, text: Seq<char>)
    requires
        valid(cfg, s),
        s.phase == Phase::Reading,
    ensures
        s.size <= cfg.batch_size,
        absorb(cfg, s, text).size <= cfg.batch_size + byte_len(text),
{
}

/// Once the batch is complete it is fixed: while the sink files are
/// created, written, flushed and renamed, and while the batch is removed,
/// no step changes its files or its lines. Every sink is sent of the same
/// lines.
pub proof fn lemma_batch_is_fixed(cfg: Config, s: State, event: Event, now: i64)
    requires
        !(s.phase is Listing),
        !(s.phase is Reading),
    ensures
        next(cfg, s, event, now).0.lines == s.lines,
        next(cfg, s, event, now).0.dropped == s.dropped,
        next(cfg, s, event, now).0.files == s.files,
        next(cfg, s, event, now).0.entries == s.entries,
{
}

/// Taking the file that is being read into the batch keeps the batch in
/// order.
pub proof fn lemma_absorb_ok(cfg: Config, s: State, text: Seq<char>)
    requires
        valid(cfg, s),
        s.phase == Phase::Reading,
    ensures
        batch_ok(cfg, absorb(cfg, s, text)),
        batch_ok(cfg, pass_over(s)),
{
    let t = absorb(cfg, s, text);
    assert forall|i: int| 0 <= i < t.files.len() implies {
        &&& i <= #[trigger] t.files[i] < t.index
        &&& is_metrics_name(t.entries[t.files[i] as int])
    } by {
        if i < s.files.len() {
            assert(t.files[i] == s.files[i]);
        } else {
            assert(t.files[i] == s.index);
            if s.files.len() > 0 {
                assert(s.files[s.files.len() - 1] < s.index);
            }
        }
    }
    assert forall|i: int, j: int| 0 <= i < j < t.files.len() implies #[trigger] t.files[i]
        < #[trigger] t.files[j] by {
        assert(t.files[i] == s.files[i]);
        if j < s.files.len() {
            assert(t.files[j] == s.files[j]);
        }
    }
    let p = pass_over(s);
    assert forall|i: int| 0 <= i < p.files.len() implies {
        &&& i <= #[trigger] p.files[i] < p.index
        &&& is_metrics_name(p.entries[p.files[i] as int])
    } by {
        assert(p.files[i] == s.files[i]);
    }
}

/// `select` keeps the batch in order and leaves the machine in a valid state.
pub proof fn lemma_select_valid(cfg: Config, s: State)
    requires
        cfg.sinks.len() <= usize::MAX,
        batch_ok(cfg, s),
    ensures
        valid(cfg, select(cfg, s).0),
    decreases s.entries.len() - s.index,
{
    if s.index < s.entries.len() && !is_metrics_name(s.entries[s.index as int]) {
        lemma_select_valid(cfg, State { index: s.index + 1, ..s });
    }
}

/// Every step leads from a valid state to a valid state.
pub proof fn lemma_next_valid(cfg: Config, s: State, event: Event, now: i64)
    requires
        valid(cfg, s),
    ensures
        valid(cfg, next(cfg, s, event, now).0),
{
    match s.phase {
        Phase::Listing => match event {
            Event::Listed(names) => {
                assert(names.len() == names@.len());
                lemma_select_valid(cfg, State { entries: views(names@), ..start() });
            },
            Event::Partial(names) => {
                assert(names.len() == names@.len());
                lemma_select_valid(cfg, State { entries: views(names@), torn: true, ..start() });
            },
            _ => {},
        },
        Phase::Reading => match event {
            Event::Content(text) => {
                lemma_absorb_ok(cfg, s, text@);
                lemma_select_valid(cfg, absorb(cfg, s, text@));
            },
            Event::Failed => {
                lemma_absorb_ok(cfg, s, Seq::empty());
                lemma_select_valid(cfg, pass_over(s));
            },
            _ => {},
        },
        _ => {},
    }
}

/// A router: its sinks, its labels and its ceilings, and the state of the
/// cycle that it runs.
pub struct Router {
    sinks: Vec<Sink>,
    labels: String,
    batch_count: u64,
    batch_size: u64,
    phase: Phase,
    entries: Vec<String>,
    torn: bool,
    index: usize,
    size: u64,
    files: Vec<usize>,
    lines: Vec<String>,
    dropped: Vec<String>,
    stamp: i64,
}

impl Router {
    /// What the router is set up with.
    pub closed spec fn config(self) -> Config {
        Config {
            sinks: self.sinks@,
            labels: self.labels@,
            batch_count: self.batch_count,
            batch_size: self.batch_size,
        }
    }

    /// The state of the router's cycle.
    pub closed spec fn state(self) -> State {
        State {
            phase: self.phase,
            entries: views(self.entries@),
            torn: self.torn,
            index: self.index as nat,
            size: self.size,
            files: self.files@,
            lines: views(self.lines@),
            dropped: views(self.dropped@),
            stamp: self.stamp,
        }
    }

    /// Whether the router's state is valid.
    pub open spec fn wf(self) -> bool {
        valid(self.config(), self.state())
    }

    /// A router at rest: no cycle has run yet.
    pub fn new(
        sinks: Vec<Sink>,
        labels: &Vec<(String, String)>,
        batch_count: u64,
        batch_size: u64,
    ) -> (router: Router)
        ensures
            router.wf(),
            router.config() == (Config {
                sinks: sinks@,
                labels: flat(labels@),
                batch_count,
                batch_size,
            }),
            router.state() == (State { phase: Phase::Finished(true), ..start() }),
    {
        let router = Router {
            sinks,
            labels: flatten(labels),
            batch_count,
            batch_size,
            phase: Phase::Finished(true),
            entries: Vec::new(),
            torn: false,
            index: 0,
            size: 0,
            files: Vec::new(),
            lines: Vec::new(),
            dropped: Vec::new(),
            stamp: 0,
        };
        proof {
            assert(router.sinks.len() == router.sinks@.len());
            assert(router.state() =~= (State { phase: Phase::Finished(true), ..start() }));
        }
        router
    }

    /// Starts a cycle, whatever came of the last one: the first action is to
    /// list the source directory.
    pub fn begin(&mut self) -> (action: Action)
        ensures
            action == Action::List,
            final(self).wf(),
            final(self).config() == old(self).config(),
            final(self).state() == start(),
    {
        self.phase = Phase::Listing;
        self.entries = Vec::new();
        self.torn = false;
        self.index = 0;
        self.size = 0;
        self.files = Vec::new();
        self.lines = Vec::new();
        self.dropped = Vec::new();
        self.stamp = 0;
        proof {
            assert(self.sinks.len() == self.sinks@.len());
            assert(self.state() =~= start());
        }
        Action::List
    }

    fn fail(&mut self) -> (action: Action)
        ensures
            (final(self).state(), action) == fail(old(self).state()),
            final(self).config() == old(self).config(),
    {
        self.phase = Phase::Finished(false);
        Action::Finish { ok: false }
    }

    fn close(&mut self) -> (action: Action)
        requires
            batch_ok(old(self).config(), old(self).state()),
        ensures
            (final(self).state(), action) == close(old(self).config(), old(self).state()),
            final(self).config() == old(self).config(),
    {
        if self.files.len() == 0 {
            self.phase = Phase::Finished(true);
            Action::Finish { ok: true }
        } else if self.sinks.len() == 0 {
            self.phase = Phase::Removing(0);
            Action::Remove { entry: self.files[0] }
        } else {
            self.phase = Phase::Creating(0);
            Action::Create { sink: 0 }
        }
    }

    fn take_listing(&mut self, names: Vec<String>, torn: bool) -> (action: Action)
        ensures
            (final(self).state(), action) == select(
                old(self).config(),
                State { entries: views(names@), torn, ..start() },
            ),
            final(self).config() == old(self).config(),
    {
        self.entries = names;
        self.torn = torn;
        self.index = 0;
        self.size = 0;
        self.files = Vec::new();
        self.lines = Vec::new();
        self.dropped = Vec::new();
        self.stamp = 0;
        proof {
            assert(self.entries.len() == self.entries@.len());
            assert(self.state() =~= (State {
                entries: views(names@),
                torn,
                phase: self.phase,
                ..start()
            }));
        }
        self.phase = Phase::Listing;
        proof {
            assert(self.state() =~= (State { entries: views(names@), torn, ..start() }));
        }
        self.select()
    }

    fn select(&mut self) -> (action: Action)
        requires
            batch_ok(old(self).config(), old(self).state()),
        ensures
            (final(self).state(), action) == select(old(self).config(), old(self).state()),
            final(self).config() == old(self).config(),
    {
        let ghost cfg = self.config();
        let ghost first = self.state();
        while self.index < self.entries.len() && !metrics_name(self.entries[self.index].as_str())
            invariant
                self.config() == cfg,
                batch_ok(cfg, self.state()),
                self.state() == (State { index: self.index as nat, ..first }),
                select(cfg, first) == select(cfg, self.state()),
            decreases self.entries.len() - self.index,
        {
            self.index = self.index + 1;
        }
        if self.index >= self.entries.len() {
            if self.torn {
                self.fail()
            } else {
                self.close()
            }
        } else if self.files.len() as u64 > self.batch_count || self.size > self.batch_size {
            self.close()
        } else {
            self.phase = Phase::Reading;
            Action::Read { entry: self.index }
        }
    }

    /// The machine's step, with the clock's reading given: see [`next`].
    pub fn advance(&mut self, event: Event, now: i64) -> (action: Action)
        requires
            old(self).wf(),
        ensures
            final(self).wf(),
            final(self).config() == old(self).config(),
            (final(self).state(), action) == next(
                old(self).config(),
                old(self).state(),
                event,
                now,
            ),
    {
        proof {
            lemma_next_valid(self.config(), self.state(), event, now);
        }
        let sinks = self.sinks.len();
        match self.phase {
            Phase::Listing => match event {
                Event::Listed(names) => self.take_listing(names, false),
                Event::Partial(names) => self.take_listing(names, true),
                _ => self.fail(),
            },
            Phase::Reading => match event {
                Event::Content(text) => {
                    let ghost before = self.state();
                    proof {
                        lemma_absorb_ok(self.config(), before, text@);
                    }
                    relabel_into(
                        &mut self.lines,
                        &mut self.dropped,
                        text.as_str(),
                        self.labels.as_str(),
                    );
                    self.files.push(self.index);
                    let more = text.as_str().len() as u64;
                    self.size = if more > u64::MAX - self.size {
                        u64::MAX
                    } else {
                        self.size + more
                    };
                    self.index = self.index + 1;
                    proof {
                        assert(self.state() =~= absorb(self.config(), before, text@));
                    }
                    self.select()
                },
                Event::Failed => {
                    proof {
                        lemma_absorb_ok(self.config(), self.state(), Seq::empty());
                    }
                    self.index = self.index + 1;
                    self.select()
                },
                _ => self.fail(),
            },
            Phase::Creating(k) => match event {
                Event::Done => if k + 1 < sinks {
                    self.phase = Phase::Creating(k + 1);
                    Action::Create { sink: k + 1 }
                } else {
                    self.phase = Phase::Writing(0);
                    Action::Write { sink: 0 }
                },
                _ => self.fail(),
            },
            Phase::Writing(k) => match event {
                Event::Done => if k + 1 < sinks {
                    self.phase = Phase::Writing(k + 1);
                    Action::Write { sink: k + 1 }
                } else {
                    self.phase = Phase::Flushing(0);
                    Action::Flush { sink: 0 }
                },
                _ => self.fail(),
            },
            Phase::Flushing(k) => match event {
                Event::Done => if k + 1 < sinks {
                    self.phase = Phase::Flushing(k + 1);
                    Action::Flush { sink: k + 1 }
                } else {
                    self.phase = Phase::Renaming(0);
                    self.stamp = now;
                    Action::Rename { sink: 0, stamp: now }
                },
                _ => self.fail(),
            },
            Phase::Renaming(k) => match event {
                Event::Done => if k + 1 < sinks {
                    self.phase = Phase::Renaming(k + 1);
                    Action::Rename { sink: k + 1, stamp: self.stamp }
                } else {
                    self.phase = Phase::Removing(0);
                    Action::Remove { entry: self.files[0] }
                },
                _ => self.fail(),
            },
            Phase::Removing(f) => match event {
                Event::Done => if f < self.files.len() - 1 {
                    self.phase = Phase::Removing(f + 1);
                    Action::Remove { entry: self.files[f + 1] }
                } else {
                    self.phase = Phase::Listing;
                    Action::List
                },
                _ => self.fail(),
            },
            Phase::Finished(ok) => Action::Finish { ok },
        }
    }

    /// The machine's step: the state and the action that follow when `event`
    /// answers the awaited action. The step that fixes the commit time reads
    /// the clock; whatever it shows, the step is one of [`next`].
    pub fn step(&mut self, event: Event) -> (action: Action)
        requires
            old(self).wf(),
        ensures
            final(self).wf(),
            final(self).config() == old(self).config(),
            exists|now: i64|
                (final(self).state(), action) == #[trigger] next(
                    old(self).config(),
                    old(self).state(),
                    event,
                    now,
                ),
    {
        let now: i64 = match self.phase {
            Phase::Flushing(_) => Instant::now().sec,
            _ => 0,
        };
        self.advance(event, now)
    }

    /// The phase of the cycle.
    pub fn phase(&self) -> (phase: Phase)
        ensures
            phase == self.state().phase,
    {
        self.phase
    }

    /// The sinks, in the order in which actions number them.
    pub fn sinks(&self) -> (sinks: &Vec<Sink>)
        ensures
            sinks@ == self.config().sinks,
    {
        &self.sinks
    }

    /// The flattened labels that are merged into every line.
    pub fn labels(&self) -> (labels: &str)
        ensures
            labels@ == self.config().labels,
    {
        self.labels.as_str()
    }

    /// The number of files in the batch.
    pub fn batch_len(&self) -> (n: usize)
        ensures
            n == self.state().files.len(),
    {
        self.files.len()
    }

    /// The number of lines in the batch.
    pub fn line_count(&self) -> (n: usize)
        ensures
            n == self.state().lines.len(),
    {
        self.lines.len()
    }

    /// The malformed lines of the batch's files, as they were read: they
    /// were dropped, and are kept here to be logged.
    pub fn dropped(&self) -> (lines: &Vec<String>)
        ensures
            views(lines@) == self.state().dropped,
    {
        &self.dropped
    }

    /// The name of a listed entry, by its position in the listing.
    pub fn entry(&self, entry: usize) -> (name: Option<&str>)
        ensures
            entry < self.state().entries.len() ==> (name matches Some(n) && n@
                == self.state().entries[entry as int]),
            entry >= self.state().entries.len() ==> name is None,
    {
        if entry < self.entries.len() {
            Some(self.entries[entry].as_str())
        } else {
            None
        }
    }

    /// What the sink at position `sink` is sent of the batch: the text that
    /// a `Write` for it appends.
    pub fn payload(&self, sink: usize) -> (text: Option<String>)
        ensures
            sink < self.config().sinks.len() ==> (text matches Some(t) && t@ == payload_of(
                self.state().lines,
                self.config().sinks[sink as int].spec_selector(),
            )),
            sink >= self.config().sinks.len() ==> text is None,
    {
        if sink < self.sinks.len() {
            Some(payload(&self.lines, &self.sinks[sink]))
        } else {
            None
        }
    }

    /// The name of the file that a sink's payload is written to.
    pub fn pending_name(&self, sink: usize) -> (name: Option<String>)
        ensures
            sink < self.config().sinks.len() ==> (name matches Some(n) && n@ == pending_name_of(
                self.config().sinks[sink as int].spec_name(),
            )),
            sink >= self.config().sinks.len() ==> name is None,
    {
        if sink < self.sinks.len() {
            Some(pending_name(self.sinks[sink].name()))
        } else {
            None
        }
    }

    /// The name to which a sink's file is renamed in a commit at `stamp`.
    pub fn committed_name(&self, sink: usize, stamp: i64) -> (name: Option<String>)
        ensures
            sink < self.config().sinks.len() ==> (name matches Some(n) && n@ == committed_name_of(
                self.config().sinks[sink as int].spec_name(),
                stamp as int,
            )),
            sink >= self.config().sinks.len() ==> name is None,
    {
        if sink < self.sinks.len() {
            Some(committed_name(self.sinks[sink].name(), stamp))
        } else {
            None
        }
    }
}

} // verus!
