//! The commit protocol: what any run of the routing machine does to the two
//! directories, whatever the file system answers.
//!
//! A run is played against a ledger that records what the driver reports:
//! which sinks were committed, which source files were removed, and which
//! could not be read, in the current iteration. The theorems hold of every
//! run of a router with no more sinks than a list can hold.

use crate::names::is_metrics_name;
use crate::router::{
    absorb, batch_ok, close, complete, full, lemma_absorb_ok, lemma_next_valid, next, pass_over,
    select, start, valid, Action, Config, Event, Phase, State,
};
use crate::text::views;
use vstd::prelude::*;

verus! {

/// What has been reported in the current iteration: the sinks whose file
/// was renamed, each with the stamp in its committed name; the entries that
/// were removed from the source directory; and the entries whose read
/// failed.
pub struct Ledger {
    pub committed: Map<usize, i64>,
    pub removed: Set<usize>,
    pub unreadable: Set<usize>,
}

/// A point in a run: the machine's state, the action that the driver is
/// carrying out, and the ledger.
pub struct Run {
    pub state: State,
    pub awaited: Action,
    pub ledger: Ledger,
}

/// The ledger in which nothing is recorded.
pub open spec fn blank() -> Ledger {
    Ledger { committed: Map::empty(), removed: Set::empty(), unreadable: Set::empty() }
}

/// The ledger after `event` has answered `awaited`: a rename or a removal
/// that was carried out is recorded, and so is a read that failed; listing
/// the directory anew starts an iteration, with a blank ledger.
pub open spec fn record(ledger: Ledger, awaited: Action, event: Event) -> Ledger {
    match awaited {
        Action::List => blank(),
        Action::Read { entry } => if event is Failed {
            Ledger { unreadable: ledger.unreadable.insert(entry), ..ledger }
        } else {
            ledger
        },
        Action::Rename { sink, stamp } => if event is Done {
            Ledger { committed: ledger.committed.insert(sink, stamp), ..ledger }
        } else {
            ledger
        },
        Action::Remove { entry } => if event is Done {
            Ledger { removed: ledger.removed.insert(entry), ..ledger }
        } else {
            ledger
        },
        _ => ledger,
    }
}

/// The point at which a cycle starts.
pub open spec fn opening() -> Run {
    Run { state: start(), awaited: Action::List, ledger: blank() }
}

/// One turn: the driver reports `event`, and the machine answers.
pub open spec fn turn(cfg: Config, run: Run, event: Event, now: i64) -> Run {
    let (state, awaited) = next(cfg, run.state, event, now);
    Run { state, awaited, ledger: record(run.ledger, run.awaited, event) }
}

/// The point that is reached from `run` when the driver reports `turns` in
/// order, each with the clock's reading at that turn.
pub open spec fn play_from(cfg: Config, run: Run, turns: Seq<(Event, i64)>) -> Run
    decreases turns.len(),
{
    if turns.len() == 0 {
        run
    } else {
        turn(cfg, play_from(cfg, run, turns.drop_last()), turns.last().0, turns.last().1)
    }
}

/// The point that a cycle reaches on `turns`.
pub open spec fn play(cfg: Config, turns: Seq<(Event, i64)>) -> Run {
    play_from(cfg, opening(), turns)
}

/// Every sink is committed, at the stamp of this iteration.
pub open spec fn all_committed(cfg: Config, run: Run) -> bool {
    forall|k: usize|
        k < cfg.sinks.len() ==> #[trigger] run.ledger.committed.contains_key(k)
            && run.ledger.committed[k] == run.state.stamp
}

/// No sink is committed.
pub open spec fn none_committed(run: Run) -> bool {
    forall|k: usize| !#[trigger] run.ledger.committed.contains_key(k)
}

/// No source file is removed.
pub open spec fn none_removed(run: Run) -> bool {
    forall|e: usize| !#[trigger] run.ledger.removed.contains(e)
}

/// The first `f` files of the batch are removed.
pub open spec fn removed_upto(run: Run, f: int) -> bool {
    forall|j: int| 0 <= j < f ==> run.ledger.removed.contains(#[trigger] run.state.files[j])
}

/// Every metrics file of the listing that has been dealt with is in the
/// batch, or its read was reported to have failed.
pub open spec fn accounted(run: Run) -> bool {
    forall|j: int|
        0 <= j < run.state.index && is_metrics_name(#[trigger] run.state.entries[j])
            ==> run.state.files.contains(j as usize) || run.ledger.unreadable.contains(
            j as usize,
        )
}

/// What holds at every point of a run: the ledger fits the phase.
pub open spec fn coherent(cfg: Config, run: Run) -> bool {
    let s = run.state;
    &&& valid(cfg, s)
    &&& forall|e: usize| #[trigger] run.ledger.removed.contains(e) ==> s.files.contains(e)
    &&& forall|e: usize| #[trigger]
        run.ledger.unreadable.contains(e) ==> e < s.index && !s.files.contains(e)
    &&& forall|k: usize| #[trigger]
        run.ledger.committed.contains_key(k) ==> k < cfg.sinks.len() && run.ledger.committed[k]
            == s.stamp
    &&& s.phase != Phase::Finished(false) ==> accounted(run)
    &&& match s.phase {
        Phase::Listing => {
            &&& run.awaited == Action::List
            &&& removed_upto(run, s.files.len() as int)
            &&& s.files.len() > 0 ==> all_committed(cfg, run)
        },
        Phase::Reading => {
            &&& run.awaited == Action::Read { entry: s.index as usize }
            &&& none_committed(run)
            &&& none_removed(run)
        },
        Phase::Creating(k) => {
            &&& run.awaited == Action::Create { sink: k }
            &&& none_committed(run)
            &&& none_removed(run)
        },
        Phase::Writing(k) => {
            &&& run.awaited == Action::Write { sink: k }
            &&& none_committed(run)
            &&& none_removed(run)
        },
        Phase::Flushing(k) => {
            &&& run.awaited == Action::Flush { sink: k }
            &&& none_committed(run)
            &&& none_removed(run)
        },
        Phase::Renaming(k) => {
            &&& run.awaited == Action::Rename { sink: k, stamp: s.stamp }
            &&& none_removed(run)
            &&& forall|j: usize| #[trigger] run.ledger.committed.contains_key(j) <==> j < k
        },
        Phase::Removing(f) => {
            &&& run.awaited == Action::Remove { entry: s.files[f as int] }
            &&& all_committed(cfg, run)
            &&& removed_upto(run, f as int)
        },
        Phase::Finished(ok) => {
            &&& run.awaited == Action::Finish { ok }
            &&& !none_removed(run) ==> all_committed(cfg, run)
            &&& ok ==> s.files.len() == 0 && none_committed(run) && none_removed(run)
        },
    }
}

/// What `select` settles on is what the resulting phase waits for; it
/// changes nothing of the batch, and passes over no metrics file.
pub proof fn lemma_select_awaits(cfg: Config, s: State)
    requires
        batch_ok(cfg, s),
    ensures
        ({
            let (t, action) = select(cfg, s);
            &&& t == State { phase: t.phase, index: t.index, ..s }
            &&& s.index <= t.index <= s.entries.len()
            &&& forall|j: int| s.index <= j < t.index ==> !is_metrics_name(#[trigger] s.entries[j])
            &&& match t.phase {
                Phase::Reading => action == Action::Read { entry: t.index as usize },
                Phase::Creating(k) => k == 0 && action == Action::Create { sink: 0 },
                Phase::Removing(f) => f == 0 && cfg.sinks.len() == 0 && action
                    == Action::Remove { entry: t.files[0] },
                Phase::Finished(ok) => if ok {
                    action == Action::Finish { ok: true } && t.files.len() == 0
                } else {
                    action == Action::Finish { ok: false } && s.torn
                },
                _ => false,
            }
        }),
    decreases s.entries.len() - s.index,
{
    if s.index < s.entries.len() && !is_metrics_name(s.entries[s.index as int]) {
        let u = State { index: s.index + 1, ..s };
        lemma_select_awaits(cfg, u);
        let t = select(cfg, s).0;
        assert(t =~= State { phase: t.phase, index: t.index, ..s });
    } else {
        let t = select(cfg, s).0;
        assert(t =~= State { phase: t.phase, index: t.index, ..s });
    }
}

/// After the file at the state's position has been dealt with, be it taken
/// or reported unreadable, and `select` has gone on, every metrics file
/// before the new position is accounted for.
proof fn lemma_accounted_on(cfg: Config, run: Run, dealt: State, ledger: Ledger)
    requires
        coherent(cfg, run),
        batch_ok(cfg, dealt),
        dealt.entries == run.state.entries,
        dealt.index >= run.state.index,
        forall|e: usize| run.state.files.contains(e) ==> #[trigger] dealt.files.contains(e),
        forall|e: usize| run.ledger.unreadable.contains(e) ==> #[trigger] ledger.unreadable.contains(e),
        run.state.phase is Reading,
        forall|j: int|
            run.state.index <= j < dealt.index && is_metrics_name(#[trigger] dealt.entries[j])
                ==> dealt.files.contains(j as usize) || ledger.unreadable.contains(j as usize),
    ensures
        accounted(Run { state: select(cfg, dealt).0, awaited: select(cfg, dealt).1, ledger }),
{
    lemma_select_awaits(cfg, dealt);
    let t = select(cfg, dealt).0;
    let after = Run { state: t, awaited: select(cfg, dealt).1, ledger };
    assert forall|j: int| 0 <= j < t.index && is_metrics_name(#[trigger] t.entries[j]) implies
        t.files.contains(j as usize) || ledger.unreadable.contains(j as usize) by {
        if j < run.state.index {
            assert(is_metrics_name(run.state.entries[j]));
            assert(run.state.files.contains(j as usize) || run.ledger.unreadable.contains(
                j as usize,
            ));
        } else if j < dealt.index {
            assert(is_metrics_name(dealt.entries[j]));
        } else {
            assert(!is_metrics_name(dealt.entries[j]));
        }
    }
}

/// A turn that answers the listing keeps the run coherent.
proof fn lemma_turn_listing(cfg: Config, run: Run, event: Event, now: i64)
    requires
        coherent(cfg, run),
        run.state.phase is Listing,
    ensures
        coherent(cfg, turn(cfg, run, event, now)),
{
    let after = turn(cfg, run, event, now);
    let t = after.state;
    lemma_next_valid(cfg, run.state, event, now);
    assert(after.ledger == blank());
    match event {
        Event::Listed(names) => {
            assert(names.len() == names@.len());
            let fresh = State { entries: views(names@), ..start() };
            lemma_select_awaits(cfg, fresh);
            assert(accounted(after)) by {
                assert forall|j: int|
                    0 <= j < t.index && is_metrics_name(#[trigger] t.entries[j]) implies false by {
                    assert(!is_metrics_name(fresh.entries[j]));
                }
            }
        },
        Event::Partial(names) => {
            assert(names.len() == names@.len());
            let fresh = State { entries: views(names@), torn: true, ..start() };
            lemma_select_awaits(cfg, fresh);
            assert(accounted(after)) by {
                assert forall|j: int|
                    0 <= j < t.index && is_metrics_name(#[trigger] t.entries[j]) implies false by {
                    assert(!is_metrics_name(fresh.entries[j]));
                }
            }
        },
        _ => {},
    }
}

/// A turn that answers a read keeps the run coherent.
proof fn lemma_turn_reading(cfg: Config, run: Run, event: Event, now: i64)
    requires
        coherent(cfg, run),
        run.state.phase is Reading,
    ensures
        coherent(cfg, turn(cfg, run, event, now)),
{
    let after = turn(cfg, run, event, now);
    let s = run.state;
    let t = after.state;
    lemma_next_valid(cfg, s, event, now);
    match event {
        Event::Content(text) => {
            assert(after.ledger == run.ledger);
            let dealt = absorb(cfg, s, text@);
            lemma_absorb_ok(cfg, s, text@);
            lemma_select_awaits(cfg, dealt);
            assert(dealt.files[s.files.len() as int] == s.index);
            assert(dealt.files.contains(s.index as usize));
            assert forall|e: usize| s.files.contains(e) implies #[trigger] dealt.files.contains(
                e,
            ) by {
                let i = choose|i: int| 0 <= i < s.files.len() && s.files[i] == e;
                assert(dealt.files[i] == e);
            }
            lemma_accounted_on(cfg, run, dealt, after.ledger);
            assert forall|e: usize| #[trigger] after.ledger.unreadable.contains(e) implies e
                < t.index && !t.files.contains(e) by {
                assert(!s.files.contains(e));
                if dealt.files.contains(e) {
                    let i = choose|i: int| 0 <= i < dealt.files.len() && dealt.files[i] == e;
                    if i < s.files.len() {
                        assert(s.files[i] == e);
                    }
                }
            }
        },
        Event::Failed => {
            assert(after.ledger.unreadable == run.ledger.unreadable.insert(s.index as usize));
            assert(after.ledger.committed == run.ledger.committed);
            assert(after.ledger.removed == run.ledger.removed);
            let dealt = pass_over(s);
            lemma_absorb_ok(cfg, s, Seq::empty());
            lemma_select_awaits(cfg, dealt);
            lemma_accounted_on(cfg, run, dealt, after.ledger);
            assert forall|e: usize| #[trigger] after.ledger.unreadable.contains(e) implies e
                < t.index && !t.files.contains(e) by {
                if e == s.index {
                    if s.files.contains(e) {
                        let i = choose|i: int| 0 <= i < s.files.len() && s.files[i] == e;
                        assert(s.files[i] < s.index);
                    }
                }
            }
        },
        _ => {
            assert(after.ledger == run.ledger);
        },
    }
}

/// A turn that answers a rename keeps the run coherent.
proof fn lemma_turn_renaming(cfg: Config, run: Run, event: Event, now: i64)
    requires
        coherent(cfg, run),
        run.state.phase is Renaming,
    ensures
        coherent(cfg, turn(cfg, run, event, now)),
{
    let after = turn(cfg, run, event, now);
    let s = run.state;
    let k = s.phase->Renaming_0;
    lemma_next_valid(cfg, s, event, now);
    assert(after.ledger.removed == run.ledger.removed);
    assert(after.ledger.unreadable == run.ledger.unreadable);
    if event is Done {
        assert(after.ledger.committed == run.ledger.committed.insert(k, s.stamp));
        assert forall|j: usize| #[trigger] after.ledger.committed.contains_key(j) <==> j < k
            + 1 by {
            assert(run.ledger.committed.contains_key(j) <==> j < k);
        }
        if k + 1 >= cfg.sinks.len() {
            assert forall|j: usize| j < cfg.sinks.len() implies #[trigger]
                after.ledger.committed.contains_key(j) && after.ledger.committed[j]
                == after.state.stamp by {
                assert(after.ledger.committed.contains_key(j));
                if j < k {
                    assert(run.ledger.committed.contains_key(j));
                }
            }
        }
    } else {
        assert(after.ledger == run.ledger);
    }
}

/// A turn that answers a removal keeps the run coherent.
proof fn lemma_turn_removing(cfg: Config, run: Run, event: Event, now: i64)
    requires
        coherent(cfg, run),
        run.state.phase is Removing,
    ensures
        coherent(cfg, turn(cfg, run, event, now)),
{
    let after = turn(cfg, run, event, now);
    let s = run.state;
    let t = after.state;
    let f = s.phase->Removing_0;
    lemma_next_valid(cfg, s, event, now);
    assert(after.ledger.committed == run.ledger.committed);
    assert(after.ledger.unreadable == run.ledger.unreadable);
    assert(t.stamp == s.stamp);
    assert(all_committed(cfg, run));
    assert(all_committed(cfg, after)) by {
        assert forall|k: usize| k < cfg.sinks.len() implies #[trigger]
            after.ledger.committed.contains_key(k) && after.ledger.committed[k]
            == after.state.stamp by {
            assert(run.ledger.committed.contains_key(k));
        }
    }
    if event is Done {
        assert(after.ledger.removed == run.ledger.removed.insert(s.files[f as int]));
        assert(s.files.contains(s.files[f as int]));
        assert forall|j: int| 0 <= j < f + 1 implies after.ledger.removed.contains(
            #[trigger] t.files[j],
        ) by {
            if j < f {
                assert(run.ledger.removed.contains(s.files[j]));
            }
        }
        assert(removed_upto(after, f + 1));
    } else {
        assert(after.ledger == run.ledger);
    }
}

/// A turn leads from a coherent point to a coherent point.
pub proof fn lemma_turn_coherent(cfg: Config, run: Run, event: Event, now: i64)
    requires
        coherent(cfg, run),
    ensures
        coherent(cfg, turn(cfg, run, event, now)),
{
    match run.state.phase {
        Phase::Listing => lemma_turn_listing(cfg, run, event, now),
        Phase::Reading => lemma_turn_reading(cfg, run, event, now),
        Phase::Renaming(_) => lemma_turn_renaming(cfg, run, event, now),
        Phase::Removing(_) => lemma_turn_removing(cfg, run, event, now),
        _ => {
            lemma_next_valid(cfg, run.state, event, now);
            assert(turn(cfg, run, event, now).ledger == run.ledger);
        },
    }
}

/// Every point of a run is coherent.
pub proof fn lemma_play_coherent(cfg: Config, turns: Seq<(Event, i64)>)
    requires
        cfg.sinks.len() <= usize::MAX,
    ensures
        coherent(cfg, play(cfg, turns)),
    decreases turns.len(),
{
    if turns.len() > 0 {
        lemma_play_coherent(cfg, turns.drop_last());
        lemma_turn_coherent(
            cfg,
            play(cfg, turns.drop_last()),
            turns.last().0,
            turns.last().1,
        );
    }
}

/// Commit before removal. At every point of every run: a source file is
/// removed, or its removal asked for, only when every sink has been
/// committed in the same iteration; the files removed are files of the
/// batch; and the sinks committed in one iteration share one stamp.
pub proof fn theorem_commit_before_removal(cfg: Config, turns: Seq<(Event, i64)>)
    requires
        cfg.sinks.len() <= usize::MAX,
    ensures
        ({
            let run = play(cfg, turns);
            &&& run.awaited is Remove || !none_removed(run) ==> all_committed(cfg, run)
            &&& forall|e: usize| #[trigger]
                run.ledger.removed.contains(e) ==> run.state.files.contains(e)
            &&& forall|j: usize, k: usize|
                run.ledger.committed.contains_key(j) && run.ledger.committed.contains_key(k)
                    ==> run.ledger.committed[j] == run.ledger.committed[k]
        }),
{
    lemma_play_coherent(cfg, turns);
}

/// The backlog is drained. A cycle ends well only on a listing of which no
/// file could be taken: its last iteration touched neither directory, and
/// every metrics file that its listing held was reported unreadable. While
/// the listing holds a metrics file that can be read, the cycle goes on.
pub proof fn theorem_success_is_drained(cfg: Config, turns: Seq<(Event, i64)>)
    requires
        cfg.sinks.len() <= usize::MAX,
        play(cfg, turns).awaited == (Action::Finish { ok: true }),
    ensures
        play(cfg, turns).state.files.len() == 0,
        none_committed(play(cfg, turns)),
        none_removed(play(cfg, turns)),
        forall|j: int|
            0 <= j < play(cfg, turns).state.entries.len() && is_metrics_name(
                #[trigger] play(cfg, turns).state.entries[j],
            ) ==> play(cfg, turns).ledger.unreadable.contains(j as usize),
{
    lemma_play_coherent(cfg, turns);
    let run = play(cfg, turns);
    assert(run.state.phase == Phase::Finished(true));
    assert(!full(cfg, run.state));
    assert forall|j: int|
        0 <= j < run.state.entries.len() && is_metrics_name(
            #[trigger] run.state.entries[j],
        ) implies run.ledger.unreadable.contains(j as usize) by {
        if run.state.files.contains(j as usize) {
            let i = choose|i: int| 0 <= i < run.state.files.len() && run.state.files[i] == j as usize;
        }
    }
}

/// A readable file is taken. Whenever a batch is complete, a metrics file
/// of the listing is outside it only if it was reported unreadable, or a
/// ceiling was passed: the batch holds more files than the file count, or
/// more bytes than the byte size. Entries of other names and unreadable
/// files, wherever they stand in the listing, keep no file out. So an
/// iteration whose listing holds a metrics file that can be read takes at
/// least one file.
pub proof fn theorem_readable_file_is_taken(cfg: Config, turns: Seq<(Event, i64)>, entry: int)
    requires
        cfg.sinks.len() <= usize::MAX,
        complete(play(cfg, turns).state.phase),
        0 <= entry < play(cfg, turns).state.entries.len(),
        is_metrics_name(play(cfg, turns).state.entries[entry]),
        !play(cfg, turns).ledger.unreadable.contains(entry as usize),
    ensures
        play(cfg, turns).state.files.len() >= 1,
        play(cfg, turns).state.files.contains(entry as usize) || play(cfg, turns).state.files.len()
            == cfg.batch_count + 1 || play(cfg, turns).state.size > cfg.batch_size,
{
    lemma_play_coherent(cfg, turns);
    let run = play(cfg, turns);
    if !full(cfg, run.state) {
        assert(run.state.index == run.state.entries.len());
        assert(is_metrics_name(run.state.entries[entry]));
        assert(run.state.files.contains(entry as usize));
    }
}

/// What cannot be forwarded stays. Only files of the batch are removed:
/// metrics files whose text was read. An entry of another name, and a file
/// whose read failed, is never removed.
pub proof fn theorem_other_entries_stay(cfg: Config, turns: Seq<(Event, i64)>, entry: usize)
    requires
        cfg.sinks.len() <= usize::MAX,
        play(cfg, turns).ledger.removed.contains(entry),
    ensures
        entry < play(cfg, turns).state.entries.len(),
        is_metrics_name(play(cfg, turns).state.entries[entry as int]),
        !play(cfg, turns).ledger.unreadable.contains(entry),
        play(cfg, turns).state.files.contains(entry),
{
    lemma_play_coherent(cfg, turns);
    let run = play(cfg, turns);
    assert(run.state.files.contains(entry));
    let i = choose|i: int| 0 <= i < run.state.files.len() && run.state.files[i] == entry;
    assert(run.state.files[i] < run.state.index);
}

/// When an iteration is complete and the machine asks for the next
/// listing, every file of the batch has been removed, and, if there was
/// one, every sink committed.
pub proof fn theorem_iteration_complete(cfg: Config, turns: Seq<(Event, i64)>)
    requires
        cfg.sinks.len() <= usize::MAX,
        play(cfg, turns).awaited == Action::List,
    ensures
        removed_upto(play(cfg, turns), play(cfg, turns).state.files.len() as int),
        play(cfg, turns).state.files.len() > 0 ==> all_committed(cfg, play(cfg, turns)),
{
    lemma_play_coherent(cfg, turns);
}

/// Once a cycle has ended, nothing that is reported changes anything.
pub proof fn lemma_finished_stays(cfg: Config, run: Run, turns: Seq<(Event, i64)>)
    requires
        run.state.phase is Finished,
        run.awaited == (Action::Finish { ok: run.state.phase->Finished_0 }),
    ensures
        play_from(cfg, run, turns) == run,
    decreases turns.len(),
{
    if turns.len() > 0 {
        lemma_finished_stays(cfg, run, turns.drop_last());
    }
}

/// Whether `event` is a failure of the action that `phase` waits on that
/// ends the cycle at once: any answer but `Done`, a listing or `Content`
/// where that is awaited; an unreadable file alone does not end it.
pub open spec fn fatal(phase: Phase, event: Event) -> bool {
    match phase {
        Phase::Listing => !(event is Listed) && !(event is Partial),
        Phase::Reading => !(event is Content) && !(event is Failed),
        Phase::Finished(_) => false,
        _ => !(event is Done),
    }
}

/// Failure is durable. A failure that ends the cycle before the first
/// removal, be it of a rename, leaves every source file in place: none was
/// removed in that iteration, and none is removed afterwards, whatever is
/// reported.
pub proof fn theorem_failure_removes_nothing(
    cfg: Config,
    turns: Seq<(Event, i64)>,
    event: Event,
    now: i64,
    more: Seq<(Event, i64)>,
)
    requires
        cfg.sinks.len() <= usize::MAX,
        fatal(play(cfg, turns).state.phase, event),
        !(play(cfg, turns).state.phase is Removing),
    ensures
        ({
            let end = play_from(cfg, turn(cfg, play(cfg, turns), event, now), more);
            &&& end.awaited == Action::Finish { ok: false }
            &&& none_removed(end)
        }),
{
    lemma_play_coherent(cfg, turns);
    let run = play(cfg, turns);
    let failed = turn(cfg, run, event, now);
    lemma_turn_coherent(cfg, run, event, now);
    assert(failed.state.phase == Phase::Finished(false));
    assert(none_removed(failed)) by {
        if run.state.phase is Listing {
            assert(failed.ledger == blank());
        } else {
            assert(failed.ledger == run.ledger);
        }
    }
    lemma_finished_stays(cfg, failed, more);
}

/// A failure while the batch is removed ends the cycle too: no further
/// file is removed, and those that were had every sink committed.
pub proof fn theorem_failed_removal_stops(
    cfg: Config,
    turns: Seq<(Event, i64)>,
    event: Event,
    now: i64,
    more: Seq<(Event, i64)>,
)
    requires
        cfg.sinks.len() <= usize::MAX,
        fatal(play(cfg, turns).state.phase, event),
        play(cfg, turns).state.phase is Removing,
    ensures
        ({
            let end = play_from(cfg, turn(cfg, play(cfg, turns), event, now), more);
            &&& end.awaited == Action::Finish { ok: false }
            &&& end.ledger == play(cfg, turns).ledger
            &&& all_committed(cfg, end)
        }),
{
    lemma_play_coherent(cfg, turns);
    let run = play(cfg, turns);
    let failed = turn(cfg, run, event, now);
    lemma_turn_coherent(cfg, run, event, now);
    assert(failed.state.phase == Phase::Finished(false));
    assert(failed.ledger == run.ledger);
    assert(all_committed(cfg, failed));
    lemma_finished_stays(cfg, failed, more);
}

/// A failed rename commits no more. When the rename for one sink fails,
/// the sinks before it are committed and no other is, then and ever after:
/// no sink at or behind the failed one is committed, and no source file is
/// removed.
pub proof fn theorem_failed_rename_commits_no_more(
    cfg: Config,
    turns: Seq<(Event, i64)>,
    event: Event,
    now: i64,
    more: Seq<(Event, i64)>,
)
    requires
        cfg.sinks.len() <= usize::MAX,
        play(cfg, turns).state.phase is Renaming,
        !(event is Done),
    ensures
        ({
            let failed = play(cfg, turns).state.phase->Renaming_0;
            let end = play_from(cfg, turn(cfg, play(cfg, turns), event, now), more);
            &&& end.awaited == Action::Finish { ok: false }
            &&& forall|j: usize| #[trigger] end.ledger.committed.contains_key(j) <==> j < failed
            &&& none_removed(end)
        }),
{
    lemma_play_coherent(cfg, turns);
    let run = play(cfg, turns);
    let failed = turn(cfg, run, event, now);
    assert(failed.state.phase == Phase::Finished(false));
    assert(failed.ledger == run.ledger);
    lemma_finished_stays(cfg, failed, more);
}

/// A listing that broke off never ends a cycle well: either a ceiling
/// completes the batch before the end of the listing is reached, or the
/// cycle fails there, with nothing created, committed or removed.
pub proof fn theorem_broken_listing(cfg: Config, turns: Seq<(Event, i64)>)
    requires
        cfg.sinks.len() <= usize::MAX,
        play(cfg, turns).state.torn,
    ensures
        play(cfg, turns).awaited != (Action::Finish { ok: true }),
        complete(play(cfg, turns).state.phase) ==> full(cfg, play(cfg, turns).state),
{
    lemma_play_coherent(cfg, turns);
}

/// Whether a run goes smoothly: no report ends the cycle at once, and no
/// listing broke off. Reads may fail.
pub open spec fn smooth(cfg: Config, turns: Seq<(Event, i64)>) -> bool {
    forall|i: int|
        0 <= i < turns.len() ==> !fatal(play(cfg, #[trigger] turns.take(i)).state.phase, turns[i].0)
            && !(turns[i].0 is Partial)
}

/// A cycle fails only on a failure. While every listing is whole and every
/// action but a read is reported done, the cycle does not fail, however
/// many files cannot be read and whatever else the listing holds.
pub proof fn theorem_fails_only_on_failure(cfg: Config, turns: Seq<(Event, i64)>)
    requires
        cfg.sinks.len() <= usize::MAX,
        smooth(cfg, turns),
    ensures
        play(cfg, turns).awaited != (Action::Finish { ok: false }),
        play(cfg, turns).state.phase != Phase::Finished(false),
        !play(cfg, turns).state.torn,
    decreases turns.len(),
{
    lemma_play_coherent(cfg, turns);
    if turns.len() > 0 {
        let before = turns.drop_last();
        assert(smooth(cfg, before)) by {
            assert forall|i: int| 0 <= i < before.len() implies !fatal(
                play(cfg, #[trigger] before.take(i)).state.phase,
                before[i].0,
            ) && !(before[i].0 is Partial) by {
                assert(before.take(i) =~= turns.take(i));
            }
        }
        theorem_fails_only_on_failure(cfg, before);
        lemma_play_coherent(cfg, before);
        let run = play(cfg, before);
        let event = turns.last().0;
        let last = turns.len() - 1;
        assert(turns.take(last) =~= before);
        assert(!fatal(run.state.phase, turns[last].0) && !(turns[last].0 is Partial));
        match run.state.phase {
            Phase::Listing => {
                if let Event::Listed(names) = event {
                    assert(names.len() == names@.len());
                    lemma_select_awaits(cfg, State { entries: views(names@), ..start() });
                }
            },
            Phase::Reading => {
                match event {
                    Event::Content(text) => {
                        lemma_absorb_ok(cfg, run.state, text@);
                        lemma_select_awaits(cfg, absorb(cfg, run.state, text@));
                    },
                    Event::Failed => {
                        lemma_absorb_ok(cfg, run.state, Seq::empty());
                        lemma_select_awaits(cfg, pass_over(run.state));
                    },
                    _ => {},
                }
            },
            _ => {},
        }
    }
}

/// From a position behind which the listing holds no metrics file,
/// `select` completes the batch as it stands.
pub proof fn lemma_select_past(cfg: Config, s: State)
    requires
        s.index <= s.entries.len(),
        !s.torn,
        forall|i: int| s.index <= i < s.entries.len() ==> !is_metrics_name(#[trigger] s.entries[i]),
    ensures
        select(cfg, s) == close(cfg, State { index: s.entries.len(), ..s }),
    decreases s.entries.len() - s.index,
{
    if s.index < s.entries.len() {
        lemma_select_past(cfg, State { index: s.index + 1, ..s });
    } else {
        assert(s =~= State { index: s.entries.len(), ..s });
    }
}

/// Nothing pending, nothing done. When the listing holds no metrics file,
/// be it empty or not, the cycle ends well at once: no file is created,
/// committed or removed.
pub proof fn theorem_nothing_pending(cfg: Config, names: Vec<String>, now: i64)
    requires
        forall|i: int| 0 <= i < names@.len() ==> !is_metrics_name(#[trigger] names@[i]@),
    ensures
        ({
            let run = play(cfg, seq![(Event::Listed(names), now)]);
            &&& run.awaited == Action::Finish { ok: true }
            &&& run.state.phase == Phase::Finished(true)
            &&& run.ledger == blank()
        }),
{
    let turns = seq![(Event::Listed(names), now)];
    assert(turns.drop_last() =~= Seq::empty());
    assert(play_from(cfg, opening(), turns.drop_last()) == opening());
    assert(play(cfg, turns) == turn(cfg, opening(), Event::Listed(names), now));
    let fresh = State { entries: views(names@), ..start() };
    lemma_select_past(cfg, fresh);
}

/// The file count is passed by one file, and by no more. With a file count
/// of `n` and a listing that holds `n + 2` or more metrics files that can be
/// read, among entries of any kind and in any places, a batch that is
/// complete within the byte size holds exactly `n + 1` files; the others
/// are left for a later iteration.
pub proof fn theorem_batch_boundary(cfg: Config, turns: Seq<(Event, i64)>, eligible: Seq<usize>)
    requires
        cfg.sinks.len() <= usize::MAX,
        complete(play(cfg, turns).state.phase),
        play(cfg, turns).state.size <= cfg.batch_size,
        eligible.no_duplicates(),
        eligible.len() >= cfg.batch_count + 2,
        forall|i: int|
            0 <= i < eligible.len() ==> {
                &&& (#[trigger] eligible[i]) < play(cfg, turns).state.entries.len()
                &&& is_metrics_name(play(cfg, turns).state.entries[eligible[i] as int])
                &&& !play(cfg, turns).ledger.unreadable.contains(eligible[i])
            },
    ensures
        play(cfg, turns).state.files.len() == cfg.batch_count + 1,
{
    lemma_play_coherent(cfg, turns);
    let run = play(cfg, turns);
    let files = run.state.files;
    if files.len() != cfg.batch_count + 1 {
        assert(!full(cfg, run.state));
        assert(run.state.index == run.state.entries.len());
        assert forall|e: usize| eligible.to_set().contains(e) implies files.to_set().contains(e) by {
            let i = choose|i: int| 0 <= i < eligible.len() && eligible[i] == e;
            assert(eligible[i] == e);
            assert(is_metrics_name(run.state.entries[e as int]));
            assert(files.contains(e));
        }
        assert(eligible.to_set().subset_of(files.to_set()));
        vstd::seq_lib::seq_to_set_is_finite(files);
        vstd::set_lib::lemma_len_subset(eligible.to_set(), files.to_set());
        eligible.unique_seq_to_set();
        files.lemma_cardinality_of_set();
    }
}

/// A state with its commit time blanked.
pub open spec fn unstamped(s: State) -> State {
    State { stamp: 0, ..s }
}

/// An action with its commit time blanked.
pub open spec fn unstamped_action(action: Action) -> Action {
    match action {
        Action::Rename { sink, stamp } => Action::Rename { sink, stamp: 0 },
        _ => action,
    }
}

/// Whether two runs are reported the same events, turn by turn, whatever
/// the clock shows in each.
pub open spec fn same_reports(a: Seq<(Event, i64)>, b: Seq<(Event, i64)>) -> bool {
    &&& a.len() == b.len()
    &&& forall|i: int| 0 <= i < a.len() ==> (#[trigger] a[i]).0 == b[i].0
}

/// Whether two points of two runs differ in nothing but the commit time.
pub open spec fn alike(a: Run, b: Run) -> bool {
    &&& unstamped(a.state) == unstamped(b.state)
    &&& unstamped_action(a.awaited) == unstamped_action(b.awaited)
    &&& a.ledger.removed == b.ledger.removed
    &&& a.ledger.unreadable == b.ledger.unreadable
    &&& a.ledger.committed.dom() == b.ledger.committed.dom()
}

/// `select` neither reads nor changes the commit time.
pub proof fn lemma_select_stamp(cfg: Config, s: State, stamp: i64)
    ensures
        select(cfg, State { stamp, ..s }) == (
            State { stamp, ..select(cfg, s).0 },
            select(cfg, s).1,
        ),
    decreases s.entries.len() - s.index,
{
    if s.index < s.entries.len() && !is_metrics_name(s.entries[s.index as int]) {
        lemma_select_stamp(cfg, State { index: s.index + 1, ..s }, stamp);
        assert(State { index: s.index + 1, ..State { stamp, ..s } } == State {
            stamp,
            ..State { index: s.index + 1, ..s }
        });
    }
}

/// A turn leads from points that are alike to points that are alike.
pub proof fn lemma_turn_alike(cfg: Config, a: Run, b: Run, event: Event, at_a: i64, at_b: i64)
    requires
        alike(a, b),
    ensures
        alike(turn(cfg, a, event, at_a), turn(cfg, b, event, at_b)),
{
    let s = a.state;
    let t = b.state;
    assert(t == State { stamp: t.stamp, ..s });
    let after_a = turn(cfg, a, event, at_a);
    let after_b = turn(cfg, b, event, at_b);
    match s.phase {
        Phase::Reading => match event {
            Event::Content(text) => {
                lemma_select_stamp(cfg, absorb(cfg, s, text@), t.stamp);
                assert(absorb(cfg, t, text@) == State { stamp: t.stamp, ..absorb(cfg, s, text@) });
            },
            Event::Failed => {
                lemma_select_stamp(cfg, pass_over(s), t.stamp);
                assert(pass_over(t) == State { stamp: t.stamp, ..pass_over(s) });
            },
            _ => {},
        },
        _ => {},
    }
    match a.awaited {
        Action::Rename { sink, stamp } => {
            if event is Done {
                assert(b.awaited is Rename && b.awaited->Rename_sink == sink);
                assert(after_a.ledger.committed.dom() =~= a.ledger.committed.dom().insert(sink));
                assert(after_b.ledger.committed.dom() =~= b.ledger.committed.dom().insert(sink));
            }
        },
        _ => {
            assert(b.awaited == a.awaited);
        },
    }
    assert(unstamped(after_a.state) =~= unstamped(after_b.state));
}

/// A retry reproduces the batch. Two runs that are reported the same
/// events go through the same states and ask for the same actions, and so
/// take the same files into the same batch of the same lines; they differ
/// in nothing but the time in the committed names.
pub proof fn theorem_retry_reproduces(cfg: Config, a: Seq<(Event, i64)>, b: Seq<(Event, i64)>)
    requires
        same_reports(a, b),
    ensures
        alike(play(cfg, a), play(cfg, b)),
    decreases a.len(),
{
    if a.len() > 0 {
        assert(same_reports(a.drop_last(), b.drop_last())) by {
            assert forall|i: int| 0 <= i < a.drop_last().len() implies (#[trigger] a.drop_last()[i]).0
                == b.drop_last()[i].0 by {
                assert(a[i].0 == b[i].0);
            }
        }
        theorem_retry_reproduces(cfg, a.drop_last(), b.drop_last());
        assert(a.last().0 == b.last().0) by {
            assert(a[a.len() - 1].0 == b[a.len() - 1].0);
        }
        lemma_turn_alike(
            cfg,
            play(cfg, a.drop_last()),
            play(cfg, b.drop_last()),
            a.last().0,
            a.last().1,
            b.last().1,
        );
    }
}

} // verus!
