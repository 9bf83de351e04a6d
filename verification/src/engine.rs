//! The alert engine: classifies filesystem change events, consumes the
//! bytes appended to the watched file, and drives the per-pattern
//! trackers.
//!
//! The engine owns the watch target and the trackers. Its caller performs
//! the actual watching and reading and hands the engine plain values: the
//! event flags, the freshly measured file size, the appended bytes, and
//! the current time.

use vstd::prelude::*;
use crate::lines::{complete_lines, consumed, contains_seq, contains_bytes, split_lines};
use crate::tracker::{FailureMap, fires, pruned, notify};
use crate::watch::Watched;

verus! {

/// What a change notification reported: the entry name for a directory
/// event (none for an event on the watched file itself) and the flags the
/// engine distinguishes.
pub struct ChangeEvent {
    pub name: Option<Vec<u8>>,
    pub created: bool,
    pub moved_from: bool,
    pub modified: bool,
    pub move_self: bool,
    pub ignored: bool,
}

/// What the control loop should do with an event.
#[derive(Clone, Copy, PartialEq, Eq, Structural, Debug)]
pub enum Action {
    /// The watched name was created anew in the directory: re-register
    /// the file watch and scan the replacement from its start.
    Rewatch,
    /// The watched file grew or changed in place: read the appended
    /// bytes.
    ReadAppend,
    /// Nothing to do this cycle.
    Skip,
}

/// How an event is classified, given the watched base name. A directory
/// event for the watched name that includes creation means rotation; any
/// other named event is informational. An event on the file itself calls
/// for a read unless the file was moved away or the watch was
/// invalidated, in which case the creation event for the replacement is
/// awaited instead.
pub open spec fn classify_spec(ev: ChangeEvent, file: Seq<u8>) -> Action {
    match ev.name {
        Some(n) => if n@ == file && ev.created {
            Action::Rewatch
        } else {
            Action::Skip
        },
        None => if ev.move_self || ev.ignored {
            Action::Skip
        } else {
            Action::ReadAppend
        },
    }
}

/// Whether two byte strings hold the same bytes.
pub fn bytes_eq(a: &[u8], b: &[u8]) -> (r: bool)
    ensures
        r == (a@ == b@),
{
    if a.len() != b.len() {
        return false;
    }
    let mut i: usize = 0;
    while i < a.len()
        invariant
            a@.len() == b@.len(),
            0 <= i <= a@.len(),
            forall|k: int| 0 <= k < i ==> a@[k] == b@[k],
        decreases a.len() - i,
    {
        if a[i] != b[i] {
            return false;
        }
        i = i + 1;
    }
    proof {
        assert(a@ =~= b@);
    }
    true
}

/// The mutable part of one tracker: its occurrence times and the time of
/// its last alert.
pub open spec fn model_of(m: FailureMap) -> (Seq<u64>, Option<u64>) {
    (m.auth_failure_time@, m.notify_time)
}

/// The models of a row of trackers.
pub open spec fn models_of(maps: Seq<FailureMap>) -> Seq<(Seq<u64>, Option<u64>)> {
    Seq::new(maps.len(), |i: int| model_of(maps[i]))
}

/// The detection literals of a row of trackers.
pub open spec fn msgs_of(maps: Seq<FailureMap>) -> Seq<Seq<u8>> {
    Seq::new(maps.len(), |i: int| maps[i].auth_failure.message@)
}

/// One recorded occurrence at `now`: the tracker either fires and resets
/// into cooldown, or keeps the pruned occurrences plus the new one.
pub open spec fn step_occurrence(s: (Seq<u64>, Option<u64>), now: u64) -> (Seq<u64>, Option<u64>) {
    if fires(s.0, s.1, now) {
        (Seq::empty(), Some(now))
    } else {
        (pruned(s.0, now).push(now), s.1)
    }
}

/// One line against one tracker: an occurrence is recorded exactly when
/// the tracker's literal occurs in the line.
pub open spec fn step_line(
    s: (Seq<u64>, Option<u64>),
    msg: Seq<u8>,
    line: Seq<u8>,
    now: u64,
) -> (Seq<u64>, Option<u64>) {
    if contains_seq(line, msg) {
        step_occurrence(s, now)
    } else {
        s
    }
}

/// Whether one line makes one tracker fire.
pub open spec fn line_fires(
    s: (Seq<u64>, Option<u64>),
    msg: Seq<u8>,
    line: Seq<u8>,
    now: u64,
) -> bool {
    contains_seq(line, msg) && fires(s.0, s.1, now)
}

/// One line against every tracker, each against its own literal.
pub open spec fn step_line_all(
    ss: Seq<(Seq<u64>, Option<u64>)>,
    msgs: Seq<Seq<u8>>,
    line: Seq<u8>,
    now: u64,
) -> Seq<(Seq<u64>, Option<u64>)> {
    Seq::new(ss.len(), |i: int| step_line(ss[i], msgs[i], line, now))
}

/// The indices of the trackers that fire on one line, in index order.
pub open spec fn fired_on_line(
    ss: Seq<(Seq<u64>, Option<u64>)>,
    msgs: Seq<Seq<u8>>,
    line: Seq<u8>,
    now: u64,
) -> Seq<usize>
    decreases ss.len(),
{
    if ss.len() == 0 {
        Seq::empty()
    } else {
        let rest = fired_on_line(ss.drop_last(), msgs, line, now);
        if line_fires(ss.last(), msgs[ss.len() - 1], line, now) {
            rest.push((ss.len() - 1) as usize)
        } else {
            rest
        }
    }
}

/// A whole chunk of lines, in order, against every tracker.
pub open spec fn step_chunk(
    ss: Seq<(Seq<u64>, Option<u64>)>,
    msgs: Seq<Seq<u8>>,
    lines: Seq<Seq<u8>>,
    now: u64,
) -> Seq<(Seq<u64>, Option<u64>)>
    decreases lines.len(),
{
    if lines.len() == 0 {
        ss
    } else {
        step_chunk(step_line_all(ss, msgs, lines.first(), now), msgs, lines.drop_first(), now)
    }
}

/// The alerts a chunk of lines produces: for each line in order, the
/// indices of the trackers that fire on it.
pub open spec fn fired_chunk(
    ss: Seq<(Seq<u64>, Option<u64>)>,
    msgs: Seq<Seq<u8>>,
    lines: Seq<Seq<u8>>,
    now: u64,
) -> Seq<usize>
    decreases lines.len(),
{
    if lines.len() == 0 {
        Seq::empty()
    } else {
        fired_on_line(ss, msgs, lines.first(), now) + fired_chunk(
            step_line_all(ss, msgs, lines.first(), now),
            msgs,
            lines.drop_first(),
            now,
        )
    }
}

proof fn lemma_step_chunk_push(
    ss: Seq<(Seq<u64>, Option<u64>)>,
    msgs: Seq<Seq<u8>>,
    lines: Seq<Seq<u8>>,
    line: Seq<u8>,
    now: u64,
)
    ensures
        step_chunk(ss, msgs, lines.push(line), now) == step_line_all(
            step_chunk(ss, msgs, lines, now),
            msgs,
            line,
            now,
        ),
        fired_chunk(ss, msgs, lines.push(line), now) == fired_chunk(ss, msgs, lines, now)
            + fired_on_line(step_chunk(ss, msgs, lines, now), msgs, line, now),
    decreases lines.len(),
{
    let p = lines.push(line);
    assert(p.len() > 0);
    assert(step_chunk(ss, msgs, p, now) == step_chunk(
        step_line_all(ss, msgs, p.first(), now),
        msgs,
        p.drop_first(),
        now,
    ));
    assert(fired_chunk(ss, msgs, p, now) == fired_on_line(ss, msgs, p.first(), now) + fired_chunk(
        step_line_all(ss, msgs, p.first(), now),
        msgs,
        p.drop_first(),
        now,
    ));
    if lines.len() == 0 {
        let e = Seq::<Seq<u8>>::empty();
        let ss1 = step_line_all(ss, msgs, line, now);
        assert(p.first() == line);
        assert(p.drop_first() =~= e);
        assert(step_chunk(ss1, msgs, e, now) == ss1);
        assert(fired_chunk(ss1, msgs, e, now) == Seq::<usize>::empty());
        assert(step_chunk(ss, msgs, e, now) == ss);
        assert(fired_chunk(ss, msgs, e, now) == Seq::<usize>::empty());
        assert(fired_on_line(ss, msgs, line, now) + Seq::<usize>::empty() =~= fired_on_line(
            ss,
            msgs,
            line,
            now,
        ));
        assert(Seq::<usize>::empty() + fired_on_line(ss, msgs, line, now) =~= fired_on_line(
            ss,
            msgs,
            line,
            now,
        ));
    } else {
        assert(p.first() == lines.first());
        assert(p.drop_first() =~= lines.drop_first().push(line));
        let ss1 = step_line_all(ss, msgs, lines.first(), now);
        lemma_step_chunk_push(ss1, msgs, lines.drop_first(), line, now);
        assert(fired_on_line(ss, msgs, lines.first(), now) + (fired_chunk(
            ss1,
            msgs,
            lines.drop_first(),
            now,
        ) + fired_on_line(step_chunk(ss1, msgs, lines.drop_first(), now), msgs, line, now))
            =~= (fired_on_line(ss, msgs, lines.first(), now) + fired_chunk(
            ss1,
            msgs,
            lines.drop_first(),
            now,
        )) + fired_on_line(step_chunk(ss1, msgs, lines.drop_first(), now), msgs, line, now));
    }
}

/// The offset after a run of append reads starting at `pos`, each read
/// consuming its chunk's complete lines, as `handle_chunk` does.
pub open spec fn offset_after(pos: int, chunks: Seq<Seq<u8>>) -> int
    decreases chunks.len(),
{
    if chunks.len() == 0 {
        pos
    } else {
        offset_after(pos + consumed(chunks.first()), chunks.drop_first())
    }
}

/// Offset monotonicity: over any sequence of append reads the offset
/// never moves backwards; only a rotation, through
/// `AlertEngine::handle_rotation`, resets it, and then to exactly zero.
pub proof fn lemma_offset_monotonic(pos: int, chunks: Seq<Seq<u8>>)
    ensures
        pos <= offset_after(pos, chunks),
    decreases chunks.len(),
{
    if chunks.len() > 0 {
        crate::lines::lemma_consumed_bounds(chunks.first());
        lemma_offset_monotonic(pos + consumed(chunks.first()), chunks.drop_first());
    }
}

/// The engine: the watched file and one tracker per detection pattern.
pub struct AlertEngine {
    pub watch: Watched,
    pub maps: Vec<FailureMap>,
}

impl AlertEngine {
    /// An engine for the file at `path`. When the file already exists its
    /// measured size is passed in, so that only bytes appended from now
    /// on are ever scanned; a missing file starts at offset 0 and is
    /// scanned from its start once it appears.
    pub fn new(path: Vec<u8>, initial_size: Option<u64>, maps: Vec<FailureMap>) -> (e: AlertEngine)
        ensures
            e.watch.path@ == path@,
            e.watch.dir@ == crate::watch::dir_name_of(path@),
            e.watch.file@ == crate::watch::base_name_of(path@),
            e.watch.pos == (match initial_size {
                Some(s) => s,
                None => 0u64,
            }),
            e.maps == maps,
    {
        let mut watch = Watched::new(path);
        match initial_size {
            Some(s) => watch.set_pos(s),
            None => (),
        }
        AlertEngine { watch, maps }
    }

    /// Classifies one change event against the watched base name.
    pub fn classify(&self, ev: &ChangeEvent) -> (a: Action)
        ensures
            a == classify_spec(*ev, self.watch.file@),
    {
        match &ev.name {
            Some(n) => {
                if ev.created && bytes_eq(n.as_slice(), self.watch.file.as_slice()) {
                    Action::Rewatch
                } else {
                    Action::Skip
                }
            },
            None => {
                if ev.move_self || ev.ignored {
                    Action::Skip
                } else {
                    Action::ReadAppend
                }
            },
        }
    }

    /// A replacement file took the watched name: forget all read
    /// progress, so the next read scans it from the start. The trackers
    /// carry over untouched.
    pub fn handle_rotation(&mut self)
        ensures
            final(self).watch.pos == 0,
            final(self).watch.path == old(self).watch.path,
            final(self).watch.dir == old(self).watch.dir,
            final(self).watch.file == old(self).watch.file,
            final(self).maps == old(self).maps,
    {
        self.watch.reset();
    }

    /// Reconciles the offset with the freshly measured `size` and returns
    /// where the next read starts: a file shorter than the offset was
    /// truncated or replaced and is scanned from its start.
    pub fn prepare_read(&mut self, size: u64) -> (start: u64)
        ensures
            final(self).watch.pos == (if size < old(self).watch.pos {
                0u64
            } else {
                old(self).watch.pos
            }),
            start == final(self).watch.pos,
            start <= size,
            final(self).watch.path == old(self).watch.path,
            final(self).watch.dir == old(self).watch.dir,
            final(self).watch.file == old(self).watch.file,
            final(self).maps == old(self).maps,
    {
        self.watch.clamp_to_size(size);
        self.watch.pos
    }

    /// Feeds one line to every tracker and returns the indices of the
    /// trackers whose alert fires on it, in index order.
    pub fn process_line(&mut self, line: &[u8], now: u64) -> (fired: Vec<usize>)
        ensures
            final(self).maps@.len() == old(self).maps@.len(),
            models_of(final(self).maps@) == step_line_all(
                models_of(old(self).maps@),
                msgs_of(old(self).maps@),
                line@,
                now,
            ),
            forall|i: int|
                0 <= i < old(self).maps@.len() ==> final(self).maps@[i].auth_failure == old(
                    self,
                ).maps@[i].auth_failure,
            fired@ == fired_on_line(models_of(old(self).maps@), msgs_of(old(self).maps@), line@, now),
            final(self).watch == old(self).watch,
    {
        let mut fired: Vec<usize> = Vec::new();
        let mut j: usize = 0;
        let n = self.maps.len();
        while j < n
            invariant
                n == old(self).maps@.len(),
                0 <= j <= n,
                self.maps@.len() == n,
                self.watch == old(self).watch,
                forall|i: int|
                    0 <= i < n ==> #[trigger] self.maps@[i].auth_failure == old(
                        self,
                    ).maps@[i].auth_failure,
                forall|i: int|
                    j <= i < n ==> #[trigger] model_of(self.maps@[i]) == model_of(
                        old(self).maps@[i],
                    ),
                forall|i: int|
                    0 <= i < j ==> #[trigger] model_of(self.maps@[i]) == step_line(
                        model_of(old(self).maps@[i]),
                        old(self).maps@[i].auth_failure.message@,
                        line@,
                        now,
                    ),
                fired@ == fired_on_line(
                    models_of(old(self).maps@.take(j as int)),
                    msgs_of(old(self).maps@),
                    line@,
                    now,
                ),
            decreases n - j,
        {
            let ghost pre = self.maps@;
            let mut m = self.maps.remove(j);
            let hit = contains_bytes(line, m.auth_failure.message.as_slice());
            let mut did_fire = false;
            if hit {
                did_fire = notify(&mut m, now);
            }
            let ghost mfin = m;
            self.maps.insert(j, m);
            proof {
                assert(self.maps@ =~= pre.update(j as int, mfin));
                assert(model_of(pre[j as int]) == model_of(old(self).maps@[j as int]));
                assert(pre[j as int].auth_failure == old(self).maps@[j as int].auth_failure);
                assert(model_of(mfin) == step_line(
                    model_of(old(self).maps@[j as int]),
                    old(self).maps@[j as int].auth_failure.message@,
                    line@,
                    now,
                ));
            }
            if did_fire {
                fired.push(j);
            }
            proof {
                let whole = old(self).maps@;
                let tk = whole.take(j + 1);
                assert(tk.drop_last() =~= whole.take(j as int));
                assert(models_of(tk).drop_last() =~= models_of(whole.take(j as int)));
                assert(models_of(tk).last() == model_of(whole[j as int]));
                assert(msgs_of(whole)[j as int] == whole[j as int].auth_failure.message@);
                assert(did_fire == line_fires(
                    model_of(whole[j as int]),
                    whole[j as int].auth_failure.message@,
                    line@,
                    now,
                ));
                assert(fired@ == fired_on_line(
                    models_of(whole.take(j + 1)),
                    msgs_of(whole),
                    line@,
                    now,
                ));
            }
            j = j + 1;
        }
        proof {
            assert(old(self).maps@.take(n as int) =~= old(self).maps@);
            assert(models_of(self.maps@) =~= step_line_all(
                models_of(old(self).maps@),
                msgs_of(old(self).maps@),
                line@,
                now,
            ));
        }
        fired
    }

    /// Consumes the bytes appended since the last read: splits them into
    /// complete lines, advances the offset past the lines' bytes (an
    /// unterminated tail is left for a later read), feeds every line to
    /// every tracker, and returns the indices of the trackers that fire,
    /// in the order the alerts occur.
    pub fn handle_chunk(&mut self, chunk: &[u8], now: u64) -> (fired: Vec<usize>)
        requires
            old(self).watch.pos + chunk@.len() <= u64::MAX,
        ensures
            final(self).watch.pos == old(self).watch.pos + consumed(chunk@),
            final(self).watch.path == old(self).watch.path,
            final(self).watch.dir == old(self).watch.dir,
            final(self).watch.file == old(self).watch.file,
            final(self).maps@.len() == old(self).maps@.len(),
            forall|i: int|
                0 <= i < old(self).maps@.len() ==> final(self).maps@[i].auth_failure == old(
                    self,
                ).maps@[i].auth_failure,
            models_of(final(self).maps@) == step_chunk(
                models_of(old(self).maps@),
                msgs_of(old(self).maps@),
                complete_lines(chunk@),
                now,
            ),
            fired@ == fired_chunk(
                models_of(old(self).maps@),
                msgs_of(old(self).maps@),
                complete_lines(chunk@),
                now,
            ),
    {
        proof {
            crate::lines::lemma_consumed_bounds(chunk@);
        }
        let (lines, used) = split_lines(chunk);
        let new_pos = self.watch.pos + used as u64;
        self.watch.set_pos(new_pos);
        let ghost watch_after = self.watch;
        let ghost models0 = models_of(self.maps@);
        let ghost msgs = msgs_of(self.maps@);
        let ghost all_lines = complete_lines(chunk@);
        let mut fired: Vec<usize> = Vec::new();
        let mut k: usize = 0;
        proof {
            assert(all_lines.take(0) =~= Seq::<Seq<u8>>::empty());
        }
        while k < lines.len()
            invariant
                0 <= k <= lines.len(),
                lines@.map_values(|l: Vec<u8>| l@) == all_lines,
                self.watch == watch_after,
                watch_after.pos == old(self).watch.pos + consumed(chunk@),
                watch_after.path == old(self).watch.path,
                watch_after.dir == old(self).watch.dir,
                watch_after.file == old(self).watch.file,
                self.maps@.len() == old(self).maps@.len(),
                models0 == models_of(old(self).maps@),
                msgs == msgs_of(old(self).maps@),
                forall|i: int|
                    0 <= i < old(self).maps@.len() ==> #[trigger] self.maps@[i].auth_failure
                        == old(self).maps@[i].auth_failure,
                models_of(self.maps@) == step_chunk(models0, msgs, all_lines.take(k as int), now),
                fired@ == fired_chunk(models0, msgs, all_lines.take(k as int), now),
            decreases lines.len() - k,
        {
            let ghost pre_models = models_of(self.maps@);
            proof {
                assert(msgs_of(self.maps@) =~= msgs);
            }
            let line = &lines[k];
            let mut sub = self.process_line(line.as_slice(), now);
            proof {
                assert(msgs_of(self.maps@) =~= msgs);
                assert(all_lines[k as int] == line@);
            }
            fired.append(&mut sub);
            proof {
                assert(all_lines.take(k + 1).drop_last() =~= all_lines.take(k as int));
                assert(all_lines.take(k + 1) =~= all_lines.take(k as int).push(line@));
                lemma_step_chunk_push(models0, msgs, all_lines.take(k as int), line@, now);
            }
            k = k + 1;
        }
        proof {
            assert(all_lines.take(lines@.len() as int) =~= all_lines);
        }
        fired
    }
}

} // verus!
