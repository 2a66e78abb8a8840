use vstd::prelude::*;
use std::collections::VecDeque;
use vstd::string::*;

use crate::decimal::{append_decimal, decimal};

verus! {

/// How long a pressed key stays on screen, in nanoseconds.
pub const DISPLAY_DURATION_NANOS: u128 = 2_000_000_000;

/// Most keys the log keeps.
pub const MAX_KEYS: usize = 10;

#[verifier::external_type_specification]
#[verifier::external_body]
pub struct ExInstant(std::time::Instant);

/// Reads the monotonic clock (`std::time::Instant::now`). Nothing is
/// claimed of the value: it depends on the time of the call.
#[verifier::external_body]
fn clock_origin() -> std::time::Instant {
    std::time::Instant::now()
}

/// Time elapsed since `origin` on the monotonic clock
/// (`Instant::elapsed`). Nothing is claimed of the value: it depends on the
/// time of the call.
#[verifier::external_body]
fn elapsed_since(origin: &std::time::Instant) -> std::time::Duration {
    origin.elapsed()
}

/// Whole nanoseconds in a duration (`Duration::as_nanos`). Nothing is
/// claimed of the value: a `Duration` is opaque here.
#[verifier::external_body]
fn nanos_of(d: &std::time::Duration) -> u128 {
    d.as_nanos()
}

/// Nanoseconds since `origin` on the monotonic clock.
fn nanos_since(origin: &std::time::Instant) -> u128 {
    let d = elapsed_since(origin);
    nanos_of(&d)
}

/// Time from `then` to `now`, or 0 when `now` reads earlier.
pub open spec fn spec_age(then: u128, now: u128) -> int {
    if now >= then {
        now - then
    } else {
        0
    }
}

/// Whether a key pressed at `pressed_at` is still shown at `now`.
pub open spec fn is_shown(pressed_at: u128, now: u128) -> bool {
    spec_age(pressed_at, now) < DISPLAY_DURATION_NANOS
}

/// The entries of `log` (name, press time) still shown at `now`, in order.
pub open spec fn shown_entries(log: Seq<(Seq<char>, u128)>, now: u128) -> Seq<(Seq<char>, u128)>
    decreases log.len(),
{
    if log.len() == 0 {
        Seq::empty()
    } else {
        let rest = shown_entries(log.drop_last(), now);
        if is_shown(log.last().1, now) {
            rest.push(log.last())
        } else {
            rest
        }
    }
}

/// The log after a key named `name` is pressed at `now`: the entries no
/// longer shown are dropped, the new one is appended, and only the last
/// `MAX_KEYS` are kept.
pub open spec fn spec_push(log: Seq<(Seq<char>, u128)>, name: Seq<char>, now: u128) -> Seq<
    (Seq<char>, u128),
> {
    let kept = shown_entries(log, now).push((name, now));
    if kept.len() > MAX_KEYS {
        kept.skip(kept.len() - MAX_KEYS)
    } else {
        kept
    }
}

/// Names of the keys shown at `now`, oldest first.
pub open spec fn spec_current_keys(log: Seq<(Seq<char>, u128)>, now: u128) -> Seq<Seq<char>> {
    shown_entries(log, now).map_values(|e: (Seq<char>, u128)| e.0)
}

/// Press times never decrease along the log.
pub open spec fn time_ordered(log: Seq<(Seq<char>, u128)>) -> bool {
    forall|i: int, j: int| #![trigger log[i], log[j]] 0 <= i < j < log.len() ==> log[i].1 <= log[j].1
}

/// `now` is no earlier than the newest entry's press time.
pub open spec fn not_before_newest(log: Seq<(Seq<char>, u128)>, now: u128) -> bool {
    log.len() > 0 ==> log.last().1 <= now
}

/// The press time recorded for a clock reading `now`: the reading itself,
/// or the newest entry's press time when the reading is earlier.
pub open spec fn press_time(log: Seq<(Seq<char>, u128)>, now: u128) -> u128 {
    if log.len() > 0 && log.last().1 > now {
        log.last().1
    } else {
        now
    }
}

/// A pressed key: its display name and when it was pressed (nanoseconds
/// since the log was made).
pub struct KeyEntry {
    pub name: String,
    pub pressed_at: u128,
}

/// The recently pressed keys, oldest first.
pub struct KeyLog {
    entries: VecDeque<KeyEntry>,
    origin: std::time::Instant,
}

proof fn lemma_shown_entries_len(log: Seq<(Seq<char>, u128)>, now: u128)
    ensures
        shown_entries(log, now).len() <= log.len(),
    decreases log.len(),
{
    if log.len() > 0 {
        lemma_shown_entries_len(log.drop_last(), now);
    }
}

/// Filtering entries that are all shown changes nothing.
proof fn lemma_shown_entries_all_shown(log: Seq<(Seq<char>, u128)>, now: u128)
    requires
        forall|i: int| #![trigger log[i]] 0 <= i < log.len() ==> is_shown(log[i].1, now),
    ensures
        shown_entries(log, now) == log,
    decreases log.len(),
{
    if log.len() > 0 {
        lemma_shown_entries_all_shown(log.drop_last(), now);
        assert(log.drop_last().push(log.last()) =~= log);
    }
}

/// Every entry kept by the filter is shown.
proof fn lemma_shown_entries_are_shown(log: Seq<(Seq<char>, u128)>, now: u128)
    ensures
        forall|i: int|
            #![trigger shown_entries(log, now)[i]]
            0 <= i < shown_entries(log, now).len() ==> is_shown(shown_entries(log, now)[i].1, now),
    decreases log.len(),
{
    if log.len() > 0 {
        lemma_shown_entries_are_shown(log.drop_last(), now);
        let rest = shown_entries(log.drop_last(), now);
        if is_shown(log.last().1, now) {
            assert forall|i: int|
                #![trigger shown_entries(log, now)[i]]
                0 <= i < shown_entries(log, now).len() implies is_shown(
                shown_entries(log, now)[i].1,
                now,
            ) by {
                if i < rest.len() {
                    assert(shown_entries(log, now)[i] == rest[i]);
                }
            }
        }
    }
}

/// Filtering a time-ordered log keeps it ordered, and no kept entry is
/// newer than the log's newest entry.
proof fn lemma_shown_entries_ordered(log: Seq<(Seq<char>, u128)>, now: u128)
    requires
        time_ordered(log),
    ensures
        time_ordered(shown_entries(log, now)),
        log.len() > 0 ==> forall|i: int|
            #![trigger shown_entries(log, now)[i]]
            0 <= i < shown_entries(log, now).len() ==> shown_entries(log, now)[i].1
                <= log.last().1,
    decreases log.len(),
{
    if log.len() > 0 {
        let dl = log.drop_last();
        assert(time_ordered(dl)) by {
            assert forall|i: int, j: int| #![trigger dl[i], dl[j]] 0 <= i < j < dl.len() implies dl[i].1
                <= dl[j].1 by {
                assert(dl[i] == log[i] && dl[j] == log[j]);
            }
        }
        lemma_shown_entries_ordered(dl, now);
        let rest = shown_entries(dl, now);
        let sh = shown_entries(log, now);
        if dl.len() > 0 {
            assert(dl.last() == log[log.len() - 2]);
            assert(log[log.len() - 2].1 <= log[log.len() - 1].1);
        }
        assert forall|i: int| #![trigger rest[i]] 0 <= i < rest.len() implies rest[i].1
            <= log.last().1 by {
            if dl.len() > 0 {
                assert(rest[i].1 <= dl.last().1);
            }
        }
        if is_shown(log.last().1, now) {
            assert(sh == rest.push(log.last()));
            assert forall|i: int, j: int| #![trigger sh[i], sh[j]] 0 <= i < j < sh.len() implies sh[i].1
                <= sh[j].1 by {
                assert(sh[i] == rest[i]);
                if j < rest.len() {
                    assert(sh[j] == rest[j]);
                }
            }
            assert forall|i: int| #![trigger sh[i]] 0 <= i < sh.len() implies sh[i].1 <= log.last().1 by {
                if i < rest.len() {
                    assert(sh[i] == rest[i]);
                }
            }
        } else {
            assert(sh == rest);
        }
    }
}

/// Pressing a key no earlier than the newest entry keeps the log ordered.
pub proof fn lemma_push_keeps_order(log: Seq<(Seq<char>, u128)>, name: Seq<char>, now: u128)
    requires
        time_ordered(log),
        not_before_newest(log, now),
    ensures
        time_ordered(spec_push(log, name, now)),
{
    lemma_shown_entries_ordered(log, now);
    let sh = shown_entries(log, now);
    let kept = sh.push((name, now));
    assert(time_ordered(kept)) by {
        assert forall|i: int, j: int| #![trigger kept[i], kept[j]] 0 <= i < j < kept.len() implies kept[i].1
            <= kept[j].1 by {
            assert(kept[i] == sh[i]);
            if j < sh.len() {
                assert(kept[j] == sh[j]);
            } else {
                assert(sh[i].1 <= log.last().1);
            }
        }
    }
    let p = spec_push(log, name, now);
    if kept.len() > MAX_KEYS {
        let off = kept.len() - MAX_KEYS;
        assert forall|i: int, j: int| #![trigger p[i], p[j]] 0 <= i < j < p.len() implies p[i].1 <= p[j].1 by {
            assert(p[i] == kept[i + off] && p[j] == kept[j + off]);
        }
    }
}

/// In a time-ordered log the keys shown at `now` are all those from some
/// position on: every earlier key has expired.
proof fn lemma_shown_entries_suffix(log: Seq<(Seq<char>, u128)>, now: u128) -> (c: int)
    requires
        time_ordered(log),
    ensures
        0 <= c <= log.len(),
        shown_entries(log, now) == log.skip(c),
        forall|i: int| #![trigger log[i]] 0 <= i < c ==> !is_shown(log[i].1, now),
    decreases log.len(),
{
    if log.len() == 0 {
        assert(log.skip(0) =~= log);
        0
    } else {
        let dl = log.drop_last();
        assert(time_ordered(dl)) by {
            assert forall|i: int, j: int| #![trigger dl[i], dl[j]] 0 <= i < j < dl.len() implies dl[i].1
                <= dl[j].1 by {
                assert(dl[i] == log[i] && dl[j] == log[j]);
            }
        }
        if is_shown(log.last().1, now) {
            let c = lemma_shown_entries_suffix(dl, now);
            assert(dl.skip(c).push(log.last()) =~= log.skip(c));
            assert forall|i: int| #![trigger log[i]] 0 <= i < c implies !is_shown(log[i].1, now) by {
                assert(log[i] == dl[i]);
            }
            c
        } else {
            let rest = shown_entries(dl, now);
            let c0 = lemma_shown_entries_suffix(dl, now);
            assert forall|i: int| #![trigger log[i]] 0 <= i < log.len() implies !is_shown(log[i].1, now) by {
                assert(log[i].1 <= log[log.len() - 1].1);
            }
            if rest.len() > 0 {
                lemma_shown_entries_are_shown(dl, now);
                assert(rest[0] == dl[c0]);
                assert(dl[c0] == log[c0]);
                assert(is_shown(rest[0].1, now));
            }
            assert(rest =~= Seq::<(Seq<char>, u128)>::empty());
            assert(log.skip(log.len() as int) =~= Seq::<(Seq<char>, u128)>::empty());
            log.len() as int
        }
    }
}

/// As time passes, shown keys only expire, oldest first: in a time-ordered
/// log (every `KeyLog` is one, as its methods state) the keys shown at a
/// later reading are the last of those shown at an earlier one, in the same
/// order.
pub proof fn lemma_shown_keys_shrink(log: Seq<(Seq<char>, u128)>, t1: u128, t2: u128)
    requires
        time_ordered(log),
        t1 <= t2,
    ensures
        exists|k: int|
            0 <= k <= spec_current_keys(log, t1).len() && spec_current_keys(log, t2)
                == spec_current_keys(log, t1).skip(k),
{
    let c1 = lemma_shown_entries_suffix(log, t1);
    let c2 = lemma_shown_entries_suffix(log, t2);
    if c2 < c1 {
        assert(shown_entries(log, t2)[0] == log[c2]);
        lemma_shown_entries_are_shown(log, t2);
        assert(is_shown(log[c2].1, t2));
        assert(!is_shown(log[c2].1, t1));
        assert(false);
    }
    let k = c2 - c1;
    let a = spec_current_keys(log, t1);
    let b = spec_current_keys(log, t2);
    assert(b =~= a.skip(k));
}

impl KeyLog {
    /// The entries as (name, press time), oldest first.
    pub closed spec fn entries_view(&self) -> Seq<(Seq<char>, u128)> {
        self.entries@.map_values(|e: KeyEntry| (e.name@, e.pressed_at))
    }

    /// Press times never decrease along the log.
    #[verifier::type_invariant]
    spec fn ordered(self) -> bool {
        time_ordered(self.entries_view())
    }

    /// The press time of the newest entry, if any.
    fn newest_time(&self) -> (r: Option<u128>)
        ensures
            r == (if self.entries_view().len() > 0 {
                Some(self.entries_view().last().1)
            } else {
                None::<u128>
            }),
    {
        let n = self.entries.len();
        if n > 0 {
            proof {
                assert(self.entries_view().last() == (
                    self.entries@[n - 1].name@,
                    self.entries@[n - 1].pressed_at,
                ));
            }
            Some(self.entries[n - 1].pressed_at)
        } else {
            None
        }
    }

    /// `now`, raised to the newest entry's press time when it reads earlier.
    fn clamped(&self, now: u128) -> (r: u128)
        ensures
            r == press_time(self.entries_view(), now),
    {
        match self.newest_time() {
            Some(t) => if t > now {
                t
            } else {
                now
            },
            None => now,
        }
    }

    /// An empty log whose clock starts now.
    pub fn new() -> (r: Self)
        ensures
            r.entries_view() == Seq::<(Seq<char>, u128)>::empty(),
            time_ordered(r.entries_view()),
    {
        let r = KeyLog { entries: VecDeque::new(), origin: clock_origin() };
        assert(r.entries_view() =~= Seq::<(Seq<char>, u128)>::empty());
        r
    }

    /// Records a key named `name` pressed at `now` (nanoseconds since the
    /// log was made): drops the keys no longer shown, appends the new one
    /// and keeps only the last `MAX_KEYS`. A reading earlier than the
    /// newest entry's press time is taken as that time, so the log stays
    /// in time order.
    pub fn push_at(&mut self, name: String, now: u128)
        ensures
            final(self).entries_view() == spec_push(
                old(self).entries_view(),
                name@,
                press_time(old(self).entries_view(), now),
            ),
            final(self).entries_view().len() <= MAX_KEYS,
            final(self).entries_view().last() == (name@, press_time(old(self).entries_view(), now)),
            time_ordered(final(self).entries_view()),
    {
        proof {
            use_type_invariant(&*self);
        }
        let ghost old_view = self.entries_view();
        let now = self.clamped(now);
        proof {
            lemma_push_keeps_order(old_view, name@, now);
            lemma_push_bounded(old_view, name@, now);
        }
        let mut source: VecDeque<KeyEntry> = VecDeque::new();
        std::mem::swap(&mut source, &mut self.entries);
        assert(source@.map_values(|e: KeyEntry| (e.name@, e.pressed_at)) == old_view);
        let n = source.len();
        let mut kept: VecDeque<KeyEntry> = VecDeque::new();
        let mut i: usize = 0;
        proof {
            assert(old_view.take(0) =~= Seq::<(Seq<char>, u128)>::empty());
            assert(kept@.map_values(|e: KeyEntry| (e.name@, e.pressed_at)) =~= Seq::<
                (Seq<char>, u128),
            >::empty());
            assert(old_view.skip(0) =~= old_view);
        }
        while i < n
            invariant
                n == old_view.len(),
                i <= n,
                source@.map_values(|e: KeyEntry| (e.name@, e.pressed_at)) == old_view.skip(
                    i as int,
                ),
                kept@.map_values(|e: KeyEntry| (e.name@, e.pressed_at)) == shown_entries(
                    old_view.take(i as int),
                    now,
                ),
            decreases n - i,
        {
            let ghost before = source@;
            proof {
                assert(before.map_values(|e: KeyEntry| (e.name@, e.pressed_at)).len()
                    == before.len());
                assert(before.len() > 0);
                assert(before.map_values(|e: KeyEntry| (e.name@, e.pressed_at))[0] == old_view[i as int]);
            }
            let e = source.pop_front().unwrap();
            proof {
                assert(source@ =~= before.drop_first());
                assert((e.name@, e.pressed_at) == old_view[i as int]);
                assert(old_view.take(i + 1).drop_last() =~= old_view.take(i as int));
                let bv = before.map_values(|e: KeyEntry| (e.name@, e.pressed_at));
                assert forall|j: int| 0 <= j < before.len() - 1 implies #[trigger] source@[j]
                    == before[j + 1] by {}
                assert forall|k: int| 1 <= k < before.len() implies #[trigger] bv[k] == old_view[i
                    + k] by {
                    assert(bv[k] == old_view.skip(i as int)[k]);
                }
                let cur = source@.map_values(|e: KeyEntry| (e.name@, e.pressed_at));
                assert(bv.len() == old_view.skip(i as int).len());
                assert forall|j: int| 0 <= j < cur.len() implies #[trigger] cur[j] == old_view.skip(
                    i + 1,
                )[j] by {
                    assert(source@[j] == before[j + 1]);
                    assert(cur[j] == bv[j + 1]);
                }
                assert(cur =~= old_view.skip(i + 1));
            }
            let shown = if now >= e.pressed_at {
                now - e.pressed_at < DISPLAY_DURATION_NANOS
            } else {
                true
            };
            if shown {
                kept.push_back(e);
                assert(kept@.map_values(|e: KeyEntry| (e.name@, e.pressed_at)) =~= shown_entries(
                    old_view.take(i as int),
                    now,
                ).push(old_view[i as int]));
            }
            i = i + 1;
        }
        proof {
            assert(old_view.take(n as int) =~= old_view);
        }
        kept.push_back(KeyEntry { name, pressed_at: now });
        let ghost pushed = shown_entries(old_view, now).push((name@, now));
        assert(kept@.map_values(|e: KeyEntry| (e.name@, e.pressed_at)) =~= pushed);
        let ghost mut dropped: int = 0;
        while kept.len() > MAX_KEYS
            invariant
                0 <= dropped <= pushed.len(),
                kept@.map_values(|e: KeyEntry| (e.name@, e.pressed_at)) == pushed.skip(dropped),
                dropped > 0 ==> pushed.len() - dropped >= MAX_KEYS,
            decreases kept@.len(),
        {
            let ghost before = kept@;
            proof {
                assert(before.map_values(|e: KeyEntry| (e.name@, e.pressed_at)).len()
                    == before.len());
            }
            let _ = kept.pop_front();
            proof {
                assert(kept@ =~= before.drop_first());
                let bv = before.map_values(|e: KeyEntry| (e.name@, e.pressed_at));
                assert forall|k: int| 1 <= k < before.len() implies #[trigger] bv[k] == pushed[dropped
                    + k] by {
                    assert(bv[k] == pushed.skip(dropped)[k]);
                }
                let cur = kept@.map_values(|e: KeyEntry| (e.name@, e.pressed_at));
                assert(bv.len() == pushed.skip(dropped).len());
                assert forall|j: int| 0 <= j < cur.len() implies #[trigger] cur[j] == pushed.skip(
                    dropped + 1,
                )[j] by {
                    assert(kept@[j] == before[j + 1]);
                    assert(cur[j] == bv[j + 1]);
                }
                assert(cur =~= pushed.skip(dropped + 1));
                dropped = dropped + 1;
            }
        }
        proof {
            if pushed.len() > MAX_KEYS {
                assert(dropped == pushed.len() - MAX_KEYS);
            } else {
                assert(dropped == 0);
                assert(pushed.skip(0) =~= pushed);
            }
        }
        self.entries = kept;
    }

    /// Records a key named `name` pressed now. The press time is the
    /// monotonic clock's reading, taken no earlier than the newest entry's.
    pub fn push(&mut self, name: String)
        ensures
            exists|now: u128|
                final(self).entries_view() == spec_push(old(self).entries_view(), name@, now)
                    && not_before_newest(old(self).entries_view(), now),
            final(self).entries_view().len() <= MAX_KEYS,
            time_ordered(final(self).entries_view()),
    {
        let ghost old_view = self.entries_view();
        let reading = nanos_since(&self.origin);
        self.push_at(name, reading);
        proof {
            let t = press_time(old_view, reading);
            assert(not_before_newest(old_view, t));
            assert(self.entries_view() == spec_push(old_view, name@, t));
        }
    }

    /// Names of the keys still shown at `now`, oldest first.
    pub fn current_keys_at(&self, now: u128) -> (r: Vec<&str>)
        ensures
            r@.map_values(|s: &str| s@) == spec_current_keys(self.entries_view(), now),
            time_ordered(self.entries_view()),
    {
        proof {
            use_type_invariant(self);
        }
        let ghost view = self.entries_view();
        let n = self.entries.len();
        let mut keys: Vec<&str> = Vec::new();
        let mut i: usize = 0;
        proof {
            assert(keys@.map_values(|s: &str| s@) =~= spec_current_keys(view.take(0), now));
        }
        while i < n
            invariant
                n == view.len(),
                view == self.entries_view(),
                i <= n,
                keys@.map_values(|s: &str| s@) == spec_current_keys(view.take(i as int), now),
            decreases n - i,
        {
            let e = &self.entries[i];
            proof {
                assert((e.name@, e.pressed_at) == view[i as int]);
                assert(view.take(i + 1).drop_last() =~= view.take(i as int));
            }
            let shown = if now >= e.pressed_at {
                now - e.pressed_at < DISPLAY_DURATION_NANOS
            } else {
                true
            };
            let ghost prev = keys@;
            proof {
                assert(shown == is_shown(view[i as int].1, now));
                assert(view.take(i + 1).last() == view[i as int]);
            }
            if shown {
                let k = e.name.as_str();
                keys.push(k);
                proof {
                    assert(keys@ == prev.push(k));
                    assert(shown_entries(view.take(i + 1), now) == shown_entries(
                        view.take(i as int),
                        now,
                    ).push(view[i as int]));
                    assert(keys@.map_values(|s: &str| s@) =~= prev.map_values(|s: &str| s@).push(
                        e.name@,
                    ));
                    assert(shown_entries(view.take(i + 1), now).map_values(
                        |e: (Seq<char>, u128)| e.0,
                    ) =~= shown_entries(view.take(i as int), now).map_values(
                        |e: (Seq<char>, u128)| e.0,
                    ).push(view[i as int].0));
                }
            } else {
                proof {
                    assert(shown_entries(view.take(i + 1), now) == shown_entries(
                        view.take(i as int),
                        now,
                    ));
                }
            }
            i = i + 1;
        }
        proof {
            assert(view.take(n as int) =~= view);
        }
        keys
    }

    /// Names of the keys still shown now, oldest first. "Now" is the
    /// monotonic clock's reading, taken no earlier than the newest entry's
    /// press time.
    pub fn current_keys(&self) -> (r: Vec<&str>)
        ensures
            exists|now: u128|
                r@.map_values(|s: &str| s@) == spec_current_keys(self.entries_view(), now)
                    && not_before_newest(self.entries_view(), now),
            time_ordered(self.entries_view()),
    {
        let reading = nanos_since(&self.origin);
        let now = self.clamped(reading);
        let r = self.current_keys_at(now);
        proof {
            assert(not_before_newest(self.entries_view(), now));
        }
        r
    }
}

/// The log never holds more than `MAX_KEYS` keys after a press.
pub proof fn lemma_push_bounded(log: Seq<(Seq<char>, u128)>, name: Seq<char>, now: u128)
    ensures
        spec_push(log, name, now).len() <= MAX_KEYS,
        spec_push(log, name, now).len() >= 1,
        spec_push(log, name, now).last() == (name, now),
{
    lemma_shown_entries_len(log, now);
}

/// A key just pressed is shown, as the newest key, at the time it was
/// pressed; so is every key kept with it.
pub proof fn lemma_pushed_key_shown(log: Seq<(Seq<char>, u128)>, name: Seq<char>, now: u128)
    ensures
        spec_current_keys(spec_push(log, name, now), now).len() == spec_push(log, name, now).len(),
        spec_current_keys(spec_push(log, name, now), now).last() == name,
{
    let kept = shown_entries(log, now).push((name, now));
    lemma_shown_entries_are_shown(log, now);
    lemma_shown_entries_len(log, now);
    let p = spec_push(log, name, now);
    assert forall|i: int| #![trigger p[i]] 0 <= i < p.len() implies is_shown(p[i].1, now) by {
        if kept.len() > MAX_KEYS {
            assert(p[i] == kept[i + kept.len() - MAX_KEYS]);
        } else {
            assert(p[i] == kept[i]);
        }
        let k = if kept.len() > MAX_KEYS { i + kept.len() - MAX_KEYS } else { i };
        if k < kept.len() - 1 {
            assert(kept[k] == shown_entries(log, now)[k]);
        }
    }
    lemma_shown_entries_all_shown(p, now);
}

/// A key pressed more than the display duration ago is not shown.
pub proof fn lemma_old_keys_hidden(log: Seq<(Seq<char>, u128)>, now: u128)
    ensures
        forall|i: int|
            #![trigger shown_entries(log, now)[i]]
            0 <= i < shown_entries(log, now).len() ==> spec_age(shown_entries(log, now)[i].1, now)
                < DISPLAY_DURATION_NANOS,
{
    lemma_shown_entries_are_shown(log, now);
}


/// Virtual-key codes (Win32 `VK_*`) that have a fixed display name.
pub const VK_RETURN: u16 = 0x0D;
pub const VK_BACK: u16 = 0x08;
pub const VK_TAB: u16 = 0x09;
pub const VK_ESCAPE: u16 = 0x1B;
pub const VK_SPACE: u16 = 0x20;
pub const VK_SHIFT: u16 = 0x10;
pub const VK_LSHIFT: u16 = 0xA0;
pub const VK_RSHIFT: u16 = 0xA1;
pub const VK_CONTROL: u16 = 0x11;
pub const VK_LCONTROL: u16 = 0xA2;
pub const VK_RCONTROL: u16 = 0xA3;
pub const VK_MENU: u16 = 0x12;
pub const VK_LMENU: u16 = 0xA4;
pub const VK_RMENU: u16 = 0xA5;
pub const VK_CAPITAL: u16 = 0x14;
pub const VK_LWIN: u16 = 0x5B;
pub const VK_RWIN: u16 = 0x5C;
pub const VK_DELETE: u16 = 0x2E;
pub const VK_INSERT: u16 = 0x2D;
pub const VK_HOME: u16 = 0x24;
pub const VK_END: u16 = 0x23;
pub const VK_PRIOR: u16 = 0x21;
pub const VK_NEXT: u16 = 0x22;
pub const VK_UP: u16 = 0x26;
pub const VK_DOWN: u16 = 0x28;
pub const VK_LEFT: u16 = 0x25;
pub const VK_RIGHT: u16 = 0x27;
pub const VK_F1: u16 = 0x70;
pub const VK_F2: u16 = 0x71;
pub const VK_F3: u16 = 0x72;
pub const VK_F4: u16 = 0x73;
pub const VK_F5: u16 = 0x74;
pub const VK_F6: u16 = 0x75;
pub const VK_F7: u16 = 0x76;
pub const VK_F8: u16 = 0x77;
pub const VK_F9: u16 = 0x78;
pub const VK_F10: u16 = 0x79;
pub const VK_F11: u16 = 0x7A;
pub const VK_F12: u16 = 0x7B;

/// Keyboard hook messages that report a key press.
pub const WM_KEYDOWN: u32 = 0x0100;
pub const WM_SYSKEYDOWN: u32 = 0x0104;

/// Fixed display name of a virtual-key code, if it has one.
pub open spec fn spec_known_key_name(vk: u16) -> Option<Seq<char>> {
    if vk == VK_RETURN {
        Some("Enter"@)
    } else
    if vk == VK_BACK {
        Some("BS"@)
    } else
    if vk == VK_TAB {
        Some("Tab"@)
    } else
    if vk == VK_ESCAPE {
        Some("Esc"@)
    } else
    if vk == VK_SPACE {
        Some("Space"@)
    } else
    if vk == VK_SHIFT || vk == VK_LSHIFT || vk == VK_RSHIFT {
        Some("Shift"@)
    } else
    if vk == VK_CONTROL || vk == VK_LCONTROL || vk == VK_RCONTROL {
        Some("Ctrl"@)
    } else
    if vk == VK_MENU || vk == VK_LMENU || vk == VK_RMENU {
        Some("Alt"@)
    } else
    if vk == VK_CAPITAL {
        Some("Caps"@)
    } else
    if vk == VK_LWIN || vk == VK_RWIN {
        Some("Win"@)
    } else
    if vk == VK_DELETE {
        Some("Del"@)
    } else
    if vk == VK_INSERT {
        Some("Ins"@)
    } else
    if vk == VK_HOME {
        Some("Home"@)
    } else
    if vk == VK_END {
        Some("End"@)
    } else
    if vk == VK_PRIOR {
        Some("PgUp"@)
    } else
    if vk == VK_NEXT {
        Some("PgDn"@)
    } else
    if vk == VK_UP {
        Some("\u{2191}"@)
    } else
    if vk == VK_DOWN {
        Some("\u{2193}"@)
    } else
    if vk == VK_LEFT {
        Some("\u{2190}"@)
    } else
    if vk == VK_RIGHT {
        Some("\u{2192}"@)
    } else
    if vk == VK_F1 {
        Some("F1"@)
    } else
    if vk == VK_F2 {
        Some("F2"@)
    } else
    if vk == VK_F3 {
        Some("F3"@)
    } else
    if vk == VK_F4 {
        Some("F4"@)
    } else
    if vk == VK_F5 {
        Some("F5"@)
    } else
    if vk == VK_F6 {
        Some("F6"@)
    } else
    if vk == VK_F7 {
        Some("F7"@)
    } else
    if vk == VK_F8 {
        Some("F8"@)
    } else
    if vk == VK_F9 {
        Some("F9"@)
    } else
    if vk == VK_F10 {
        Some("F10"@)
    } else
    if vk == VK_F11 {
        Some("F11"@)
    } else
    if vk == VK_F12 {
        Some("F12"@)
    } else {
        None
    }
}

/// The arrow keys are named by their own direction. Their codes run left,
/// up, right, down (0x25 to 0x28), and so do the Unicode arrows that name
/// them: U+2190 to U+2193.
pub proof fn lemma_arrow_key_names(vk: u16)
    requires
        VK_LEFT <= vk <= VK_DOWN,
    ensures
        spec_known_key_name(vk) is Some,
        spec_known_key_name(vk)->0.len() == 1,
        spec_known_key_name(vk)->0[0] as int == 0x2190 + (vk - VK_LEFT),
{
    reveal_strlit("\u{2190}");
    reveal_strlit("\u{2191}");
    reveal_strlit("\u{2192}");
    reveal_strlit("\u{2193}");
    assert('\u{2190}' as int == 0x2190);
    assert('\u{2191}' as int == 0x2191);
    assert('\u{2192}' as int == 0x2192);
    assert('\u{2193}' as int == 0x2193);
}

/// The function keys are named by their number: codes 0x70 to 0x7B are
/// "F1" to "F12", in order.
pub proof fn lemma_function_key_names(vk: u16)
    requires
        VK_F1 <= vk <= VK_F12,
    ensures
        spec_known_key_name(vk) == Some(seq!['F'] + decimal((vk - VK_F1 + 1) as nat)),
{
    reveal_strlit("F1");
    reveal_strlit("F2");
    reveal_strlit("F3");
    reveal_strlit("F4");
    reveal_strlit("F5");
    reveal_strlit("F6");
    reveal_strlit("F7");
    reveal_strlit("F8");
    reveal_strlit("F9");
    reveal_strlit("F10");
    reveal_strlit("F11");
    reveal_strlit("F12");
    reveal_with_fuel(decimal, 2);
    assert(seq!['F'] + decimal(10) =~= "F10"@);
    assert(seq!['F'] + decimal(11) =~= "F11"@);
    assert(seq!['F'] + decimal(12) =~= "F12"@);
}

/// The left and right Shift, Ctrl and Alt keys carry the name of the key
/// they are a side of, and the two Windows keys one name.
pub proof fn lemma_sided_key_names()
    ensures
        spec_known_key_name(VK_LSHIFT) == spec_known_key_name(VK_SHIFT),
        spec_known_key_name(VK_RSHIFT) == spec_known_key_name(VK_SHIFT),
        spec_known_key_name(VK_LCONTROL) == spec_known_key_name(VK_CONTROL),
        spec_known_key_name(VK_RCONTROL) == spec_known_key_name(VK_CONTROL),
        spec_known_key_name(VK_LMENU) == spec_known_key_name(VK_MENU),
        spec_known_key_name(VK_RMENU) == spec_known_key_name(VK_MENU),
        spec_known_key_name(VK_RWIN) == spec_known_key_name(VK_LWIN),
        spec_known_key_name(VK_SHIFT) is Some,
        spec_known_key_name(VK_CONTROL) is Some,
        spec_known_key_name(VK_MENU) is Some,
        spec_known_key_name(VK_LWIN) is Some,
{
}

/// Fixed display name of a virtual-key code, if it has one.
pub fn known_key_name(vk: u16) -> (r: Option<String>)
    ensures
        match r {
            Some(s) => spec_known_key_name(vk) == Some(s@),
            None => spec_known_key_name(vk) is None,
        },
{
    if vk == VK_RETURN {
        Some(String::from_str("Enter"))
    } else
    if vk == VK_BACK {
        Some(String::from_str("BS"))
    } else
    if vk == VK_TAB {
        Some(String::from_str("Tab"))
    } else
    if vk == VK_ESCAPE {
        Some(String::from_str("Esc"))
    } else
    if vk == VK_SPACE {
        Some(String::from_str("Space"))
    } else
    if vk == VK_SHIFT || vk == VK_LSHIFT || vk == VK_RSHIFT {
        Some(String::from_str("Shift"))
    } else
    if vk == VK_CONTROL || vk == VK_LCONTROL || vk == VK_RCONTROL {
        Some(String::from_str("Ctrl"))
    } else
    if vk == VK_MENU || vk == VK_LMENU || vk == VK_RMENU {
        Some(String::from_str("Alt"))
    } else
    if vk == VK_CAPITAL {
        Some(String::from_str("Caps"))
    } else
    if vk == VK_LWIN || vk == VK_RWIN {
        Some(String::from_str("Win"))
    } else
    if vk == VK_DELETE {
        Some(String::from_str("Del"))
    } else
    if vk == VK_INSERT {
        Some(String::from_str("Ins"))
    } else
    if vk == VK_HOME {
        Some(String::from_str("Home"))
    } else
    if vk == VK_END {
        Some(String::from_str("End"))
    } else
    if vk == VK_PRIOR {
        Some(String::from_str("PgUp"))
    } else
    if vk == VK_NEXT {
        Some(String::from_str("PgDn"))
    } else
    if vk == VK_UP {
        Some(String::from_str("\u{2191}"))
    } else
    if vk == VK_DOWN {
        Some(String::from_str("\u{2193}"))
    } else
    if vk == VK_LEFT {
        Some(String::from_str("\u{2190}"))
    } else
    if vk == VK_RIGHT {
        Some(String::from_str("\u{2192}"))
    } else
    if vk == VK_F1 {
        Some(String::from_str("F1"))
    } else
    if vk == VK_F2 {
        Some(String::from_str("F2"))
    } else
    if vk == VK_F3 {
        Some(String::from_str("F3"))
    } else
    if vk == VK_F4 {
        Some(String::from_str("F4"))
    } else
    if vk == VK_F5 {
        Some(String::from_str("F5"))
    } else
    if vk == VK_F6 {
        Some(String::from_str("F6"))
    } else
    if vk == VK_F7 {
        Some(String::from_str("F7"))
    } else
    if vk == VK_F8 {
        Some(String::from_str("F8"))
    } else
    if vk == VK_F9 {
        Some(String::from_str("F9"))
    } else
    if vk == VK_F10 {
        Some(String::from_str("F10"))
    } else
    if vk == VK_F11 {
        Some(String::from_str("F11"))
    } else
    if vk == VK_F12 {
        Some(String::from_str("F12"))
    } else {
        None
    }
}

/// Display name of a key with no fixed name that the system could not
/// name either: `#` and its virtual-key code in decimal.
pub fn unknown_key_name(vk: u16) -> (r: String)
    ensures
        r@ == seq!['#'] + decimal(vk as nat),
{
    let mut s = String::from_str("#");
    proof {
        reveal_strlit("#");
    }
    append_decimal(&mut s, vk as u64);
    s
}

/// Display name of a pressed key: its fixed name if it has one, else the
/// name the system gave for its scan code (`looked_up`), else `#` and its
/// code.
pub fn vk_to_name(vk: u16, looked_up: Option<String>) -> (r: String)
    ensures
        r@ == match spec_known_key_name(vk) {
            Some(n) => n,
            None => match looked_up {
                Some(l) => l@,
                None => seq!['#'] + decimal(vk as nat),
            },
        },
{
    match known_key_name(vk) {
        Some(n) => n,
        None => match looked_up {
            Some(l) => l,
            None => unknown_key_name(vk),
        },
    }
}

/// The `lParam` that asks the system for the name of the key with scan code
/// `scancode`: its low nine bits, shifted to bits 16 to 24.
pub fn key_name_lparam(scancode: u32) -> (r: i32)
    ensures
        r == (scancode % 512) * 65536,
{
    let v = (scancode & 0x1FF) << 16u32;
    assert(v == (scancode % 512) * 65536 && v < 0x2000000) by (bit_vector)
        requires
            v == (scancode & 0x1FF) << 16u32,
    ;
    v as i32
}

/// Whether a low-level keyboard hook call reports a key press.
pub fn is_key_press(n_code: i32, msg: u32) -> (r: bool)
    ensures
        r == (n_code >= 0 && (msg == WM_KEYDOWN || msg == WM_SYSKEYDOWN)),
{
    n_code >= 0 && (msg == WM_KEYDOWN || msg == WM_SYSKEYDOWN)
}

} // verus!
