//! The durable aggregate: an insertion-ordered sequence of completed-session
//! records, and the statistics derived from it — totals, per-day and per-week
//! counts, and the streak of consecutive active days.
//!
//! A record holds the local calendar date of the completed work phase as a
//! day number (see `clock`) together with the mode's display label.

use vstd::prelude::*;
use crate::clock;
use crate::text;
use crate::timer::{mode_label, PomodoroMode};

verus! {

/// One completed pomodoro: the local calendar date it finished on, as a day
/// number, and the display label of the mode it was run under.
#[derive(Debug, Clone)]
pub struct PomodoroRecord {
    pub day: u64,
    pub mode: String,
}

/// What a record is mathematically: its day number and its label.
pub ghost struct RecordView {
    pub day: int,
    pub mode: Seq<char>,
}

impl View for PomodoroRecord {
    type V = RecordView;

    open spec fn view(&self) -> RecordView {
        RecordView { day: self.day as int, mode: self.mode@ }
    }
}

/// How many records fall on day `d`.
pub open spec fn count_on_day(s: Seq<RecordView>, d: int) -> nat
    decreases s.len(),
{
    if s.len() == 0 {
        0
    } else {
        count_on_day(s.drop_last(), d) + if s.last().day == d { 1nat } else { 0nat }
    }
}

/// How many records fall on a day in `lo..=hi`.
pub open spec fn count_in_range(s: Seq<RecordView>, lo: int, hi: int) -> nat
    decreases s.len(),
{
    if s.len() == 0 {
        0
    } else {
        count_in_range(s.drop_last(), lo, hi)
            + if lo <= s.last().day <= hi { 1nat } else { 0nat }
    }
}

/// How many records carry `needle` somewhere in their label.
pub open spec fn count_with_label(s: Seq<RecordView>, needle: Seq<char>) -> nat
    decreases s.len(),
{
    if s.len() == 0 {
        0
    } else {
        count_with_label(s.drop_last(), needle)
            + if text::has_substring(s.last().mode, needle) { 1nat } else { 0nat }
    }
}

/// Some record falls on day `d`.
pub open spec fn day_present(s: Seq<RecordView>, d: int) -> bool {
    exists|i: int| 0 <= i < s.len() && s[i].day == d
}

/// The most recent day with a record; meaningful only for a non-empty
/// sequence (the empty one yields -1, below every day number).
pub open spec fn max_day(s: Seq<RecordView>) -> int
    decreases s.len(),
{
    if s.len() == 0 {
        -1
    } else if s.last().day >= max_day(s.drop_last()) {
        s.last().day
    } else {
        max_day(s.drop_last())
    }
}

/// The Monday of the week `today` lies in. Day 1 (January 1 of year 1) was
/// a Monday, so a day number's offset from its Monday is `(d - 1) % 7`,
/// written here without subtraction so it is defined for every day.
pub open spec fn week_start(today: int) -> int {
    today - ((today + 6) % 7)
}

/// What the streak statistic promises for history `s`, day `t` and
/// result `r`: zero when there are no records or the most recent record
/// is older than the day before `t`; otherwise `r` is the length of the
/// unbroken run of recorded days ending at `t` itself when `t` has
/// records, else at the day before.
pub open spec fn streak_spec(s: Seq<RecordView>, t: int, r: int) -> bool {
    if s.len() == 0 {
        r == 0
    } else if max_day(s) != t && max_day(s) != t - 1 {
        r == 0
    } else {
        let anchor = if day_present(s, t) { t } else { t - 1 };
        &&& 1 <= r
        &&& forall|j: int| 0 <= j < r ==> #[trigger] day_present(s, anchor - j)
        &&& !day_present(s, anchor - r)
    }
}

/// The full history of completed pomodoros, in insertion order. Derived
/// statistics that depend on the current date take the date as an explicit
/// day number in the `..._on` form; the parameterless form reads the clock
/// and delegates.
#[derive(Debug)]
pub struct Analytics {
    pub records: Vec<PomodoroRecord>,
}

impl View for Analytics {
    type V = Seq<RecordView>;

    open spec fn view(&self) -> Seq<RecordView> {
        self.records@.map_values(|r: PomodoroRecord| r@)
    }
}

impl Default for Analytics {
    /// An empty history.
    fn default() -> (a: Analytics)
        ensures
            a@ =~= Seq::<RecordView>::empty(),
    {
        Analytics { records: Vec::new() }
    }
}

/// Every recorded day number is non-negative, since records store days as
/// unsigned numbers.
proof fn lemma_days_nonneg(a: &Analytics)
    ensures
        forall|i: int| 0 <= i < a@.len() ==> #[trigger] a@[i].day >= 0,
{
    assert forall|i: int| 0 <= i < a@.len() implies #[trigger] a@[i].day >= 0 by {
        assert(a@[i] == a.records@[i]@);
    }
}

/// A run of `k` distinct consecutive days, each with at least one record,
/// needs at least `k` records.
proof fn lemma_run_needs_records(s: Seq<RecordView>, anchor: int, k: int)
    requires
        0 <= k,
        forall|j: int| 0 <= j < k ==> #[trigger] day_present(s, anchor - j),
    ensures
        k <= s.len(),
    decreases k,
{
    if k > 0 {
        assert(day_present(s, anchor - 0));
        let i = choose|i: int| 0 <= i < s.len() && s[i].day == anchor;
        let s2 = s.remove(i);
        assert forall|j: int| 0 <= j < k - 1 implies #[trigger] day_present(s2, (anchor - 1) - j) by {
            assert(day_present(s, anchor - (j + 1)));
            let w = choose|w: int| 0 <= w < s.len() && s[w].day == anchor - (j + 1);
            if w < i {
                assert(s2[w] == s[w]);
            } else {
                assert(w > i);
                assert(s2[w - 1] == s[w]);
            }
        }
        lemma_run_needs_records(s2, anchor - 1, k - 1);
    }
}

/// An empty history yields zero for every count, has no day present, and
/// admits only a zero streak.
pub proof fn lemma_empty_aggregate(d: int, lo: int, hi: int, needle: Seq<char>, t: int, r: int)
    ensures
        count_on_day(Seq::<RecordView>::empty(), d) == 0,
        count_in_range(Seq::<RecordView>::empty(), lo, hi) == 0,
        count_with_label(Seq::<RecordView>::empty(), needle) == 0,
        !day_present(Seq::<RecordView>::empty(), d),
        streak_spec(Seq::<RecordView>::empty(), t, r) <==> r == 0,
{
}

impl Analytics {
    /// Append a record for `day` under `mode`'s label.
    pub fn add_record_with_timestamp(&mut self, day: u64, mode: PomodoroMode)
        ensures
            final(self)@ =~= old(self)@.push(RecordView { day: day as int, mode: mode_label(mode) }),
    {
        let record = PomodoroRecord { day, mode: mode.name().to_owned() };
        self.records.push(record);
    }

    /// Record a pomodoro completed now: a record stamped with the current
    /// local date under `mode`'s label is appended. Which day the clock
    /// yields is not promised, only that a single such record is added.
    pub fn record_pomodoro(&mut self, mode: PomodoroMode)
        ensures
            exists|d: u64| 1 <= d && final(self)@ =~= old(self)@.push(
                RecordView { day: d as int, mode: mode_label(mode) },
            ),
    {
        let day = clock::today_day_number();
        self.add_record_with_timestamp(day, mode);
        proof {
            assert(1 <= day && self@ =~= old(self)@.push(
                RecordView { day: day as int, mode: mode_label(mode) },
            ));
        }
    }

    /// Drop the whole history.
    pub fn clear(&mut self)
        ensures
            final(self)@ =~= Seq::<RecordView>::empty(),
    {
        self.records.clear();
    }

    /// How many pomodoros were ever recorded.
    pub fn total_count(&self) -> (c: usize)
        ensures
            c == self@.len(),
    {
        self.records.len()
    }

    /// Whether some record falls on day `d`.
    pub fn has_day(&self, d: u64) -> (b: bool)
        ensures
            b == day_present(self@, d as int),
    {
        let n = self.records.len();
        let mut i: usize = 0;
        while i < n
            invariant
                0 <= i <= n,
                n == self.records.len(),
                forall|k: int| 0 <= k < i ==> self@[k].day != d,
            decreases n - i,
        {
            if self.records[i].day == d {
                proof {
                    assert(self@[i as int].day == d);
                }
                return true;
            }
            i = i + 1;
        }
        false
    }

    /// How many records fall on the given day.
    pub fn today_count_on(&self, today: u64) -> (c: usize)
        ensures
            c == count_on_day(self@, today as int),
    {
        let n = self.records.len();
        let mut c: usize = 0;
        let mut i: usize = 0;
        while i < n
            invariant
                0 <= i <= n,
                n == self.records.len(),
                c <= i,
                c == count_on_day(self@.take(i as int), today as int),
            decreases n - i,
        {
            proof {
                assert(self@.take(i + 1).drop_last() =~= self@.take(i as int));
                assert(self@.take(i + 1).last() == self@[i as int]);
            }
            if self.records[i].day == today {
                c = c + 1;
            }
            i = i + 1;
        }
        proof {
            assert(self@.take(n as int) =~= self@);
        }
        c
    }

    /// How many records fall on the current local date.
    pub fn today_count(&self) -> (c: usize)
        ensures
            exists|today: u64| 1 <= today && c == count_on_day(self@, today as int),
    {
        let today = clock::today_day_number();
        self.today_count_on(today)
    }

    /// How many records fall in the week of the given day: from the most
    /// recent Monday at or before it, through the day itself.
    pub fn week_count_on(&self, today: u64) -> (c: usize)
        requires
            1 <= today,
        ensures
            c == count_in_range(self@, week_start(today as int), today as int),
    {
        let offset = (today % 7 + 6) % 7;
        proof {
            vstd::arithmetic::div_mod::lemma_add_mod_noop(today as int, 6, 7);
            vstd::arithmetic::div_mod::lemma_mod_add_multiples_vanish(today - 1, 7);
            vstd::arithmetic::div_mod::lemma_mod_decreases((today - 1) as nat, 7);
            assert(offset == (today as int + 6) % 7);
            assert(offset <= today - 1);
        }
        let start = today - offset;
        let n = self.records.len();
        let mut c: usize = 0;
        let mut i: usize = 0;
        while i < n
            invariant
                0 <= i <= n,
                n == self.records.len(),
                c <= i,
                start == week_start(today as int),
                c == count_in_range(self@.take(i as int), start as int, today as int),
            decreases n - i,
        {
            proof {
                assert(self@.take(i + 1).drop_last() =~= self@.take(i as int));
                assert(self@.take(i + 1).last() == self@[i as int]);
            }
            let day = self.records[i].day;
            if start <= day && day <= today {
                c = c + 1;
            }
            i = i + 1;
        }
        proof {
            assert(self@.take(n as int) =~= self@);
        }
        c
    }

    /// How many records fall in the current week, Monday through today.
    pub fn week_count(&self) -> (c: usize)
        ensures
            exists|today: u64|
                1 <= today && c == count_in_range(
                    self@,
                    week_start(today as int),
                    today as int,
                ),
    {
        let today = clock::today_day_number();
        self.week_count_on(today)
    }

    /// The most recent recorded day; `None` when there are no records.
    fn max_recorded_day(&self) -> (m: Option<u64>)
        ensures
            self@.len() == 0 <==> m is None,
            m matches Some(v) ==> v as int == max_day(self@) && day_present(self@, v as int),
    {
        let n = self.records.len();
        if n == 0 {
            return None;
        }
        let mut m: u64 = self.records[0].day;
        let mut i: usize = 1;
        proof {
            assert(self@[0] == self.records@[0]@);
            assert(self@[0].day == m as int);
            assert(self@.take(1).drop_last() =~= Seq::<RecordView>::empty());
            assert(self@.take(1).last() == self@[0]);
            assert(self@.take(1).len() == 1);
            assert(max_day(Seq::<RecordView>::empty()) == -1);
            assert(m as int == max_day(self@.take(1)));
        }
        while i < n
            invariant
                1 <= i <= n,
                n == self.records.len(),
                m as int == max_day(self@.take(i as int)),
                day_present(self@, m as int),
            decreases n - i,
        {
            proof {
                assert(self@.take(i + 1).drop_last() =~= self@.take(i as int));
                assert(self@.take(i + 1).last() == self@[i as int]);
            }
            let day = self.records[i].day;
            if day > m {
                m = day;
                proof {
                    assert(self@[i as int].day == day);
                }
            }
            i = i + 1;
        }
        proof {
            assert(self@.take(n as int) =~= self@);
        }
        Some(m)
    }

    /// The streak of consecutive calendar days with at least one recorded
    /// pomodoro, as seen from the given day: zero unless the most recent
    /// recorded day is `today` or the day before; otherwise the length of
    /// the unbroken run of recorded days ending at whichever of those two
    /// has records.
    pub fn current_streak_on(&self, today: u64) -> (r: usize)
        requires
            1 <= today,
        ensures
            streak_spec(self@, today as int, r as int),
    {
        let m = match self.max_recorded_day() {
            None => {
                return 0;
            },
            Some(m) => m,
        };
        if m != today && m != today - 1 {
            return 0;
        }
        let anchor: u64 = if self.has_day(today) {
            today
        } else {
            today - 1
        };
        proof {
            assert(day_present(self@, anchor as int));
        }
        let ghost s = self@;
        let n = self.records.len();
        let mut streak: usize = 0;
        let mut current: u64 = anchor;
        loop
            invariant_except_break
                current as int == anchor - streak,
            invariant
                day_present(s, anchor as int),
                s == self@,
                n == self.records@.len(),
                streak <= n,
                forall|j: int| 0 <= j < streak ==> #[trigger] day_present(s, anchor - j),
            ensures
                forall|j: int| 0 <= j < streak ==> #[trigger] day_present(s, anchor - j),
                !day_present(s, anchor - streak),
            decreases current,
        {
            if !self.has_day(current) {
                break;
            }
            proof {
                assert forall|j: int| 0 <= j < streak + 1 implies #[trigger] day_present(
                    s,
                    anchor - j,
                ) by {
                    if j == streak {
                        assert(day_present(s, current as int));
                    }
                }
                lemma_run_needs_records(s, anchor as int, streak + 1);
            }
            streak = streak + 1;
            if current == 0 {
                proof {
                    lemma_days_nonneg(self);
                    assert(anchor - streak == -1);
                    if day_present(s, -1) {
                        let w = choose|w: int| 0 <= w < s.len() && s[w].day == -1;
                        assert(s[w].day >= 0);
                    }
                }
                break;
            }
            current = current - 1;
        }
        streak
    }

    /// The streak of consecutive recorded days ending at the current local
    /// date or the day before.
    pub fn current_streak(&self) -> (r: usize)
        ensures
            exists|today: u64| 1 <= today && streak_spec(self@, today as int, r as int),
    {
        let today = clock::today_day_number();
        self.current_streak_on(today)
    }

    /// How many records carry the given text in their mode label.
    fn label_count(&self, needle: &str) -> (c: usize)
        ensures
            c == count_with_label(self@, needle@),
    {
        let n = self.records.len();
        let mut c: usize = 0;
        let mut i: usize = 0;
        while i < n
            invariant
                0 <= i <= n,
                n == self.records.len(),
                c <= i,
                c == count_with_label(self@.take(i as int), needle@),
            decreases n - i,
        {
            proof {
                assert(self@.take(i + 1).drop_last() =~= self@.take(i as int));
                assert(self@.take(i + 1).last() == self@[i as int]);
            }
            if text::str_contains(self.records[i].mode.as_str(), needle) {
                c = c + 1;
            }
            i = i + 1;
        }
        proof {
            assert(self@.take(n as int) =~= self@);
        }
        c
    }

    /// How many records were run under the short mode, by its label.
    pub fn short_mode_count(&self) -> (c: usize)
        ensures
            c == count_with_label(self@, "Short"@),
    {
        self.label_count("Short")
    }

    /// How many records were run under the long mode, by its label.
    pub fn long_mode_count(&self) -> (c: usize)
        ensures
            c == count_with_label(self@, "Long"@),
    {
        self.label_count("Long")
    }
}

} // verus!
