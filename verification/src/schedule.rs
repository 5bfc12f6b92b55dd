//! Periods of the school day and their times.
//!
//! A time of day is held as an `i64` order key: the key that
//! `f64::total_cmp` orders seconds-since-midnight values by (the bits of the
//! `f64`, with all but the sign bit flipped when the sign bit is set). Keys
//! order exactly as `total_cmp` orders the times. [`comparable`] maps a key to
//! one by which, for a time `x` that is not NaN and any time `t`,
//! `comparable(x) > comparable(t)` and `comparable(t) <= comparable(x)` hold
//! exactly when `x > t` and `t <= x` hold for the `f64` values.
use vstd::prelude::*;

verus! {

/// Key of positive infinity; keys above it are NaNs with the sign bit clear.
pub const POS_INF_KEY: i64 = 0x7ff0_0000_0000_0000;

/// Key of negative infinity; keys below it are NaNs with the sign bit set.
pub const NEG_INF_KEY: i64 = -0x7ff0_0000_0000_0001;

/// The key every NaN compares as: above every other time.
pub const NAN_KEY: i64 = 0x7ff0_0000_0000_0001;

/// Key of negative zero.
pub const NEG_ZERO_KEY: i64 = -1;

/// Key of 60 seconds after midnight, the end of the day when no period is
/// scheduled.
pub const FALLBACK_DAY_END_KEY: i64 = 0x404e_0000_0000_0000;

/// The key used to compare a time with one that is not NaN: both zeros are
/// one value, and every NaN is above every other time, so that a NaN time
/// is never at or before, nor passed by, a time that is not NaN.
pub open spec fn comparable(k: i64) -> i64 {
    if k > POS_INF_KEY || k < NEG_INF_KEY {
        NAN_KEY
    } else if k == NEG_ZERO_KEY {
        0
    } else {
        k
    }
}

fn comparable_key(k: i64) -> (r: i64)
    ensures
        r == comparable(k),
{
    if k > POS_INF_KEY || k < NEG_INF_KEY {
        NAN_KEY
    } else if k == NEG_ZERO_KEY {
        0
    } else {
        k
    }
}

/// A teacher who is absent in a period.
#[derive(Debug, Clone)]
pub struct AbsentTeacher {
    pub id: u128,
    pub name: String,
}

/// A period of the school day: its id, its name, its start and end (as
/// order keys), and the teachers absent in it.
#[derive(Debug, Clone)]
pub struct PeriodInfo {
    pub id: u128,
    pub name: String,
    pub start: i64,
    pub end: i64,
    pub teachers_absent: Vec<AbsentTeacher>,
}

/// Where a period starting at `key` goes into `s`: after the last period
/// that starts no later.
pub open spec fn insertion_point(s: Seq<PeriodInfo>, key: i64) -> int
    decreases s.len(),
{
    if s.len() == 0 {
        0
    } else if s.last().start <= key {
        s.len() as int
    } else {
        insertion_point(s.drop_last(), key)
    }
}

/// `s` sorted by start, periods that start together kept in their order.
pub open spec fn sorted_by_start(s: Seq<PeriodInfo>) -> Seq<PeriodInfo>
    decreases s.len(),
{
    if s.len() == 0 {
        s
    } else {
        let r = sorted_by_start(s.drop_last());
        r.insert(insertion_point(r, s.last().start), s.last())
    }
}

proof fn lemma_insertion_point(s: Seq<PeriodInfo>, key: i64)
    ensures
        0 <= insertion_point(s, key) <= s.len(),
    decreases s.len(),
{
    if s.len() > 0 {
        lemma_insertion_point(s.drop_last(), key);
    }
}

fn find_insertion_point(s: &Vec<PeriodInfo>, key: i64) -> (r: usize)
    ensures
        r == insertion_point(s@, key),
{
    let mut i = s.len();
    assert(s@.take(i as int) =~= s@);
    while i > 0
        invariant
            i <= s@.len(),
            insertion_point(s@, key) == insertion_point(s@.take(i as int), key),
        decreases i,
    {
        assert(s@.take(i as int).last() == s@[i - 1]);
        if s[i - 1].start <= key {
            return i;
        }
        assert(s@.take(i as int).drop_last() =~= s@.take(i - 1));
        i = i - 1;
    }
    i
}

/// Sorts periods by start time; periods that start together keep their
/// order (as `sort_by` with `total_cmp` does).
pub fn sort_by_start(periods: Vec<PeriodInfo>) -> (r: Vec<PeriodInfo>)
    ensures
        r@ == sorted_by_start(periods@),
{
    let ghost all = periods@;
    let mut rest = periods;
    let mut out: Vec<PeriodInfo> = Vec::new();
    assert(all.take(0) =~= seq![]);
    assert(all.skip(0) =~= all);
    while rest.len() > 0
        invariant
            rest@.len() <= all.len(),
            rest@ == all.skip(all.len() - rest@.len()),
            out@ == sorted_by_start(all.take(all.len() - rest@.len())),
        decreases rest@.len(),
    {
        let ghost k = all.len() - rest@.len();
        assert(rest@[0] == all[k]);
        let p = rest.remove(0);
        assert(rest@ =~= all.skip(k + 1));
        assert(all.take(k + 1).drop_last() =~= all.take(k));
        assert(all.take(k + 1).last() == p);
        proof {
            lemma_insertion_point(out@, p.start);
        }
        let pos = find_insertion_point(&out, p.start);
        out.insert(pos, p);
    }
    assert(all.take(all.len() as int) =~= all);
    out
}

/// The periods of `s` come in order of start.
pub open spec fn starts_sorted(s: Seq<PeriodInfo>) -> bool {
    forall|i: int, j: int| 0 <= i <= j < s.len() ==> #[trigger] s[i].start <= #[trigger] s[j].start
}

proof fn lemma_insertion_point_sorted(s: Seq<PeriodInfo>, key: i64)
    requires
        starts_sorted(s),
    ensures
        forall|j: int| 0 <= j < insertion_point(s, key) ==> #[trigger] s[j].start <= key,
        forall|j: int| insertion_point(s, key) <= j < s.len() ==> #[trigger] s[j].start > key,
    decreases s.len(),
{
    lemma_insertion_point(s, key);
    if s.len() > 0 {
        if s.last().start <= key {
            assert forall|j: int| 0 <= j < insertion_point(s, key) implies #[trigger] s[j].start
                <= key by {
                assert(s[j].start <= s[s.len() - 1].start);
            }
        } else {
            let d = s.drop_last();
            assert(starts_sorted(d)) by {
                assert forall|i: int, j: int| 0 <= i <= j < d.len() implies #[trigger] d[i].start
                    <= #[trigger] d[j].start by {
                    assert(s[i].start <= s[j].start);
                }
            }
            lemma_insertion_point_sorted(d, key);
            lemma_insertion_point(d, key);
            assert forall|j: int| 0 <= j < insertion_point(s, key) implies #[trigger] s[j].start
                <= key by {
                assert(s[j] == d[j]);
            }
            assert forall|j: int| insertion_point(s, key) <= j < s.len() implies #[trigger] s[j].start
                > key by {
                if j < d.len() {
                    assert(s[j] == d[j]);
                }
            }
        }
    }
}

/// Sorting by start gives the same periods, in order of start.
pub proof fn lemma_sort_by_start_sorts(s: Seq<PeriodInfo>)
    ensures
        starts_sorted(sorted_by_start(s)),
        sorted_by_start(s).to_multiset() == s.to_multiset(),
    decreases s.len(),
{
    broadcast use vstd::seq_lib::to_multiset_build, vstd::seq_lib::to_multiset_insert;

    if s.len() == 0 {
    } else {
        let r = sorted_by_start(s.drop_last());
        lemma_sort_by_start_sorts(s.drop_last());
        let p = s.last();
        let ip = insertion_point(r, p.start);
        lemma_insertion_point(r, p.start);
        lemma_insertion_point_sorted(r, p.start);
        let t = r.insert(ip, p);
        r.insert_ensures(ip, p);
        assert(sorted_by_start(s) == t);
        assert forall|i: int, j: int| 0 <= i <= j < t.len() implies #[trigger] t[i].start
            <= #[trigger] t[j].start by {
            if j < ip {
                assert(r[i].start <= r[j].start);
            } else if j == ip {
                if i < ip {
                    assert(t[i] == r[i]);
                }
            } else {
                assert(t[j] == r[j - 1]);
                if i < ip {
                    assert(t[i] == r[i]);
                    assert(r[i].start <= r[j - 1].start);
                } else if i > ip {
                    assert(t[i] == r[i - 1]);
                    assert(r[i - 1].start <= r[j - 1].start);
                }
            }
        }
        assert(s.drop_last().push(p) =~= s);
    }
}

/// Sorting periods that already come in order of start changes nothing:
/// periods that start together keep their order.
pub proof fn lemma_sort_by_start_keeps_sorted(s: Seq<PeriodInfo>)
    requires
        starts_sorted(s),
    ensures
        sorted_by_start(s) == s,
    decreases s.len(),
{
    if s.len() > 0 {
        let d = s.drop_last();
        assert(starts_sorted(d)) by {
            assert forall|i: int, j: int| 0 <= i <= j < d.len() implies #[trigger] d[i].start
                <= #[trigger] d[j].start by {
                assert(s[i].start <= s[j].start);
            }
        }
        lemma_sort_by_start_keeps_sorted(d);
        if d.len() > 0 {
            assert(d.last().start <= s.last().start);
        }
        assert(d.insert(d.len() as int, s.last()) =~= s);
    }
}

/// Index of the period that ends last, the later one among equals.
pub open spec fn last_max_end(s: Seq<PeriodInfo>) -> int
    decreases s.len(),
{
    if s.len() <= 1 {
        0
    } else {
        let m = last_max_end(s.drop_last());
        if s.last().end >= s[m].end {
            s.len() - 1
        } else {
            m
        }
    }
}

/// Key of the end of the school day: the end of the period that ends last,
/// or one minute after midnight when there is none.
pub open spec fn day_end(s: Seq<PeriodInfo>) -> i64 {
    if s.len() == 0 {
        FALLBACK_DAY_END_KEY
    } else {
        s[last_max_end(s)].end
    }
}

/// Index of the period that starts last among those whose lookahead start
/// (in `opens`) is at or before `now`, the later one among equals; -1 if
/// there is none.
pub open spec fn latest_open(s: Seq<PeriodInfo>, opens: Seq<i64>, now: i64) -> int
    decreases s.len(),
{
    if s.len() == 0 {
        -1
    } else {
        let r = latest_open(s.drop_last(), opens.drop_last(), now);
        let i = s.len() - 1;
        if comparable(opens[i]) <= comparable(now) {
            if r < 0 || s[i].start >= s[r].start {
                i
            } else {
                r
            }
        } else {
            r
        }
    }
}

/// Index of the current period at `now`, or -1: none once the day is over,
/// else the latest period that has opened.
pub open spec fn current_period_index(s: Seq<PeriodInfo>, opens: Seq<i64>, now: i64) -> int {
    if comparable(now) > comparable(day_end(s)) {
        -1
    } else {
        latest_open(s, opens, now)
    }
}

proof fn lemma_last_max_end(s: Seq<PeriodInfo>)
    ensures
        s.len() > 0 ==> 0 <= last_max_end(s) < s.len(),
    decreases s.len(),
{
    if s.len() > 1 {
        lemma_last_max_end(s.drop_last());
    }
}

proof fn lemma_latest_open(s: Seq<PeriodInfo>, opens: Seq<i64>, now: i64)
    ensures
        -1 <= latest_open(s, opens, now) < s.len(),
    decreases s.len(),
{
    if s.len() > 0 {
        lemma_latest_open(s.drop_last(), opens.drop_last(), now);
    }
}

/// The end of the day is the latest end of a period.
pub proof fn lemma_day_end_is_latest(s: Seq<PeriodInfo>)
    ensures
        s.len() > 0 ==> exists|i: int| 0 <= i < s.len() && s[i].end == day_end(s),
        forall|j: int| 0 <= j < s.len() ==> #[trigger] s[j].end <= day_end(s),
    decreases s.len(),
{
    lemma_last_max_end(s);
    if s.len() > 1 {
        let d = s.drop_last();
        lemma_day_end_is_latest(d);
        lemma_last_max_end(d);
        assert forall|j: int| 0 <= j < s.len() implies #[trigger] s[j].end <= day_end(s) by {
            if j < d.len() {
                assert(s[j] == d[j]);
            }
        }
    }
    if s.len() > 0 {
        assert(s[last_max_end(s)].end == day_end(s));
    }
}

/// The period picked among those that have opened is one that has opened,
/// none that has opened starts later, and any listed after it starts
/// earlier; when none has opened, none is picked.
pub proof fn lemma_latest_open_is_latest(s: Seq<PeriodInfo>, opens: Seq<i64>, now: i64)
    requires
        opens.len() == s.len(),
    ensures
        ({
            let i = latest_open(s, opens, now);
            &&& i >= 0 ==> comparable(opens[i]) <= comparable(now)
            &&& i >= 0 ==> forall|j: int|
                0 <= j < s.len() && comparable(#[trigger] opens[j]) <= comparable(now) ==> s[j].start
                    <= s[i].start && (j > i ==> s[j].start < s[i].start)
            &&& i < 0 ==> forall|j: int|
                0 <= j < s.len() ==> comparable(#[trigger] opens[j]) > comparable(now)
        }),
    decreases s.len(),
{
    lemma_latest_open(s, opens, now);
    if s.len() > 0 {
        let d = s.drop_last();
        let e = opens.drop_last();
        lemma_latest_open_is_latest(d, e, now);
        lemma_latest_open(d, e, now);
        let r = latest_open(d, e, now);
        let i = latest_open(s, opens, now);
        assert forall|j: int| 0 <= j < d.len() implies #[trigger] opens[j] == e[j] && s[j] == d[j] by {}
        if i >= 0 && r >= 0 {
            assert(comparable(opens[r]) <= comparable(now));
        }
    }
}

/// The period under way at `now`: `None` after the end of the day, else the
/// latest-starting period whose lookahead start is at or before `now`.
/// `opens[i]` is the key of the start of `periods[i]` less the lookahead.
pub fn current_period(periods: Vec<PeriodInfo>, opens: &Vec<i64>, now: i64) -> (r: Option<
    PeriodInfo,
>)
    requires
        opens@.len() == periods@.len(),
    ensures
        current_period_index(periods@, opens@, now) < 0 ==> r is None,
        current_period_index(periods@, opens@, now) >= 0 ==> r == Some(
            periods@[current_period_index(periods@, opens@, now)],
        ),
{
    let n = periods.len();
    let ghost s = periods@;
    // The end of the day.
    let mut end_key = FALLBACK_DAY_END_KEY;
    let mut m: usize = 0;
    let mut i: usize = 0;
    while i < n
        invariant
            n == s.len(),
            s == periods@,
            i <= n,
            i > 0 ==> m < i && m == last_max_end(s.take(i as int)) && end_key == s[m as int].end,
            i == 0 ==> end_key == FALLBACK_DAY_END_KEY,
        decreases n - i,
    {
        assert(s.take(i + 1).drop_last() =~= s.take(i as int));
        if i == 0 || periods[i].end >= end_key {
            m = i;
            end_key = periods[i].end;
        }
        i = i + 1;
    }
    assert(s.take(n as int) =~= s);
    let now_c = comparable_key(now);
    if now_c > comparable_key(end_key) {
        return None;
    }
    // The latest period that has opened.
    let mut best: Option<usize> = None;
    let mut j: usize = 0;
    while j < n
        invariant
            n == s.len(),
            s == periods@,
            opens@.len() == n,
            j <= n,
            now_c == comparable(now),
            best matches Some(b) ==> b < j && b == latest_open(
                s.take(j as int),
                opens@.take(j as int),
                now,
            ),
            best is None ==> latest_open(s.take(j as int), opens@.take(j as int), now) < 0,
        decreases n - j,
    {
        assert(s.take(j + 1).drop_last() =~= s.take(j as int));
        assert(opens@.take(j + 1).drop_last() =~= opens@.take(j as int));
        if comparable_key(opens[j]) <= now_c {
            match best {
                None => {
                    best = Some(j);
                },
                Some(b) => {
                    if periods[j].start >= periods[b].start {
                        best = Some(j);
                    }
                },
            }
        }
        j = j + 1;
    }
    assert(opens@.take(n as int) =~= opens@);
    match best {
        None => None,
        Some(b) => {
            let mut periods = periods;
            Some(periods.swap_remove(b))
        },
    }
}

} // verus!
