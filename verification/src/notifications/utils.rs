use vstd::prelude::*;

verus! {

/// Unicode `White_Space`, the property that `str::trim` strips.
pub open spec fn is_white_space(c: char) -> bool {
    let u = c as u32;
    ||| 0x09 <= u <= 0x0d
    ||| u == 0x20
    ||| u == 0x85
    ||| u == 0xa0
    ||| u == 0x1680
    ||| 0x2000 <= u <= 0x200a
    ||| u == 0x2028
    ||| u == 0x2029
    ||| u == 0x202f
    ||| u == 0x205f
    ||| u == 0x3000
}

/// `s` without its leading white space.
pub open spec fn trim_start_ws(s: Seq<char>) -> Seq<char>
    decreases s.len(),
{
    if s.len() > 0 && is_white_space(s[0]) {
        trim_start_ws(s.drop_first())
    } else {
        s
    }
}

/// `s` without its trailing white space.
pub open spec fn trim_end_ws(s: Seq<char>) -> Seq<char>
    decreases s.len(),
{
    if s.len() > 0 && is_white_space(s.last()) {
        trim_end_ws(s.drop_last())
    } else {
        s
    }
}

/// `s` without leading and trailing white space.
pub open spec fn trim_ws(s: Seq<char>) -> Seq<char> {
    trim_end_ws(trim_start_ws(s))
}

/// `s` with every leading repetition of `p` removed.
pub open spec fn strip_prefixes(s: Seq<char>, p: Seq<char>) -> Seq<char>
    decreases s.len(),
{
    if p.len() > 0 && p.is_prefix_of(s) {
        strip_prefixes(s.subrange(p.len() as int, s.len() as int), p)
    } else {
        s
    }
}

/// `s` with every trailing repetition of `p` removed.
pub open spec fn strip_suffixes(s: Seq<char>, p: Seq<char>) -> Seq<char>
    decreases s.len(),
{
    if p.len() > 0 && p.is_suffix_of(s) {
        strip_suffixes(s.subrange(0, s.len() - p.len()), p)
    } else {
        s
    }
}

pub open spec fn word_upper() -> Seq<char> {
    seq!['P', 'e', 'r', 'i', 'o', 'd']
}

pub open spec fn word_lower() -> Seq<char> {
    seq!['p', 'e', 'r', 'i', 'o', 'd']
}

/// The short form of a period name: white space trimmed, the word
/// "Period" or "period" removed from either end, and trimmed again.
pub open spec fn trimmed_period_text(s: Seq<char>) -> Seq<char> {
    let a = trim_ws(s);
    let b = strip_prefixes(strip_prefixes(a, word_upper()), word_lower());
    let c = strip_suffixes(strip_suffixes(b, word_upper()), word_lower());
    trim_ws(c)
}

fn white_space(c: char) -> (r: bool)
    ensures
        r == is_white_space(c),
{
    let u = c as u32;
    (0x09 <= u && u <= 0x0d) || u == 0x20 || u == 0x85 || u == 0xa0 || u == 0x1680 || (0x2000
        <= u && u <= 0x200a) || u == 0x2028 || u == 0x2029 || u == 0x202f || u == 0x205f || u
        == 0x3000
}

fn chars_of(s: &str) -> (v: Vec<char>)
    ensures
        v@ == s@,
{
    let mut v: Vec<char> = Vec::new();
    for c in it: s.chars()
        invariant
            v@ == it.seq().take(it.index() as int),
            it.seq() == s@,
    {
        v.push(c);
    }
    v
}

/// Narrows the window `[lo, hi)` of `v` past its leading white space.
fn skip_leading_ws(v: &Vec<char>, lo: usize, hi: usize) -> (r: usize)
    requires
        lo <= hi <= v@.len(),
    ensures
        lo <= r <= hi,
        v@.subrange(r as int, hi as int) == trim_start_ws(v@.subrange(lo as int, hi as int)),
    decreases hi - lo,
{
    if lo < hi && white_space(v[lo]) {
        assert(v@.subrange(lo as int, hi as int).drop_first() =~= v@.subrange(
            lo + 1,
            hi as int,
        ));
        skip_leading_ws(v, lo + 1, hi)
    } else {
        lo
    }
}

/// Narrows the window `[lo, hi)` of `v` before its trailing white space.
fn skip_trailing_ws(v: &Vec<char>, lo: usize, hi: usize) -> (r: usize)
    requires
        lo <= hi <= v@.len(),
    ensures
        lo <= r <= hi,
        v@.subrange(lo as int, r as int) == trim_end_ws(v@.subrange(lo as int, hi as int)),
    decreases hi - lo,
{
    if lo < hi && white_space(v[hi - 1]) {
        assert(v@.subrange(lo as int, hi as int).drop_last() =~= v@.subrange(
            lo as int,
            hi - 1,
        ));
        skip_trailing_ws(v, lo, hi - 1)
    } else {
        lo + (hi - lo)
    }
}

/// Whether `p` occurs in `v` at position `at`.
fn occurs_at(v: &Vec<char>, at: usize, p: &Vec<char>) -> (r: bool)
    requires
        at + p@.len() <= v@.len(),
    ensures
        r == (v@.subrange(at as int, at + p@.len()) == p@),
{
    let mut i: usize = 0;
    let n = v.len();
    while i < p.len()
        invariant
            i <= p@.len(),
            n == v@.len(),
            at + p@.len() <= v@.len(),
            forall|j: int| 0 <= j < i ==> v@[at + j] == p@[j],
        decreases p@.len() - i,
    {
        if v[at + i] != p[i] {
            assert(v@.subrange(at as int, at + p@.len())[i as int] != p@[i as int]);
            return false;
        }
        i = i + 1;
    }
    assert(v@.subrange(at as int, at + p@.len()) =~= p@);
    true
}

fn skip_prefixes(v: &Vec<char>, lo: usize, hi: usize, p: &Vec<char>) -> (r: usize)
    requires
        lo <= hi <= v@.len(),
    ensures
        lo <= r <= hi,
        v@.subrange(r as int, hi as int) == strip_prefixes(v@.subrange(lo as int, hi as int), p@),
    decreases hi - lo,
{
    let ghost w = v@.subrange(lo as int, hi as int);
    if p.len() > 0 && p.len() <= hi - lo && occurs_at(v, lo, p) {
        assert(w.subrange(0, p@.len() as int) =~= v@.subrange(lo as int, lo + p@.len()));
        assert(p@.is_prefix_of(w));
        assert(w.subrange(p@.len() as int, w.len() as int) =~= v@.subrange(
            lo + p@.len(),
            hi as int,
        ));
        skip_prefixes(v, lo + p.len(), hi, p)
    } else {
        proof {
            if p@.len() > 0 && p@.is_prefix_of(w) {
                assert(v@.subrange(lo as int, lo + p@.len()) =~= w.subrange(0, p@.len() as int));
            }
        }
        lo
    }
}

fn skip_suffixes(v: &Vec<char>, lo: usize, hi: usize, p: &Vec<char>) -> (r: usize)
    requires
        lo <= hi <= v@.len(),
    ensures
        lo <= r <= hi,
        v@.subrange(lo as int, r as int) == strip_suffixes(v@.subrange(lo as int, hi as int), p@),
    decreases hi - lo,
{
    let ghost w = v@.subrange(lo as int, hi as int);
    if p.len() > 0 && p.len() <= hi - lo && occurs_at(v, hi - p.len(), p) {
        assert(w.subrange(w.len() - p@.len(), w.len() as int) =~= v@.subrange(
            hi - p@.len(),
            hi as int,
        ));
        assert(p@.is_suffix_of(w));
        assert(w.subrange(0, w.len() - p@.len()) =~= v@.subrange(lo as int, hi - p@.len()));
        skip_suffixes(v, lo, hi - p.len(), p)
    } else {
        proof {
            if p@.len() > 0 && p@.is_suffix_of(w) {
                assert(v@.subrange(hi - p@.len(), hi as int) =~= w.subrange(
                    w.len() - p@.len(),
                    w.len() as int,
                ));
            }
        }
        hi
    }
}

/// The short form of a period name, as shown in a notification: "Period 3 "
/// becomes "3".
pub fn trim_period_text(period_name: &str) -> (r: &str)
    ensures
        r@ == trimmed_period_text(period_name@),
{
    let v = chars_of(period_name);
    let upper = chars_of("Period");
    let lower = chars_of("period");
    proof {
        reveal_strlit("Period");
        reveal_strlit("period");
        assert(upper@ =~= word_upper());
        assert(lower@ =~= word_lower());
    }
    let n = v.len();
    let lo = skip_leading_ws(&v, 0, n);
    let hi = skip_trailing_ws(&v, lo, n);
    assert(v@.subrange(0, n as int) =~= v@);
    let lo = skip_prefixes(&v, lo, hi, &upper);
    let lo = skip_prefixes(&v, lo, hi, &lower);
    let hi = skip_suffixes(&v, lo, hi, &upper);
    let hi = skip_suffixes(&v, lo, hi, &lower);
    let lo = skip_leading_ws(&v, lo, hi);
    let hi = skip_trailing_ws(&v, lo, hi);
    period_name.substring_char(lo, hi)
}

proof fn lemma_trim_start(s: Seq<char>)
    ensures
        trim_start_ws(s).len() == 0 || !is_white_space(trim_start_ws(s)[0]),
    decreases s.len(),
{
    if s.len() > 0 && is_white_space(s[0]) {
        lemma_trim_start(s.drop_first());
    }
}

proof fn lemma_trim_end(s: Seq<char>)
    ensures
        trim_end_ws(s).len() <= s.len(),
        trim_end_ws(s) == s.take(trim_end_ws(s).len() as int),
        trim_end_ws(s).len() == 0 || !is_white_space(trim_end_ws(s).last()),
    decreases s.len(),
{
    if s.len() > 0 && is_white_space(s.last()) {
        lemma_trim_end(s.drop_last());
        assert(s.drop_last().take(trim_end_ws(s).len() as int) =~= s.take(
            trim_end_ws(s).len() as int,
        ));
    } else {
        assert(s.take(s.len() as int) =~= s);
    }
}

/// The short form of a period name neither starts nor ends with white
/// space.
pub proof fn lemma_trimmed_text_has_no_outer_space(s: Seq<char>)
    ensures
        trimmed_period_text(s).len() > 0 ==> !is_white_space(trimmed_period_text(s)[0])
            && !is_white_space(trimmed_period_text(s).last()),
{
    let a = trim_ws(s);
    let b = strip_prefixes(strip_prefixes(a, word_upper()), word_lower());
    let c = strip_suffixes(strip_suffixes(b, word_upper()), word_lower());
    lemma_trim_start(c);
    lemma_trim_end(trim_start_ws(c));
    let t = trim_end_ws(trim_start_ws(c));
    if t.len() > 0 {
        assert(t[0] == trim_start_ws(c)[0]);
    }
}

/// A value with a written form, as `Display` would give it.
pub trait TextForm {
    /// The written form.
    spec fn text(&self) -> Seq<char>;

    /// Writes the value out.
    fn to_text(&self) -> (s: String)
        ensures
            s@ == self.text(),
    ;
}

/// The written form of a list of three or more, "a, b, and c": each item but
/// the last followed by ", ", the last preceded by "and ".
pub open spec fn serial_text(items: Seq<Seq<char>>) -> Seq<char>
    decreases items.len(),
{
    if items.len() == 0 {
        seq![]
    } else if items.len() == 1 {
        "and "@ + items[0]
    } else {
        items[0] + ", "@ + serial_text(items.drop_first())
    }
}

/// An English enumeration: "", "a", "a and b", "a, b, and c".
pub open spec fn english_text(items: Seq<Seq<char>>) -> Seq<char> {
    if items.len() == 0 {
        seq![]
    } else if items.len() == 1 {
        items[0]
    } else if items.len() == 2 {
        items[0] + " and "@ + items[1]
    } else {
        serial_text(items)
    }
}

/// A list written the English way.
#[derive(Debug, Clone, PartialEq, Eq)]
pub struct EnglishList<T: TextForm>(pub Vec<T>);

impl<T: TextForm> EnglishList<T> {
    /// The written forms of the items, in order.
    pub open spec fn item_texts(&self) -> Seq<Seq<char>> {
        self.0@.map_values(|x: T| x.text())
    }

    /// Writes the list out.
    pub fn to_string(&self) -> (s: String)
        ensures
            s@ == english_text(self.item_texts()),
    {
        let n = self.0.len();
        let ghost items = self.item_texts();
        if n == 0 {
            return String::new();
        }
        if n == 1 {
            return self.0[0].to_text();
        }
        if n == 2 {
            let mut s = self.0[0].to_text();
            s.append(" and ");
            let t = self.0[1].to_text();
            s.append(t.as_str());
            return s;
        }
        let mut s = String::new();
        let mut i: usize = 0;
        assert(items.skip(0) =~= items);
        while i < n
            invariant
                n == self.0@.len(),
                n >= 3,
                i <= n,
                items == self.item_texts(),
                s@ + serial_text(items.skip(i as int)) == serial_text(items),
            decreases n - i,
        {
            let t = self.0[i].to_text();
            assert(items.skip(i as int)[0] == items[i as int]);
            if i == n - 1 {
                assert(items.skip(i as int).len() == 1);
                s.append("and ");
                s.append(t.as_str());
                assert(items.skip((i + 1) as int).len() == 0);
            } else {
                assert(items.skip(i as int).drop_first() =~= items.skip((i + 1) as int));
                s.append(t.as_str());
                s.append(", ");
            }
            assert(s@ + serial_text(items.skip((i + 1) as int)) =~= serial_text(items));
            i = i + 1;
        }
        assert(serial_text(items.skip(n as int)) =~= seq![]);
        assert(s@ =~= serial_text(items));
        s
    }
}

/// One entry of a period list: a lone period, or a stretch of consecutive
/// periods written by its first and last.
#[derive(Debug, Clone, PartialEq, Eq)]
pub enum PeriodGroup {
    SinglePeriod(String),
    PeriodRange { start: String, end: String },
}

/// What a [`PeriodGroup`] holds, as text.
pub enum PeriodGroupView {
    SinglePeriod(Seq<char>),
    PeriodRange { start: Seq<char>, end: Seq<char> },
}

impl View for PeriodGroup {
    type V = PeriodGroupView;

    open spec fn view(&self) -> PeriodGroupView {
        match self {
            PeriodGroup::SinglePeriod(p) => PeriodGroupView::SinglePeriod(p@),
            PeriodGroup::PeriodRange { start, end } => PeriodGroupView::PeriodRange {
                start: start@,
                end: end@,
            },
        }
    }
}

/// "3" for a lone period, "1-3" for a stretch.
pub open spec fn group_text(g: PeriodGroupView) -> Seq<char> {
    match g {
        PeriodGroupView::SinglePeriod(p) => p,
        PeriodGroupView::PeriodRange { start, end } => start + "-"@ + end,
    }
}

impl TextForm for PeriodGroup {
    open spec fn text(&self) -> Seq<char> {
        group_text(self@)
    }

    fn to_text(&self) -> (s: String) {
        match self {
            PeriodGroup::SinglePeriod(p) => p.clone(),
            PeriodGroup::PeriodRange { start, end } => {
                let mut s = start.clone();
                s.append("-");
                s.append(end.as_str());
                s
            },
        }
    }
}

/// The maximal stretches `[start, end)` of consecutive `true` flags, in order.
pub open spec fn runs_of(flags: Seq<bool>) -> Seq<(int, int)>
    decreases flags.len(),
{
    if flags.len() == 0 {
        seq![]
    } else {
        let r = runs_of(flags.drop_last());
        let i = flags.len() - 1;
        if !flags[i] {
            r
        } else if i > 0 && flags[i - 1] {
            r.update(r.len() - 1, (r.last().0, i + 1))
        } else {
            r.push((i, i + 1))
        }
    }
}

/// Names of the periods handed to [`PeriodList::new`].
pub open spec fn names_of(periods: Seq<(&str, bool)>) -> Seq<Seq<char>> {
    periods.map_values(|p: (&str, bool)| p.0@)
}

/// Which of the periods handed to [`PeriodList::new`] are included.
pub open spec fn flags_of(periods: Seq<(&str, bool)>) -> Seq<bool> {
    periods.map_values(|p: (&str, bool)| p.1)
}

/// The group written for the stretch `run` of periods named `names`.
pub open spec fn group_of(names: Seq<Seq<char>>, run: (int, int)) -> PeriodGroupView {
    if run.1 - run.0 == 1 {
        PeriodGroupView::SinglePeriod(trimmed_period_text(names[run.0]))
    } else {
        PeriodGroupView::PeriodRange {
            start: trimmed_period_text(names[run.0]),
            end: trimmed_period_text(names[run.1 - 1]),
        }
    }
}

/// The groups of a period list built from `periods`.
pub open spec fn groups_for(periods: Seq<(&str, bool)>) -> Seq<PeriodGroupView> {
    groups_of_runs(names_of(periods), runs_of(flags_of(periods)))
}

/// The periods a teacher misses, written as "1, 3-5, and 7".
#[derive(Debug, Clone, PartialEq, Eq)]
pub struct PeriodList(pub EnglishList<PeriodGroup>);

impl View for PeriodList {
    type V = Seq<PeriodGroupView>;

    open spec fn view(&self) -> Seq<PeriodGroupView> {
        views_of(self.0.0@)
    }
}

/// The written form of a list of groups.
pub open spec fn groups_text(groups: Seq<PeriodGroupView>) -> Seq<char> {
    english_text(groups.map_values(|g: PeriodGroupView| group_text(g)))
}

/// The views of a sequence of groups.
pub open spec fn views_of(gs: Seq<PeriodGroup>) -> Seq<PeriodGroupView> {
    gs.map_values(|g: PeriodGroup| g@)
}

/// The groups written for the stretches `runs` of periods named `names`.
pub open spec fn groups_of_runs(names: Seq<Seq<char>>, runs: Seq<(int, int)>) -> Seq<PeriodGroupView> {
    runs.map_values(|r: (int, int)| group_of(names, r))
}

fn make_group(periods: &[(&str, bool)], start: usize, end: usize) -> (g: PeriodGroup)
    requires
        start < end <= periods@.len(),
    ensures
        g@ == group_of(names_of(periods@), (start as int, end as int)),
{
    let first = trim_period_text(periods[start].0).to_owned();
    if end - start == 1 {
        PeriodGroup::SinglePeriod(first)
    } else {
        let last = trim_period_text(periods[end - 1].0).to_owned();
        PeriodGroup::PeriodRange { start: first, end: last }
    }
}

impl PeriodList {
    /// Groups the included periods into stretches of consecutive periods.
    /// Each pair is a period's name and whether it is included.
    pub fn new(periods: &[(&str, bool)]) -> (r: Self)
        ensures
            r@ == groups_for(periods@),
    {
        let ghost flags = flags_of(periods@);
        let ghost names = names_of(periods@);
        let n = periods.len();
        let mut groups: Vec<PeriodGroup> = Vec::new();
        let mut start: usize = 0;
        let mut open = false;
        let ghost mut done: Seq<(int, int)> = seq![];
        let mut idx: usize = 0;
        assert(flags.take(0) =~= seq![]);
        while idx < n
            invariant
                n == periods@.len(),
                flags == flags_of(periods@),
                names == names_of(periods@),
                idx <= n,
                open == (idx > 0 && flags[idx - 1]),
                open ==> start < idx,
                open ==> runs_of(flags.take(idx as int)) == done.push((start as int, idx as int)),
                !open ==> runs_of(flags.take(idx as int)) == done,
                views_of(groups@) == groups_of_runs(names, done),
            decreases n - idx,
        {
            let included = periods[idx].1;
            assert(flags.take(idx + 1).drop_last() =~= flags.take(idx as int));
            assert(flags.take(idx + 1).last() == flags[idx as int]);
            if included {
                if open {
                    assert(done.push((start as int, idx as int)).update(
                        done.len() as int,
                        (start as int, idx + 1),
                    ) =~= done.push((start as int, idx + 1)));
                } else {
                    start = idx;
                    open = true;
                }
            } else if open {
                let g = make_group(periods, start, idx);
                let ghost old_groups = groups@;
                groups.push(g);
                proof {
                    let old_done = done;
                    done = done.push((start as int, idx as int));
                    assert(views_of(groups@) =~= views_of(old_groups).push(g@));
                    assert(groups_of_runs(names, done) =~= groups_of_runs(names, old_done).push(
                        group_of(names, (start as int, idx as int)),
                    ));
                }
                open = false;
            }
            idx = idx + 1;
        }
        if open {
            let g = make_group(periods, start, n);
            let ghost old_groups = groups@;
            groups.push(g);
            proof {
                let old_done = done;
                done = done.push((start as int, n as int));
                assert(views_of(groups@) =~= views_of(old_groups).push(g@));
                assert(groups_of_runs(names, done) =~= groups_of_runs(names, old_done).push(
                    group_of(names, (start as int, n as int)),
                ));
            }
        }
        assert(flags.take(n as int) =~= flags);
        let r = PeriodList(EnglishList(groups));
        assert(r@ =~= groups_for(periods@));
        r
    }

    /// The list as written in a notification, such as "1, 3-5, and 7".
    pub fn to_string(&self) -> (s: String)
        ensures
            s@ == groups_text(self@),
    {
        let s = self.0.to_string();
        assert(self.0.item_texts() =~= self@.map_values(|g: PeriodGroupView| group_text(g)));
        s
    }
}

/// `runs` lists, in order, the maximal stretches `[start, end)` of
/// consecutive `true` flags: each stretch is non-empty and all `true`, is
/// bounded by `false` flags or the ends, the stretches come in order
/// without touching, and every `true` flag lies in one of them.
pub open spec fn maximal_runs(flags: Seq<bool>, runs: Seq<(int, int)>) -> bool {
    &&& forall|k: int| 0 <= k < runs.len() ==> 0 <= #[trigger] runs[k].0 < runs[k].1 <= flags.len()
    &&& forall|k: int, i: int|
        0 <= k < runs.len() && #[trigger] runs[k].0 <= i < runs[k].1 ==> #[trigger] flags[i]
    &&& forall|k: int|
        0 <= k < runs.len() ==> #[trigger] runs[k].0 == 0 || !flags[runs[k].0 - 1]
    &&& forall|k: int|
        0 <= k < runs.len() ==> #[trigger] runs[k].1 == flags.len() || !flags[runs[k].1]
    &&& forall|k: int, l: int| 0 <= k < l < runs.len() ==> #[trigger] runs[k].1 < #[trigger] runs[l].0
    &&& forall|i: int|
        0 <= i < flags.len() && #[trigger] flags[i] ==> exists|k: int|
            0 <= k < runs.len() && #[trigger] runs[k].0 <= i < runs[k].1
}

/// The groups of a period list are the maximal stretches of consecutive
/// included periods: each included period lies in exactly one group, no
/// excluded period lies in any, and a group is a lone period exactly when
/// its stretch holds one period.
pub proof fn lemma_groups_are_maximal_runs(flags: Seq<bool>)
    ensures
        maximal_runs(flags, runs_of(flags)),
    decreases flags.len(),
{
    if flags.len() > 0 {
        let g = flags.drop_last();
        let n = flags.len() - 1;
        lemma_groups_are_maximal_runs(g);
        let r = runs_of(g);
        assert forall|i: int| 0 <= i < n implies flags[i] == g[i] by {}
        if !flags[n] {
            assert(runs_of(flags) == r);
            assert forall|k: int| 0 <= k < r.len() implies #[trigger] r[k].1 == flags.len()
                || !flags[r[k].1] by {
                assert(r[k].0 < r[k].1 <= n);
                if r[k].1 != n {
                    assert(!g[r[k].1]);
                    assert(flags[r[k].1] == g[r[k].1]);
                }
            }
            assert forall|i: int| 0 <= i < flags.len() && #[trigger] flags[i] implies exists|k: int|
                0 <= k < r.len() && #[trigger] r[k].0 <= i < r[k].1 by {
                assert(g[i]);
            }
        } else if n > 0 && flags[n - 1] {
            assert(g[n - 1]);
            let k0 = choose|k: int| 0 <= k < r.len() && #[trigger] r[k].0 <= n - 1 < r[k].1;
            if k0 < r.len() - 1 {
                assert(r[k0].1 < r[r.len() - 1].0);
            }
            assert(k0 == r.len() - 1);
            let last = r.len() - 1;
            let r2 = r.update(last, (r[last].0, n + 1));
            assert(runs_of(flags) == r2);
            assert forall|k: int, i: int|
                0 <= k < r2.len() && #[trigger] r2[k].0 <= i < r2[k].1 implies #[trigger] flags[i] by {
                if k < last || i < n {
                    if k == last {
                        assert(r[last].0 <= i < r[last].1);
                    }
                    assert(g[i]);
                }
            }
            assert forall|k: int| 0 <= k < r2.len() implies #[trigger] r2[k].0 == 0 || !flags[r2[k].0 - 1] by {
                assert(r2[k].0 == r[k].0);
                if r[k].0 != 0 {
                    assert(!g[r[k].0 - 1]);
                }
            }
            assert forall|k: int| 0 <= k < r2.len() implies #[trigger] r2[k].1 == flags.len() || !flags[r2[k].1] by {
                if k < last {
                    assert(0 <= r[k].0 < r[k].1 <= n);
                    assert(0 <= r[last].0 < r[last].1 <= n);
                    assert(r[k].1 < r[last].0);
                    assert(!g[r[k].1]);
                    assert(flags[r[k].1] == g[r[k].1]);
                }
            }
            assert forall|k: int, l: int| 0 <= k < l < r2.len() implies #[trigger] r2[k].1 < #[trigger] r2[l].0 by {
                assert(r[k].1 < r[l].0);
            }
            assert forall|i: int| 0 <= i < flags.len() && #[trigger] flags[i] implies exists|k: int|
                0 <= k < r2.len() && #[trigger] r2[k].0 <= i < r2[k].1 by {
                if i == n {
                    assert(r2[last].0 <= i < r2[last].1);
                } else {
                    assert(g[i]);
                    let k = choose|k: int| 0 <= k < r.len() && #[trigger] r[k].0 <= i < r[k].1;
                    assert(r2[k].0 <= i < r2[k].1);
                }
            }
        } else {
            let r2 = r.push((n, n + 1));
            assert(runs_of(flags) == r2);
            assert forall|k: int| 0 <= k < r.len() implies #[trigger] r[k].1 < n by {
                if r[k].1 == n {
                    assert(g[n - 1]);
                }
            }
            assert forall|k: int, i: int|
                0 <= k < r2.len() && #[trigger] r2[k].0 <= i < r2[k].1 implies #[trigger] flags[i] by {
                if k < r.len() {
                    assert(g[i]);
                }
            }
            assert forall|k: int| 0 <= k < r2.len() implies #[trigger] r2[k].0 == 0 || !flags[r2[k].0 - 1] by {
                if k < r.len() && r[k].0 != 0 {
                    assert(!g[r[k].0 - 1]);
                }
            }
            assert forall|k: int| 0 <= k < r2.len() implies #[trigger] r2[k].1 == flags.len() || !flags[r2[k].1] by {
                if k < r.len() {
                    assert(0 <= r[k].0 < r[k].1 <= n);
                    assert(r[k].1 < n);
                    assert(!g[r[k].1]);
                    assert(flags[r[k].1] == g[r[k].1]);
                }
            }
            assert forall|k: int, l: int| 0 <= k < l < r2.len() implies #[trigger] r2[k].1 < #[trigger] r2[l].0 by {
                if l < r.len() {
                    assert(r[k].1 < r[l].0);
                }
            }
            assert forall|i: int| 0 <= i < flags.len() && #[trigger] flags[i] implies exists|k: int|
                0 <= k < r2.len() && #[trigger] r2[k].0 <= i < r2[k].1 by {
                if i == n {
                    assert(r2[r.len() as int].0 <= i < r2[r.len() as int].1);
                } else {
                    assert(g[i]);
                    let k = choose|k: int| 0 <= k < r.len() && #[trigger] r[k].0 <= i < r[k].1;
                    assert(r2[k].0 <= i < r2[k].1);
                }
            }
        }
    }
}

/// Group `g` names the stretch `run` of periods named `names`: a lone
/// period by its short name, a longer stretch by the short names of its
/// first and last period.
pub open spec fn names_stretch(g: PeriodGroupView, names: Seq<Seq<char>>, run: (int, int)) -> bool {
    if run.1 - run.0 == 1 {
        g == PeriodGroupView::SinglePeriod(trimmed_period_text(names[run.0]))
    } else {
        g == (PeriodGroupView::PeriodRange {
            start: trimmed_period_text(names[run.0]),
            end: trimmed_period_text(names[run.1 - 1]),
        })
    }
}

/// `g` lists, one group per stretch and in order, the maximal stretches of
/// consecutive periods whose flag is set.
pub open spec fn lists_periods(
    g: Seq<PeriodGroupView>,
    names: Seq<Seq<char>>,
    flags: Seq<bool>,
) -> bool {
    exists|runs: Seq<(int, int)>|
        {
            &&& #[trigger] maximal_runs(flags, runs)
            &&& g.len() == runs.len()
            &&& forall|k: int| 0 <= k < runs.len() ==> names_stretch(#[trigger] g[k], names, runs[k])
        }
}

/// The groups written for the stretches of set flags list exactly those
/// stretches, each by its first and last period.
pub proof fn lemma_groups_list_periods(names: Seq<Seq<char>>, flags: Seq<bool>)
    ensures
        lists_periods(groups_of_runs(names, runs_of(flags)), names, flags),
{
    lemma_groups_are_maximal_runs(flags);
    let runs = runs_of(flags);
    let g = groups_of_runs(names, runs);
    assert forall|k: int| 0 <= k < runs.len() implies names_stretch(#[trigger] g[k], names, runs[k]) by {
        assert(g[k] == group_of(names, runs[k]));
    }
    assert(maximal_runs(flags, runs) && g.len() == runs.len());
}

/// A period list built from `(name, included)` pairs lists the maximal
/// stretches of consecutive included periods, each group naming a lone
/// period, or the first and last period of a longer stretch.
pub proof fn lemma_period_list_groups(periods: Seq<(&str, bool)>)
    ensures
        lists_periods(
            groups_for(periods),
            Seq::new(periods.len(), |j: int| periods[j].0@),
            Seq::new(periods.len(), |j: int| periods[j].1),
        ),
{
    assert(names_of(periods) =~= Seq::new(periods.len(), |j: int| periods[j].0@));
    assert(flags_of(periods) =~= Seq::new(periods.len(), |j: int| periods[j].1));
    lemma_groups_list_periods(names_of(periods), flags_of(periods));
}

} // verus!
