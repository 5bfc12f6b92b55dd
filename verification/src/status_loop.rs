//! Who is absent, and what the notifier does as the school day goes on.
use vstd::prelude::*;

use crate::id_map::{
    IdMap, assoc_insert, has_key, key_pos, lemma_assoc_insert, lemma_assoc_insert_map,
    lemma_assoc_insert_value, lemma_key_pos, map_vals, unique_keys, value_of,
};
use crate::ids::{uuid_string, uuid_text};
use crate::notifications::payload::{NotificationDetails, NotificationDetailsView, Topic};
use crate::notifications::utils::{
    PeriodGroupView, PeriodList, flags_of, groups_of_runs, lemma_groups_list_periods,
    lists_periods, names_of, runs_of,
};
use crate::notifications::{NotificationType, NotificationTypeView};
use crate::schedule::{AbsentTeacher, PeriodInfo};

verus! {

/// A period a teacher is absent for, as the teacher's record lists it.
#[derive(Debug, Clone, Copy)]
pub struct AbsencePeriod {
    pub id: u128,
    pub start: i64,
    pub end: i64,
}

/// A teacher as the school's records list them.
#[derive(Debug, Clone)]
pub struct TeacherRecord {
    pub id: u128,
    pub name: String,
    pub fully_absent: bool,
    pub absence: Vec<AbsencePeriod>,
}

/// Whether a teacher is away today, and for which periods.
#[derive(Debug, Clone)]
pub enum Absence {
    FullyAbsent,
    /// Absent for the periods with these ids; their order carries no meaning.
    PartiallyAbsent { periods: Vec<u128> },
    Present,
}

/// An [`Absence`], with the periods as a set.
pub enum AbsenceView {
    FullyAbsent,
    PartiallyAbsent { periods: Set<u128> },
    Present,
}

impl View for Absence {
    type V = AbsenceView;

    open spec fn view(&self) -> AbsenceView {
        match self {
            Absence::FullyAbsent => AbsenceView::FullyAbsent,
            Absence::PartiallyAbsent { periods } => AbsenceView::PartiallyAbsent {
                periods: periods@.to_set(),
            },
            Absence::Present => AbsenceView::Present,
        }
    }
}

fn contains_id(ids: &Vec<u128>, id: u128) -> (r: bool)
    ensures
        r == ids@.contains(id),
{
    let n = ids.len();
    let mut i: usize = 0;
    while i < n
        invariant
            n == ids@.len(),
            i <= n,
            forall|j: int| 0 <= j < i ==> ids@[j] != id,
        decreases n - i,
    {
        if ids[i] == id {
            assert(ids@[i as int] == id);
            return true;
        }
        i = i + 1;
    }
    false
}

fn all_in(a: &Vec<u128>, b: &Vec<u128>) -> (r: bool)
    ensures
        r == (forall|x: u128| a@.contains(x) ==> b@.contains(x)),
{
    let n = a.len();
    let mut i: usize = 0;
    while i < n
        invariant
            n == a@.len(),
            i <= n,
            forall|j: int| 0 <= j < i ==> b@.contains(a@[j]),
        decreases n - i,
    {
        if !contains_id(b, a[i]) {
            assert(a@.contains(a@[i as int]));
            return false;
        }
        i = i + 1;
    }
    true
}

impl Absence {
    /// Whether two absences are the same: the same kind, and for a partial
    /// absence the same set of periods.
    pub fn same_as(&self, other: &Absence) -> (r: bool)
        ensures
            r == (self@ == other@),
    {
        match (self, other) {
            (Absence::FullyAbsent, Absence::FullyAbsent) => true,
            (Absence::Present, Absence::Present) => true,
            (Absence::PartiallyAbsent { periods: a }, Absence::PartiallyAbsent { periods: b }) => {
                let r = all_in(a, b) && all_in(b, a);
                proof {
                    if r {
                        assert(a@.to_set() =~= b@.to_set());
                    } else if a@.to_set() == b@.to_set() {
                        assert forall|x: u128| a@.contains(x) implies b@.contains(x) by {
                            assert(a@.to_set().contains(x));
                        }
                        assert forall|x: u128| b@.contains(x) implies a@.contains(x) by {
                            assert(b@.to_set().contains(x));
                        }
                    }
                }
                r
            },
            _ => false,
        }
    }
}

/// What the notifier knows of a teacher.
#[derive(Debug, Clone)]
pub struct TeacherState {
    pub name: String,
    pub absence: Absence,
    pub periods: Vec<AbsencePeriod>,
}

/// A [`TeacherState`], as text and sets.
pub struct TeacherStateView {
    pub name: Seq<char>,
    pub absence: AbsenceView,
    pub periods: Seq<AbsencePeriod>,
}

impl View for TeacherState {
    type V = TeacherStateView;

    open spec fn view(&self) -> TeacherStateView {
        TeacherStateView { name: self.name@, absence: self.absence@, periods: self.periods@ }
    }
}

/// The teachers, keyed by id.
pub type TeacherMap = IdMap<TeacherState>;

/// The entries of a teacher map, as views.
pub open spec fn teacher_views(s: Seq<(u128, TeacherState)>) -> Seq<(u128, TeacherStateView)> {
    map_vals(s, |t: TeacherState| t@)
}

/// The absence a teacher's record describes: a full absence if flagged,
/// presence if no period is listed, else absence for the listed periods.
pub open spec fn absence_of(r: TeacherRecord) -> AbsenceView {
    if r.fully_absent {
        AbsenceView::FullyAbsent
    } else if r.absence@.len() == 0 {
        AbsenceView::Present
    } else {
        AbsenceView::PartiallyAbsent {
            periods: r.absence@.map_values(|p: AbsencePeriod| p.id).to_set(),
        }
    }
}

/// What the notifier knows of the teacher of record `r`.
pub open spec fn state_of(r: TeacherRecord) -> TeacherStateView {
    TeacherStateView { name: r.name@, absence: absence_of(r), periods: r.absence@ }
}

/// The teachers of `records`, keyed by id; of two records with one id, the
/// later one counts.
pub open spec fn teacher_states_of(records: Seq<TeacherRecord>) -> Seq<(u128, TeacherStateView)>
    decreases records.len(),
{
    if records.len() == 0 {
        seq![]
    } else {
        let r = records.last();
        assoc_insert(teacher_states_of(records.drop_last()), r.id, state_of(r))
    }
}

fn state_from_record(r: TeacherRecord) -> (res: (u128, TeacherState))
    ensures
        res.0 == r.id,
        res.1@ == state_of(r),
{
    let TeacherRecord { id, name, fully_absent, absence } = r;
    let state = if fully_absent {
        Absence::FullyAbsent
    } else if absence.len() == 0 {
        Absence::Present
    } else {
        let mut ids: Vec<u128> = Vec::new();
        let n = absence.len();
        let mut i: usize = 0;
        while i < n
            invariant
                n == absence@.len(),
                i <= n,
                ids@ == absence@.take(i as int).map_values(|p: AbsencePeriod| p.id),
            decreases n - i,
        {
            ids.push(absence[i].id);
            assert(ids@ =~= absence@.take(i + 1).map_values(|p: AbsencePeriod| p.id));
            i = i + 1;
        }
        assert(absence@.take(n as int) =~= absence@);
        Absence::PartiallyAbsent { periods: ids }
    };
    (id, TeacherState { name, absence: state, periods: absence })
}

/// The teachers of the school's records, keyed by id.
pub fn teacher_states(records: Vec<TeacherRecord>) -> (m: TeacherMap)
    ensures
        teacher_views(m.entries()) == teacher_states_of(records@),
{
    let ghost all = records@;
    let mut rest = records;
    let mut m: TeacherMap = IdMap::new();
    assert(all.take(0) =~= seq![]);
    assert(teacher_views(m.entries()) =~= seq![]);
    while rest.len() > 0
        invariant
            rest@.len() <= all.len(),
            rest@ == all.skip(all.len() - rest@.len()),
            teacher_views(m.entries()) == teacher_states_of(all.take(all.len() - rest@.len())),
        decreases rest@.len(),
    {
        let ghost k = all.len() - rest@.len();
        assert(rest@[0] == all[k]);
        let r = rest.remove(0);
        assert(rest@ =~= all.skip(k + 1));
        assert(all.take(k + 1).drop_last() =~= all.take(k));
        assert(all.take(k + 1).last() == r);
        let ghost rec = r;
        let (id, state) = state_from_record(r);
        proof {
            lemma_assoc_insert_map(m.entries(), id, state, |t: TeacherState| t@);
        }
        m.insert(id, state);
        assert(teacher_views(m.entries()) == teacher_states_of(all.take(k + 1)));
    }
    assert(all.take(all.len() as int) =~= all);
    m
}

/// Each teacher of the records is known once: a teacher is known exactly
/// when some record has their id, and is known as the last such record
/// describes them.
pub proof fn lemma_teacher_states(records: Seq<TeacherRecord>)
    ensures
        unique_keys(teacher_states_of(records)),
        forall|k: u128|
            #[trigger] has_key(teacher_states_of(records), k) <==> exists|i: int|
                0 <= i < records.len() && records[i].id == k,
        forall|i: int|
            0 <= i < records.len() && (forall|j: int| i < j < records.len() ==> records[j].id
                != records[i].id) ==> #[trigger] value_of(
                teacher_states_of(records),
                records[i].id,
            ) == state_of(records[i]),
    decreases records.len(),
{
    if records.len() > 0 {
        let d = records.drop_last();
        lemma_teacher_states(d);
        let r = teacher_states_of(d);
        let last = records.last();
        lemma_assoc_insert(r, last.id, state_of(last));
        lemma_assoc_insert_value(r, last.id, state_of(last));
        let res = teacher_states_of(records);
        assert forall|k: u128| #[trigger] has_key(res, k) <==> exists|i: int|
            0 <= i < records.len() && records[i].id == k by {
            if has_key(r, k) {
                let i = choose|i: int| 0 <= i < d.len() && d[i].id == k;
                assert(records[i] == d[i]);
            }
            if exists|i: int| 0 <= i < records.len() && records[i].id == k {
                let i = choose|i: int| 0 <= i < records.len() && records[i].id == k;
                if i < d.len() {
                    assert(d[i] == records[i]);
                }
            }
        }
        assert forall|i: int|
            0 <= i < records.len() && (forall|j: int| i < j < records.len() ==> records[j].id
                != records[i].id) implies #[trigger] value_of(res, records[i].id) == state_of(
            records[i],
        ) by {
            if i < d.len() {
                assert(d[i] == records[i]);
                assert forall|j: int| i < j < d.len() implies d[j].id != d[i].id by {
                    assert(d[j] == records[j]);
                }
                assert(has_key(r, records[i].id));
            }
        }
    }
}

/// A teacher's absence is what their last record says: fully absent when
/// flagged so, present when no period is listed, and otherwise absent for
/// exactly the periods listed.
pub proof fn lemma_teacher_absence(records: Seq<TeacherRecord>, i: int)
    requires
        0 <= i < records.len(),
        forall|j: int| i < j < records.len() ==> records[j].id != records[i].id,
    ensures
        ({
            let r = records[i];
            let a = value_of(teacher_states_of(records), r.id).absence;
            &&& value_of(teacher_states_of(records), r.id).name == r.name@
            &&& r.fully_absent ==> a is FullyAbsent
            &&& !r.fully_absent && r.absence@.len() == 0 ==> a is Present
            &&& !r.fully_absent && r.absence@.len() > 0 ==> (a matches AbsenceView::PartiallyAbsent {
                periods,
            } && forall|x: u128|
                periods.contains(x) <==> exists|j: int| 0 <= j < r.absence@.len() && r.absence@[j].id == x)
        }),
{
    lemma_teacher_states(records);
    let r = records[i];
    if !r.fully_absent && r.absence@.len() > 0 {
        let ids = r.absence@.map_values(|p: AbsencePeriod| p.id);
        assert forall|x: u128| ids.to_set().contains(x) <==> exists|j: int|
            0 <= j < r.absence@.len() && r.absence@[j].id == x by {
            if ids.to_set().contains(x) {
                assert(ids.contains(x));
                let j = choose|j: int| 0 <= j < ids.len() && ids[j] == x;
                assert(r.absence@[j].id == x);
            }
            if exists|j: int| 0 <= j < r.absence@.len() && r.absence@[j].id == x {
                let j = choose|j: int| 0 <= j < r.absence@.len() && r.absence@[j].id == x;
                assert(ids[j] == x);
            }
        }
    }
}

/// What the notifier knows at one moment: the period under way and the
/// teachers.
pub struct PeriodState {
    pub period_info: PeriodInfo,
    pub teacher_info: TeacherMap,
}

/// The state, when both the period and the teachers are known.
pub fn current_state(period_info: Option<PeriodInfo>, teacher_info: Option<TeacherMap>) -> (r:
    Option<PeriodState>)
    ensures
        r is Some <==> period_info is Some && teacher_info is Some,
        r matches Some(s) ==> period_info == Some(s.period_info) && teacher_info == Some(
            s.teacher_info,
        ),
{
    match (period_info, teacher_info) {
        (Some(period_info), Some(teacher_info)) => Some(PeriodState { period_info, teacher_info }),
        _ => None,
    }
}

/// What to do once the current state is known.
pub enum LoopAction {
    /// Nothing to send.
    Idle,
    /// The period changed during the day: send the changes since `prior`.
    MiddayUpdate { prior: PeriodState },
    /// The day began: send the day's absences.
    DayStart,
}

/// One turn of the status loop: from the state remembered and the state
/// found now, the state to remember and what to send. During the day
/// nothing happens until the period changes; when it does, the changes
/// since the remembered state go out; the first state of a day announces
/// the day's absences; once the day is over the remembered state is dropped.
pub fn status_step(prior: Option<PeriodState>, current: Option<PeriodState>) -> (r: (
    Option<PeriodState>,
    LoopAction,
))
    ensures
        current is None ==> r.0 is None && r.1 is Idle,
        current matches Some(c) ==> match prior {
            None => r.0 == Some(c) && r.1 is DayStart,
            Some(p) => if c.period_info.id == p.period_info.id {
                r.0 == Some(p) && r.1 is Idle
            } else {
                r.0 == Some(c) && r.1 == (LoopAction::MiddayUpdate { prior: p })
            },
        },
{
    match (current, prior) {
        (Some(current), Some(prior)) => {
            if current.period_info.id == prior.period_info.id {
                (Some(prior), LoopAction::Idle)
            } else {
                (Some(current), LoopAction::MiddayUpdate { prior })
            }
        },
        (Some(current), None) => (Some(current), LoopAction::DayStart),
        (None, _) => (None, LoopAction::Idle),
    }
}

/// The topic of a teacher's notifications: the nil UUID as the period,
/// then the teacher's UUID, in hyphenated form.
pub open spec fn topic_text(id: u128) -> Seq<char> {
    uuid_text(0) + "."@ + uuid_text(id)
}

/// A notification about teacher `id`, named `name`, without comments.
pub open spec fn notice(
    id: u128,
    name: Seq<char>,
    kind: NotificationTypeView,
    report_to: Seq<char>,
) -> NotificationDetailsView {
    NotificationDetailsView {
        teacher_name: name,
        topic: topic_text(id),
        notification_type: kind,
        report_to,
        comments: None,
    }
}

/// The groups of the periods of the day (`all`, in order) whose ids are in
/// `ids`.
pub open spec fn absence_groups(all: Seq<PeriodInfo>, ids: Set<u128>) -> Seq<PeriodGroupView> {
    groups_of_runs(
        all.map_values(|p: PeriodInfo| p.name@),
        runs_of(all.map_values(|p: PeriodInfo| ids.contains(p.id))),
    )
}

/// The views of a sequence of notifications.
pub open spec fn notice_views(s: Seq<NotificationDetails>) -> Seq<NotificationDetailsView> {
    s.map_values(|d: NotificationDetails| d@)
}

/// The values of an association list, in order.
pub open spec fn values_of<V>(s: Seq<(u128, V)>) -> Seq<V> {
    s.map_values(|e: (u128, V)| e.1)
}

/// The notification kind announcing `a` at the start of the day; none for
/// a teacher who is present.
pub open spec fn day_start_kind(a: AbsenceView, all: Seq<PeriodInfo>) -> Option<
    NotificationTypeView,
> {
    match a {
        AbsenceView::FullyAbsent => Some(NotificationTypeView::DayStartFullyAbsent),
        AbsenceView::PartiallyAbsent { periods } => Some(
            NotificationTypeView::DayStartPartiallyAbsent { periods: absence_groups(all, periods) },
        ),
        AbsenceView::Present => None,
    }
}

/// The start-of-day notifications for the teachers `ts`, keyed by teacher.
pub open spec fn day_start_notices(
    ts: Seq<(u128, TeacherStateView)>,
    all: Seq<PeriodInfo>,
    report_to: Seq<char>,
) -> Seq<(u128, NotificationDetailsView)>
    decreases ts.len(),
{
    if ts.len() == 0 {
        seq![]
    } else {
        let r = day_start_notices(ts.drop_last(), all, report_to);
        let (id, t) = ts.last();
        match day_start_kind(t.absence, all) {
            Some(kind) => assoc_insert(r, id, notice(id, t.name, kind, report_to)),
            None => r,
        }
    }
}

/// The notification kind announcing that a teacher's absence is now `a`.
pub open spec fn update_kind(a: AbsenceView, all: Seq<PeriodInfo>) -> NotificationTypeView {
    match a {
        AbsenceView::FullyAbsent => NotificationTypeView::UpdateTeacherFullyAbsent,
        AbsenceView::PartiallyAbsent { periods } =>
            NotificationTypeView::UpdateTeacherPartiallyAbsent {
            periods: absence_groups(all, periods),
        },
        AbsenceView::Present => NotificationTypeView::UpdateTeacherPresent,
    }
}

/// Whether teacher `id` was known before with the absence `a`.
pub open spec fn absence_unchanged(
    prior: Seq<(u128, TeacherStateView)>,
    id: u128,
    a: AbsenceView,
) -> bool {
    key_pos(prior, id) >= 0 && prior[key_pos(prior, id)].1.absence == a
}

/// Notifications for the teachers of `current` whose absence differs from
/// `prior` (or who are new), keyed by teacher.
pub open spec fn update_notices(
    prior: Seq<(u128, TeacherStateView)>,
    current: Seq<(u128, TeacherStateView)>,
    all: Seq<PeriodInfo>,
    report_to: Seq<char>,
) -> Seq<(u128, NotificationDetailsView)>
    decreases current.len(),
{
    if current.len() == 0 {
        seq![]
    } else {
        let r = update_notices(prior, current.drop_last(), all, report_to);
        let (id, t) = current.last();
        if absence_unchanged(prior, id, t.absence) {
            r
        } else {
            assoc_insert(r, id, notice(id, t.name, update_kind(t.absence, all), report_to))
        }
    }
}

/// The ids of the teachers in `s`.
pub open spec fn absent_ids(s: Seq<AbsentTeacher>) -> Seq<u128> {
    s.map_values(|t: AbsentTeacher| t.id)
}

/// `acc` with a back-in reminder set for each teacher of `before` who is
/// not in `now`.
pub open spec fn back_in_notices(
    acc: Seq<(u128, NotificationDetailsView)>,
    before: Seq<AbsentTeacher>,
    now: Seq<AbsentTeacher>,
    report_to: Seq<char>,
) -> Seq<(u128, NotificationDetailsView)>
    decreases before.len(),
{
    if before.len() == 0 {
        acc
    } else {
        let r = back_in_notices(acc, before.drop_last(), now, report_to);
        let t = before.last();
        if absent_ids(now).contains(t.id) {
            r
        } else {
            assoc_insert(
                r,
                t.id,
                notice(t.id, t.name@, NotificationTypeView::ReminderTeacherBackIn, report_to),
            )
        }
    }
}

/// The notifications sent when the period changes from `prior` to
/// `current`, keyed by teacher: first the changed absences, then a
/// reminder for each teacher absent in the prior period but not in the
/// current one, which replaces any other notification for that teacher.
pub open spec fn midday_notices(
    prior: PeriodState,
    current: PeriodState,
    all: Seq<PeriodInfo>,
    report_to: Seq<char>,
) -> Seq<(u128, NotificationDetailsView)> {
    back_in_notices(
        update_notices(
            teacher_views(prior.teacher_info.entries()),
            teacher_views(current.teacher_info.entries()),
            all,
            report_to,
        ),
        prior.period_info.teachers_absent@,
        current.period_info.teachers_absent@,
        report_to,
    )
}

fn absence_list(all: &Vec<PeriodInfo>, ids: &Vec<u128>) -> (l: PeriodList)
    ensures
        l@ == absence_groups(all@, ids@.to_set()),
{
    let mut pairs: Vec<(&str, bool)> = Vec::new();
    let n = all.len();
    let mut i: usize = 0;
    while i < n
        invariant
            n == all@.len(),
            i <= n,
            pairs@.len() == i,
            forall|j: int|
                0 <= j < i ==> (#[trigger] pairs@[j]).0@ == all@[j].name@ && pairs@[j].1
                    == ids@.contains(all@[j].id),
        decreases n - i,
    {
        let included = contains_id(ids, all[i].id);
        pairs.push((all[i].name.as_str(), included));
        i = i + 1;
    }
    let l = PeriodList::new(pairs.as_slice());
    assert(names_of(pairs@) =~= all@.map_values(|p: PeriodInfo| p.name@));
    assert(flags_of(pairs@) =~= all@.map_values(|p: PeriodInfo| ids@.to_set().contains(p.id)));
    l
}

fn notice_for(id: u128, name: &String, kind: NotificationType, report_to: &str) -> (d:
    NotificationDetails)
    ensures
        d@ == notice(id, name@, kind@, report_to@),
{
    let teacher = uuid_string(id);
    let period = uuid_string(0);
    NotificationDetails {
        teacher_name: name.clone(),
        topic: Topic::from_teacher_and_period(teacher.as_str(), period.as_str()),
        notification_type: kind,
        report_to: report_to.to_owned(),
        comments: None,
    }
}

proof fn lemma_values_views(entries: Seq<(u128, NotificationDetails)>)
    ensures
        notice_views(values_of(entries)) == values_of(
            map_vals(entries, |d: NotificationDetails| d@),
        ),
{
    assert(notice_views(values_of(entries)) =~= values_of(
        map_vals(entries, |d: NotificationDetails| d@),
    ));
}

/// The notifications at the start of the day: one for each absent teacher
/// of `current`, none when the day's periods could not be had. A partial
/// absence names the periods, grouped in the order of `all_periods`.
pub fn get_begin_day_notifs(
    current: &PeriodState,
    all_periods: Option<&Vec<PeriodInfo>>,
    report_to: &str,
) -> (r: Vec<NotificationDetails>)
    ensures
        all_periods is None ==> r@.len() == 0,
        all_periods matches Some(all) ==> notice_views(r@) == values_of(
            day_start_notices(teacher_views(current.teacher_info.entries()), all@, report_to@),
        ),
{
    let all = match all_periods {
        Some(all) => all,
        None => {
            return Vec::new();
        },
    };
    let ghost ts = teacher_views(current.teacher_info.entries());
    let mut notifs: IdMap<NotificationDetails> = IdMap::new();
    let n = current.teacher_info.len();
    let mut i: usize = 0;
    assert(map_vals(notifs.entries(), |d: NotificationDetails| d@) =~= seq![]);
    assert(ts.take(0) =~= seq![]);
    while i < n
        invariant
            n == current.teacher_info.entries().len(),
            ts == teacher_views(current.teacher_info.entries()),
            i <= n,
            map_vals(notifs.entries(), |d: NotificationDetails| d@) == day_start_notices(
                ts.take(i as int),
                all@,
                report_to@,
            ),
        decreases n - i,
    {
        let (id, t) = current.teacher_info.entry(i);
        assert(ts.take(i + 1).drop_last() =~= ts.take(i as int));
        assert(ts.take(i + 1).last() == (id, t@));
        let ghost before = notifs.entries();
        match &t.absence {
            Absence::FullyAbsent => {
                let d = notice_for(id, &t.name, NotificationType::DayStartFullyAbsent, report_to);
                proof {
                    lemma_assoc_insert_map(before, id, d, |d: NotificationDetails| d@);
                }
                notifs.insert(id, d);
            },
            Absence::PartiallyAbsent { periods } => {
                let l = absence_list(all, periods);
                let d = notice_for(
                    id,
                    &t.name,
                    NotificationType::DayStartPartiallyAbsent { periods: l },
                    report_to,
                );
                proof {
                    lemma_assoc_insert_map(before, id, d, |d: NotificationDetails| d@);
                }
                notifs.insert(id, d);
            },
            Absence::Present => {},
        }
        i = i + 1;
    }
    assert(ts.take(n as int) =~= ts);
    let ghost entries = notifs.entries();
    let r = notifs.into_values();
    proof {
        lemma_values_views(entries);
    }
    r
}

fn is_absent_in(teachers: &Vec<AbsentTeacher>, id: u128) -> (r: bool)
    ensures
        r == absent_ids(teachers@).contains(id),
{
    let n = teachers.len();
    let mut i: usize = 0;
    while i < n
        invariant
            n == teachers@.len(),
            i <= n,
            forall|j: int| 0 <= j < i ==> teachers@[j].id != id,
        decreases n - i,
    {
        if teachers[i].id == id {
            assert(absent_ids(teachers@)[i as int] == id);
            return true;
        }
        i = i + 1;
    }
    assert forall|j: int| 0 <= j < absent_ids(teachers@).len() implies absent_ids(teachers@)[j]
        != id by {
        assert(teachers@[j].id != id);
    }
    false
}

/// The notifications when the period changes from `prior` to `current`
/// during the day: one for each teacher whose absence changed, and a
/// reminder for each teacher absent in the prior period and not in the
/// current one; at most one per teacher. None when the day's periods could
/// not be had.
pub fn get_midday_notifs(
    prior: &PeriodState,
    current: &PeriodState,
    all_periods: Option<&Vec<PeriodInfo>>,
    report_to: &str,
) -> (r: Vec<NotificationDetails>)
    ensures
        all_periods is None ==> r@.len() == 0,
        all_periods matches Some(all) ==> notice_views(r@) == values_of(
            midday_notices(*prior, *current, all@, report_to@),
        ),
{
    let all = match all_periods {
        Some(all) => all,
        None => {
            return Vec::new();
        },
    };
    let ghost ps = teacher_views(prior.teacher_info.entries());
    let ghost ts = teacher_views(current.teacher_info.entries());
    let mut notifs: IdMap<NotificationDetails> = IdMap::new();
    let n = current.teacher_info.len();
    let mut i: usize = 0;
    assert(map_vals(notifs.entries(), |d: NotificationDetails| d@) =~= seq![]);
    assert(ts.take(0) =~= seq![]);
    while i < n
        invariant
            n == current.teacher_info.entries().len(),
            ts == teacher_views(current.teacher_info.entries()),
            ps == teacher_views(prior.teacher_info.entries()),
            i <= n,
            map_vals(notifs.entries(), |d: NotificationDetails| d@) == update_notices(
                ps,
                ts.take(i as int),
                all@,
                report_to@,
            ),
        decreases n - i,
    {
        let (id, t) = current.teacher_info.entry(i);
        assert(ts.take(i + 1).drop_last() =~= ts.take(i as int));
        assert(ts.take(i + 1).last() == (id, t@));
        let ghost before = notifs.entries();
        let unchanged = match prior.teacher_info.get(id) {
            Some(pt) => pt.absence.same_as(&t.absence),
            None => false,
        };
        proof {
            lemma_key_pos_map_views(prior.teacher_info.entries(), id);
        }
        if !unchanged {
            let kind = match &t.absence {
                Absence::FullyAbsent => NotificationType::UpdateTeacherFullyAbsent,
                Absence::PartiallyAbsent { periods } => NotificationType::UpdateTeacherPartiallyAbsent {
                    periods: absence_list(all, periods),
                },
                Absence::Present => NotificationType::UpdateTeacherPresent,
            };
            let d = notice_for(id, &t.name, kind, report_to);
            proof {
                lemma_assoc_insert_map(before, id, d, |d: NotificationDetails| d@);
            }
            notifs.insert(id, d);
        }
        i = i + 1;
    }
    assert(ts.take(n as int) =~= ts);
    let ghost updates = update_notices(ps, ts, all@, report_to@);
    let before_list = &prior.period_info.teachers_absent;
    let now_list = &current.period_info.teachers_absent;
    let m = before_list.len();
    let mut k: usize = 0;
    assert(before_list@.take(0) =~= seq![]);
    while k < m
        invariant
            m == before_list@.len(),
            k <= m,
            map_vals(notifs.entries(), |d: NotificationDetails| d@) == back_in_notices(
                updates,
                before_list@.take(k as int),
                now_list@,
                report_to@,
            ),
        decreases m - k,
    {
        let t = &before_list[k];
        assert(before_list@.take(k + 1).drop_last() =~= before_list@.take(k as int));
        assert(before_list@.take(k + 1).last() == *t);
        let ghost before = notifs.entries();
        if !is_absent_in(now_list, t.id) {
            let d = notice_for(t.id, &t.name, NotificationType::ReminderTeacherBackIn, report_to);
            proof {
                lemma_assoc_insert_map(before, t.id, d, |d: NotificationDetails| d@);
            }
            notifs.insert(t.id, d);
        }
        k = k + 1;
    }
    assert(before_list@.take(m as int) =~= before_list@);
    let ghost entries = notifs.entries();
    let r = notifs.into_values();
    proof {
        lemma_values_views(entries);
    }
    r
}

proof fn lemma_key_pos_map_views(s: Seq<(u128, TeacherState)>, id: u128)
    ensures
        key_pos(teacher_views(s), id) == key_pos(s, id),
        -1 <= key_pos(s, id) < s.len(),
        key_pos(s, id) >= 0 ==> teacher_views(s)[key_pos(s, id)].1 == s[key_pos(s, id)].1@,
{
    crate::id_map::lemma_key_pos_map(s, id, |t: TeacherState| t@);
    lemma_key_pos(s, id);
}

/// At the start of the day there is at most one notification per teacher:
/// one for each teacher listed as absent (fully or partly), none for
/// anyone else, each sent to its teacher's topic.
pub proof fn lemma_day_start_notices(
    ts: Seq<(u128, TeacherStateView)>,
    all: Seq<PeriodInfo>,
    report_to: Seq<char>,
)
    ensures
        unique_keys(day_start_notices(ts, all, report_to)),
        forall|k: u128|
            #[trigger] has_key(day_start_notices(ts, all, report_to), k) <==> exists|i: int|
                0 <= i < ts.len() && ts[i].0 == k && !(ts[i].1.absence is Present),
        forall|k: u128|
            #[trigger] has_key(day_start_notices(ts, all, report_to), k) ==> value_of(
                day_start_notices(ts, all, report_to),
                k,
            ).topic == topic_text(k),
        forall|i: int|
            0 <= i < ts.len() && (forall|j: int| i < j < ts.len() ==> ts[j].0 != ts[i].0)
                && day_start_kind(ts[i].1.absence, all) is Some ==> #[trigger] value_of(
                day_start_notices(ts, all, report_to),
                ts[i].0,
            ) == notice(
                ts[i].0,
                ts[i].1.name,
                day_start_kind(ts[i].1.absence, all)->0,
                report_to,
            ),
    decreases ts.len(),
{
    let d = ts.drop_last();
    if ts.len() > 0 {
        lemma_day_start_notices(d, all, report_to);
        let r = day_start_notices(d, all, report_to);
        let (id, t) = ts.last();
        let res = day_start_notices(ts, all, report_to);
        match day_start_kind(t.absence, all) {
            Some(kind) => {
                let v = notice(id, t.name, kind, report_to);
                lemma_assoc_insert(r, id, v);
                lemma_assoc_insert_value(r, id, v);
            },
            None => {},
        }
        assert forall|k: u128| #[trigger] has_key(res, k) <==> exists|i: int|
            0 <= i < ts.len() && ts[i].0 == k && !(ts[i].1.absence is Present) by {
            if has_key(r, k) {
                let i = choose|i: int| 0 <= i < d.len() && d[i].0 == k && !(d[i].1.absence is Present);
                assert(ts[i] == d[i]);
            }
            if exists|i: int| 0 <= i < ts.len() && ts[i].0 == k && !(ts[i].1.absence is Present) {
                let i = choose|i: int| 0 <= i < ts.len() && ts[i].0 == k && !(ts[i].1.absence is Present);
                if i < d.len() {
                    assert(d[i] == ts[i]);
                }
            }
        }
        assert forall|i: int|
            0 <= i < ts.len() && (forall|j: int| i < j < ts.len() ==> ts[j].0 != ts[i].0)
                && day_start_kind(ts[i].1.absence, all) is Some implies #[trigger] value_of(
                res,
                ts[i].0,
            ) == notice(
                ts[i].0,
                ts[i].1.name,
                day_start_kind(ts[i].1.absence, all)->0,
                report_to,
            ) by {
            if i < d.len() {
                assert(d[i] == ts[i]);
                assert(ts[ts.len() - 1].0 != ts[i].0);
                assert forall|j: int| i < j < d.len() implies d[j].0 != d[i].0 by {
                    assert(d[j] == ts[j]);
                }
                assert(!(d[i].1.absence is Present));
                assert(has_key(r, ts[i].0));
            }
        }
    }
}

proof fn lemma_update_notices(
    prior: Seq<(u128, TeacherStateView)>,
    current: Seq<(u128, TeacherStateView)>,
    all: Seq<PeriodInfo>,
    report_to: Seq<char>,
)
    ensures
        unique_keys(update_notices(prior, current, all, report_to)),
        forall|k: u128|
            #[trigger] has_key(update_notices(prior, current, all, report_to), k) <==> exists|i: int|
                0 <= i < current.len() && current[i].0 == k && !absence_unchanged(
                    prior,
                    k,
                    current[i].1.absence,
                ),
        forall|k: u128|
            #[trigger] has_key(update_notices(prior, current, all, report_to), k) ==> value_of(
                update_notices(prior, current, all, report_to),
                k,
            ).topic == topic_text(k),
        forall|i: int|
            0 <= i < current.len() && (forall|j: int| i < j < current.len() ==> current[j].0
                != current[i].0) && !absence_unchanged(prior, current[i].0, current[i].1.absence)
                ==> #[trigger] value_of(update_notices(prior, current, all, report_to), current[i].0)
                == notice(
                current[i].0,
                current[i].1.name,
                update_kind(current[i].1.absence, all),
                report_to,
            ),
    decreases current.len(),
{
    let d = current.drop_last();
    if current.len() > 0 {
        lemma_update_notices(prior, d, all, report_to);
        let r = update_notices(prior, d, all, report_to);
        let (id, t) = current.last();
        let res = update_notices(prior, current, all, report_to);
        if !absence_unchanged(prior, id, t.absence) {
            let v = notice(id, t.name, update_kind(t.absence, all), report_to);
            lemma_assoc_insert(r, id, v);
            lemma_assoc_insert_value(r, id, v);
        }
        assert forall|k: u128| #[trigger] has_key(res, k) <==> exists|i: int|
            0 <= i < current.len() && current[i].0 == k && !absence_unchanged(
                prior,
                k,
                current[i].1.absence,
            ) by {
            if has_key(r, k) {
                let i = choose|i: int|
                    0 <= i < d.len() && d[i].0 == k && !absence_unchanged(prior, k, d[i].1.absence);
                assert(current[i] == d[i]);
            }
            if exists|i: int|
                0 <= i < current.len() && current[i].0 == k && !absence_unchanged(
                    prior,
                    k,
                    current[i].1.absence,
                ) {
                let i = choose|i: int|
                    0 <= i < current.len() && current[i].0 == k && !absence_unchanged(
                        prior,
                        k,
                        current[i].1.absence,
                    );
                if i < d.len() {
                    assert(d[i] == current[i]);
                }
            }
        }
        assert forall|i: int|
            0 <= i < current.len() && (forall|j: int| i < j < current.len() ==> current[j].0
                != current[i].0) && !absence_unchanged(prior, current[i].0, current[i].1.absence)
                implies #[trigger] value_of(res, current[i].0) == notice(
            current[i].0,
            current[i].1.name,
            update_kind(current[i].1.absence, all),
            report_to,
        ) by {
            if i < d.len() {
                assert(d[i] == current[i]);
                assert(current[current.len() - 1].0 != current[i].0);
                assert forall|j: int| i < j < d.len() implies d[j].0 != d[i].0 by {
                    assert(d[j] == current[j]);
                }
                assert(has_key(r, current[i].0));
            }
        }
    }
}

proof fn lemma_back_in_notices(
    acc: Seq<(u128, NotificationDetailsView)>,
    before: Seq<AbsentTeacher>,
    now: Seq<AbsentTeacher>,
    report_to: Seq<char>,
)
    requires
        unique_keys(acc),
        forall|k: u128| #[trigger] has_key(acc, k) ==> value_of(acc, k).topic == topic_text(k),
    ensures
        unique_keys(back_in_notices(acc, before, now, report_to)),
        forall|k: u128|
            #[trigger] has_key(back_in_notices(acc, before, now, report_to), k) <==> has_key(acc, k)
                || (absent_ids(before).contains(k) && !absent_ids(now).contains(k)),
        forall|k: u128|
            #[trigger] has_key(back_in_notices(acc, before, now, report_to), k) ==> value_of(
                back_in_notices(acc, before, now, report_to),
                k,
            ).topic == topic_text(k),
        forall|k: u128|
            absent_ids(before).contains(k) && !absent_ids(now).contains(k) ==> #[trigger] value_of(
                back_in_notices(acc, before, now, report_to),
                k,
            ).notification_type is ReminderTeacherBackIn,
        forall|k: u128|
            has_key(acc, k) && !(absent_ids(before).contains(k) && !absent_ids(now).contains(k))
                ==> #[trigger] value_of(back_in_notices(acc, before, now, report_to), k)
                == value_of(acc, k),
        forall|k: u128|
            absent_ids(before).contains(k) && !absent_ids(now).contains(k) ==> exists|j: int|
                0 <= j < before.len() && before[j].id == k && #[trigger] value_of(
                    back_in_notices(acc, before, now, report_to),
                    k,
                ).teacher_name == before[j].name@,
    decreases before.len(),
{
    if before.len() > 0 {
        let d = before.drop_last();
        lemma_back_in_notices(acc, d, now, report_to);
        let r = back_in_notices(acc, d, now, report_to);
        let t = before.last();
        let res = back_in_notices(acc, before, now, report_to);
        assert(absent_ids(before) =~= absent_ids(d).push(t.id));
        assert(absent_ids(before)[before.len() - 1] == t.id);
        assert(absent_ids(before).contains(t.id));
        if !absent_ids(now).contains(t.id) {
            let v = notice(t.id, t.name@, NotificationTypeView::ReminderTeacherBackIn, report_to);
            lemma_assoc_insert(r, t.id, v);
            lemma_assoc_insert_value(r, t.id, v);
        }
        assert forall|k: u128|
            absent_ids(before).contains(k) && !absent_ids(now).contains(k) implies #[trigger] value_of(
                res,
                k,
            ).notification_type is ReminderTeacherBackIn by {
            if k != t.id {
                let i = choose|i: int| 0 <= i < absent_ids(before).len() && absent_ids(before)[i] == k;
                assert(absent_ids(d)[i] == k);
                assert(absent_ids(d).contains(k));
            }
        }
        assert forall|k: u128| #[trigger] has_key(res, k) <==> has_key(acc, k) || (absent_ids(
            before,
        ).contains(k) && !absent_ids(now).contains(k)) by {
            if absent_ids(before).contains(k) && k != t.id {
                let i = choose|i: int| 0 <= i < absent_ids(before).len() && absent_ids(before)[i] == k;
                assert(absent_ids(d)[i] == k);
            }
            if absent_ids(d).contains(k) {
                let i = choose|i: int| 0 <= i < absent_ids(d).len() && absent_ids(d)[i] == k;
                assert(absent_ids(before)[i] == k);
            }
        }
        assert forall|k: u128|
            has_key(acc, k) && !(absent_ids(before).contains(k) && !absent_ids(now).contains(k))
                implies #[trigger] value_of(res, k) == value_of(acc, k) by {
            if absent_ids(d).contains(k) {
                let i = choose|i: int| 0 <= i < absent_ids(d).len() && absent_ids(d)[i] == k;
                assert(absent_ids(before)[i] == k);
            }
            assert(has_key(r, k));
        }
        assert forall|k: u128|
            absent_ids(before).contains(k) && !absent_ids(now).contains(k) implies exists|j: int|
                0 <= j < before.len() && before[j].id == k && #[trigger] value_of(res, k).teacher_name
                    == before[j].name@ by {
            if k == t.id {
                assert(before[before.len() - 1].id == k);
            } else {
                let i = choose|i: int| 0 <= i < absent_ids(before).len() && absent_ids(before)[i] == k;
                assert(absent_ids(d)[i] == k);
                let j = choose|j: int|
                    0 <= j < d.len() && d[j].id == k && value_of(r, k).teacher_name == d[j].name@;
                assert(before[j] == d[j]);
            }
        }
    }
}

/// When the period changes there is at most one notification per teacher,
/// sent to that teacher's topic. A teacher gets one exactly when their
/// absence is new or changed, or when they were absent in the prior period
/// and are not in the current one; in that last case it is the reminder
/// that they are back.
pub proof fn lemma_midday_notices(
    prior: PeriodState,
    current: PeriodState,
    all: Seq<PeriodInfo>,
    report_to: Seq<char>,
)
    ensures
        ({
            let res = midday_notices(prior, current, all, report_to);
            let ps = teacher_views(prior.teacher_info.entries());
            let cs = teacher_views(current.teacher_info.entries());
            let before = absent_ids(prior.period_info.teachers_absent@);
            let now = absent_ids(current.period_info.teachers_absent@);
            &&& unique_keys(res)
            &&& forall|k: u128|
                #[trigger] has_key(res, k) <==> (exists|i: int|
                    0 <= i < cs.len() && cs[i].0 == k && !absence_unchanged(ps, k, cs[i].1.absence))
                    || (before.contains(k) && !now.contains(k))
            &&& forall|k: u128| #[trigger] has_key(res, k) ==> value_of(res, k).topic == topic_text(k)
            &&& forall|k: u128|
                before.contains(k) && !now.contains(k) ==> #[trigger] value_of(
                    res,
                    k,
                ).notification_type is ReminderTeacherBackIn
            &&& forall|k: u128|
                before.contains(k) && !now.contains(k) ==> exists|j: int|
                    0 <= j < prior.period_info.teachers_absent@.len()
                        && prior.period_info.teachers_absent@[j].id == k && #[trigger] value_of(
                        res,
                        k,
                    ).teacher_name == prior.period_info.teachers_absent@[j].name@
        }),
{
    let ps = teacher_views(prior.teacher_info.entries());
    let cs = teacher_views(current.teacher_info.entries());
    lemma_update_notices(ps, cs, all, report_to);
    lemma_back_in_notices(
        update_notices(ps, cs, all, report_to),
        prior.period_info.teachers_absent@,
        current.period_info.teachers_absent@,
        report_to,
    );
}

/// When nothing changed between two periods (the same teachers with the
/// same absences, and the same teachers listed absent), the change of
/// period sends nothing.
pub proof fn lemma_midday_quiet_when_unchanged(
    prior: PeriodState,
    current: PeriodState,
    all: Seq<PeriodInfo>,
    report_to: Seq<char>,
)
    requires
        unique_keys(prior.teacher_info.entries()),
        teacher_views(prior.teacher_info.entries()) == teacher_views(
            current.teacher_info.entries(),
        ),
        absent_ids(prior.period_info.teachers_absent@) == absent_ids(
            current.period_info.teachers_absent@,
        ),
    ensures
        midday_notices(prior, current, all, report_to).len() == 0,
{
    let res = midday_notices(prior, current, all, report_to);
    let ps = teacher_views(prior.teacher_info.entries());
    lemma_midday_notices(prior, current, all, report_to);
    assert(unique_keys(ps));
    if res.len() > 0 {
        let k = res[0].0;
        assert(has_key(res, k));
        let i = choose|i: int|
            0 <= i < ps.len() && ps[i].0 == k && !absence_unchanged(ps, k, ps[i].1.absence);
        lemma_key_pos(ps, k);
        assert(key_pos(ps, k) == i);
    }
}

/// The periods named for a partial absence are the maximal stretches of
/// consecutive periods of the day whose ids the teacher misses, each by
/// its first and last period.
pub proof fn lemma_absence_groups_list(all: Seq<PeriodInfo>, ids: Set<u128>)
    ensures
        lists_periods(
            absence_groups(all, ids),
            Seq::new(all.len(), |j: int| all[j].name@),
            Seq::new(all.len(), |j: int| ids.contains(all[j].id)),
        ),
{
    let names = all.map_values(|p: PeriodInfo| p.name@);
    let flags = all.map_values(|p: PeriodInfo| ids.contains(p.id));
    assert(names =~= Seq::new(all.len(), |j: int| all[j].name@));
    assert(flags =~= Seq::new(all.len(), |j: int| ids.contains(all[j].id)));
    lemma_groups_list_periods(names, flags);
}

proof fn lemma_unique_views(s: Seq<(u128, TeacherState)>, k: u128)
    requires
        unique_keys(s),
        has_key(teacher_views(s), k),
    ensures
        unique_keys(teacher_views(s)),
        0 <= key_pos(teacher_views(s), k) < s.len(),
        forall|j: int|
            0 <= j < s.len() && teacher_views(s)[j].0 == k ==> j == key_pos(teacher_views(s), k),
        teacher_views(s)[key_pos(teacher_views(s), k)].0 == k,
{
    lemma_key_pos(teacher_views(s), k);
}

/// At the start of the day each teacher gets a notification exactly when
/// absent, and it says how: a full absence as such, a partial one naming
/// the day's periods the teacher misses. It carries the teacher's name, the
/// teacher's topic and the place to report to.
pub proof fn lemma_day_start_per_teacher(
    current: PeriodState,
    all: Seq<PeriodInfo>,
    report_to: Seq<char>,
    k: u128,
)
    requires
        unique_keys(current.teacher_info.entries()),
        has_key(teacher_views(current.teacher_info.entries()), k),
    ensures
        ({
            let cs = teacher_views(current.teacher_info.entries());
            let res = day_start_notices(cs, all, report_to);
            let t = value_of(cs, k);
            let n = value_of(res, k);
            &&& t.absence is Present ==> !has_key(res, k)
            &&& !(t.absence is Present) ==> has_key(res, k) && n.teacher_name == t.name && n.topic
                == topic_text(k) && n.report_to == report_to && n.comments is None
            &&& t.absence is FullyAbsent ==> n.notification_type is DayStartFullyAbsent
            &&& t.absence matches AbsenceView::PartiallyAbsent { periods } ==> (
            n.notification_type matches NotificationTypeView::DayStartPartiallyAbsent { periods: g }
                && lists_periods(
                g,
                Seq::new(all.len(), |j: int| all[j].name@),
                Seq::new(all.len(), |j: int| periods.contains(all[j].id)),
            ))
        }),
{
    let cs = teacher_views(current.teacher_info.entries());
    lemma_unique_views(current.teacher_info.entries(), k);
    lemma_day_start_notices(cs, all, report_to);
    let i = key_pos(cs, k);
    let t = cs[i].1;
    assert forall|j: int| i < j < cs.len() implies cs[j].0 != cs[i].0 by {}
    if t.absence is Present {
        let res = day_start_notices(cs, all, report_to);
        if has_key(res, k) {
            let i2 = choose|i2: int| 0 <= i2 < cs.len() && cs[i2].0 == k && !(cs[i2].1.absence is Present);
            assert(i2 == i);
        }
    } else {
        assert(day_start_kind(t.absence, all) is Some);
        match t.absence {
            AbsenceView::PartiallyAbsent { periods } => {
                lemma_absence_groups_list(all, periods);
            },
            _ => {},
        }
    }
}

/// When the period changes, a teacher of the current state whose absence
/// is new or differs in any way from before (the set of periods included)
/// gets a notification, and one whose absence is the same gets none unless
/// they are back. Unless they are back, the notification says what the
/// absence now is: a full absence, the day's periods missed, or presence;
/// it carries the teacher's name, topic and the place to report to.
pub proof fn lemma_midday_per_teacher(
    prior: PeriodState,
    current: PeriodState,
    all: Seq<PeriodInfo>,
    report_to: Seq<char>,
    k: u128,
)
    requires
        unique_keys(prior.teacher_info.entries()),
        unique_keys(current.teacher_info.entries()),
        has_key(teacher_views(current.teacher_info.entries()), k),
    ensures
        ({
            let ps = teacher_views(prior.teacher_info.entries());
            let cs = teacher_views(current.teacher_info.entries());
            let res = midday_notices(prior, current, all, report_to);
            let t = value_of(cs, k);
            let n = value_of(res, k);
            let back = absent_ids(prior.period_info.teachers_absent@).contains(k) && !absent_ids(
                current.period_info.teachers_absent@,
            ).contains(k);
            let changed = !has_key(ps, k) || value_of(ps, k).absence != t.absence;
            &&& changed ==> has_key(res, k)
            &&& !changed && !back ==> !has_key(res, k)
            &&& changed && !back ==> n.teacher_name == t.name && n.topic == topic_text(k)
                && n.report_to == report_to && n.comments is None
            &&& changed && !back && t.absence is FullyAbsent ==> n.notification_type is UpdateTeacherFullyAbsent
            &&& changed && !back && t.absence is Present ==> n.notification_type is UpdateTeacherPresent
            &&& changed && !back ==> (t.absence matches AbsenceView::PartiallyAbsent { periods }
                ==> (n.notification_type matches NotificationTypeView::UpdateTeacherPartiallyAbsent {
                periods: g,
            } && lists_periods(
                g,
                Seq::new(all.len(), |j: int| all[j].name@),
                Seq::new(all.len(), |j: int| periods.contains(all[j].id)),
            )))
        }),
{
    let ps = teacher_views(prior.teacher_info.entries());
    let cs = teacher_views(current.teacher_info.entries());
    lemma_unique_views(current.teacher_info.entries(), k);
    lemma_key_pos(ps, k);
    lemma_midday_notices(prior, current, all, report_to);
    lemma_update_notices(ps, cs, all, report_to);
    let upd = update_notices(ps, cs, all, report_to);
    lemma_back_in_notices(
        upd,
        prior.period_info.teachers_absent@,
        current.period_info.teachers_absent@,
        report_to,
    );
    let i = key_pos(cs, k);
    let t = cs[i].1;
    let res = midday_notices(prior, current, all, report_to);
    assert forall|j: int| i < j < cs.len() implies cs[j].0 != cs[i].0 by {}
    let changed = !has_key(ps, k) || value_of(ps, k).absence != t.absence;
    assert(changed <==> !absence_unchanged(ps, k, t.absence));
    if changed {
        assert(has_key(upd, k));
    } else if has_key(res, k) {
        let back = absent_ids(prior.period_info.teachers_absent@).contains(k) && !absent_ids(
            current.period_info.teachers_absent@,
        ).contains(k);
        if !back {
            let i2 = choose|i2: int|
                0 <= i2 < cs.len() && cs[i2].0 == k && !absence_unchanged(ps, k, cs[i2].1.absence);
            assert(i2 == i);
        }
    }
    match t.absence {
        AbsenceView::PartiallyAbsent { periods } => {
            lemma_absence_groups_list(all, periods);
        },
        _ => {},
    }
}

} // verus!
