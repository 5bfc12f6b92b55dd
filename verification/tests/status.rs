use absence_notify::id_map::IdMap;
use absence_notify::notifications::NotificationType;
use absence_notify::schedule::{
    current_period, sort_by_start, AbsentTeacher, PeriodInfo, FALLBACK_DAY_END_KEY,
};
use absence_notify::status_loop::{
    get_begin_day_notifs, get_midday_notifs, current_state, status_step, teacher_states,
    Absence, AbsencePeriod, LoopAction, PeriodState, TeacherMap, TeacherRecord, TeacherState,
};

/// The key `f64::total_cmp` orders by.
fn key(x: f64) -> i64 {
    let b = x.to_bits() as i64;
    b ^ ((((b >> 63) as u64) >> 1) as i64)
}

const NIL: &str = "00000000-0000-0000-0000-000000000000";

fn period(id: u128, name: &str, start: f64, end: f64, absent: &[(u128, &str)]) -> PeriodInfo {
    PeriodInfo {
        id,
        name: name.to_string(),
        start: key(start),
        end: key(end),
        teachers_absent: absent
            .iter()
            .map(|(id, n)| AbsentTeacher { id: *id, name: n.to_string() })
            .collect(),
    }
}

fn day() -> Vec<PeriodInfo> {
    vec![
        period(1, "Period 1", 28800.0, 32400.0, &[]),
        period(2, "Period 2", 32400.0, 36000.0, &[]),
        period(3, "Period 3", 36000.0, 39600.0, &[]),
        period(4, "Period 4", 39600.0, 43200.0, &[]),
    ]
}

fn opens(ps: &[PeriodInfo], starts: &[f64]) -> Vec<i64> {
    assert_eq!(ps.len(), starts.len());
    starts.iter().map(|s| key(s - 300.0)).collect()
}

fn names(ps: &[PeriodInfo]) -> Vec<String> {
    ps.iter().map(|p| p.name.clone()).collect()
}

#[test]
fn fallback_day_end_is_sixty_seconds() {
    assert_eq!(FALLBACK_DAY_END_KEY, key(60.0));
}

#[test]
fn sort_by_start_is_stable() {
    let ps = vec![
        period(1, "a", 5.0, 6.0, &[]),
        period(2, "b", 1.0, 2.0, &[]),
        period(3, "c", 5.0, 7.0, &[]),
        period(4, "d", 0.0, 1.0, &[]),
        period(5, "e", -0.0, 1.0, &[]),
    ];
    let sorted = sort_by_start(ps);
    // -0.0 sorts before 0.0, as with `total_cmp`.
    assert_eq!(names(&sorted), vec!["e", "d", "b", "a", "c"]);
}

#[test]
fn current_period_picks_latest_opened() {
    let starts = [28800.0, 32400.0, 36000.0, 39600.0];
    let ps = day();
    let o = opens(&ps, &starts);
    // Five minutes before period 2 starts, period 2 is current.
    let r = current_period(ps, &o, key(32100.0)).unwrap();
    assert_eq!(r.id, 2);
    let ps = day();
    let r = current_period(ps, &o, key(32099.0)).unwrap();
    assert_eq!(r.id, 1);
}

#[test]
fn current_period_none_before_first_and_after_day() {
    let starts = [28800.0, 32400.0, 36000.0, 39600.0];
    let o = opens(&day(), &starts);
    assert!(current_period(day(), &o, key(0.0)).is_none());
    assert!(current_period(day(), &o, key(43201.0)).is_none());
    assert_eq!(current_period(day(), &o, key(43200.0)).unwrap().id, 4);
}

#[test]
fn current_period_ties_go_to_the_later_listed() {
    let ps = vec![period(7, "x", 100.0, 500.0, &[]), period(8, "y", 100.0, 400.0, &[])];
    let o = opens(&ps, &[100.0, 100.0]);
    assert_eq!(current_period(ps, &o, key(200.0)).unwrap().id, 8);
}

#[test]
fn current_period_with_no_periods() {
    assert!(current_period(vec![], &vec![], key(30.0)).is_none());
}

#[test]
fn current_period_nan_times() {
    // A NaN end ends no day; a NaN lookahead start never opens.
    let ps = vec![period(1, "a", 100.0, f64::NAN, &[]), period(2, "b", 200.0, 300.0, &[])];
    let o = vec![key(f64::NAN), key(-100.0)];
    assert_eq!(current_period(ps, &o, key(1000.0)).unwrap().id, 2);
    let ps = vec![period(1, "a", 100.0, -f64::NAN, &[])];
    let o = vec![key(-f64::NAN)];
    assert!(current_period(ps, &o, key(1000.0)).is_none());
}

#[test]
fn current_period_zero_end_compares_equal() {
    // A day ending at -0.0 has not ended at 0.0.
    let ps = vec![period(1, "a", -0.0, -0.0, &[])];
    let o = vec![key(-0.0)];
    assert_eq!(current_period(ps, &o, key(0.0)).unwrap().id, 1);
}

fn record(id: u128, name: &str, fully: bool, absence: &[u128]) -> TeacherRecord {
    TeacherRecord {
        id,
        name: name.to_string(),
        fully_absent: fully,
        absence: absence.iter().map(|&p| AbsencePeriod { id: p, start: 0, end: 0 }).collect(),
    }
}

#[test]
fn teacher_states_from_records() {
    let m = teacher_states(vec![
        record(1, "A", true, &[2]),
        record(2, "B", false, &[]),
        record(3, "C", false, &[2, 3]),
        record(2, "B2", true, &[]),
    ]);
    assert_eq!(m.len(), 3);
    assert!(matches!(m.get(1).unwrap().absence, Absence::FullyAbsent));
    let b = m.get(2).unwrap();
    assert_eq!(b.name, "B2");
    assert!(matches!(b.absence, Absence::FullyAbsent));
    match &m.get(3).unwrap().absence {
        Absence::PartiallyAbsent { periods } => assert_eq!(periods, &vec![2, 3]),
        _ => panic!("expected a partial absence"),
    }
    assert_eq!(m.get(3).unwrap().periods.len(), 2);
    assert!(m.get(4).is_none());
    let m = teacher_states(vec![record(5, "E", false, &[])]);
    assert!(matches!(m.get(5).unwrap().absence, Absence::Present));
}

#[test]
fn absence_equality_ignores_order() {
    let a = Absence::PartiallyAbsent { periods: vec![1, 2, 2] };
    let b = Absence::PartiallyAbsent { periods: vec![2, 1] };
    let c = Absence::PartiallyAbsent { periods: vec![1] };
    assert!(a.same_as(&b));
    assert!(!a.same_as(&c));
    assert!(!a.same_as(&Absence::FullyAbsent));
    assert!(Absence::Present.same_as(&Absence::Present));
}

fn teachers(list: &[(u128, &str, Absence)]) -> TeacherMap {
    let mut m = IdMap::new();
    for (id, name, a) in list {
        m.insert(*id, TeacherState { name: name.to_string(), absence: a.clone(), periods: vec![] });
    }
    m
}

fn state(period_id: u128, absent: &[(u128, &str)], t: TeacherMap) -> PeriodState {
    PeriodState { period_info: period(period_id, "p", 0.0, 1.0, absent), teacher_info: t }
}

#[test]
fn current_state_needs_both_parts() {
    assert!(current_state(None, Some(teachers(&[]))).is_none());
    assert!(current_state(Some(period(1, "p", 0.0, 1.0, &[])), None).is_none());
    let s = current_state(Some(period(1, "p", 0.0, 1.0, &[])), Some(teachers(&[]))).unwrap();
    assert_eq!(s.period_info.id, 1);
}

#[test]
fn status_step_cases() {
    let (next, action) = status_step(None, Some(state(1, &[], teachers(&[]))));
    assert_eq!(next.unwrap().period_info.id, 1);
    assert!(matches!(action, LoopAction::DayStart));

    let (next, action) =
        status_step(Some(state(1, &[], teachers(&[]))), Some(state(1, &[(9, "Z")], teachers(&[]))));
    let next = next.unwrap();
    assert_eq!(next.period_info.id, 1);
    assert!(next.period_info.teachers_absent.is_empty());
    assert!(matches!(action, LoopAction::Idle));

    let (next, action) =
        status_step(Some(state(1, &[], teachers(&[]))), Some(state(2, &[], teachers(&[]))));
    assert_eq!(next.unwrap().period_info.id, 2);
    match action {
        LoopAction::MiddayUpdate { prior } => assert_eq!(prior.period_info.id, 1),
        _ => panic!("expected a midday update"),
    }

    let (next, action) = status_step(Some(state(1, &[], teachers(&[]))), None);
    assert!(next.is_none());
    assert!(matches!(action, LoopAction::Idle));
    let (next, action) = status_step(None, None);
    assert!(next.is_none());
    assert!(matches!(action, LoopAction::Idle));
}

#[test]
fn begin_day_notifies_absent_teachers_only() {
    let t = teachers(&[
        (0x10, "Ms. A", Absence::FullyAbsent),
        (0x20, "Mr. B", Absence::Present),
        (0x30, "Dr. C", Absence::PartiallyAbsent { periods: vec![2, 3] }),
    ]);
    let cur = state(1, &[], t);
    let all = day();
    let notifs = get_begin_day_notifs(&cur, Some(&all), "room 101");
    assert_eq!(notifs.len(), 2);
    let a = &notifs[0];
    assert_eq!(a.teacher_name, "Ms. A");
    assert!(matches!(a.notification_type, NotificationType::DayStartFullyAbsent));
    assert_eq!(
        a.topic.to_string(),
        format!("/topics/{NIL}.00000000-0000-0000-0000-000000000010")
    );
    assert_eq!(a.report_to, "room 101");
    assert!(a.comments.is_none());
    let c = &notifs[1];
    match &c.notification_type {
        NotificationType::DayStartPartiallyAbsent { periods } => {
            assert_eq!(periods.to_string(), "2-3")
        }
        _ => panic!("expected a partial absence"),
    }
    assert_eq!(
        c.clone().build().body.unwrap(),
        "Dr. C is absent today during period(s) 2-3. Check Schoology and report to room 101."
    );
    assert!(get_begin_day_notifs(&cur, None, "room 101").is_empty());
}

#[test]
fn topic_uses_hyphenated_lowercase_uuid() {
    let id: u128 = 0x67e5_5044_10b1_426f_9247_bb68_0e5f_e0c8;
    let t = teachers(&[(id, "T", Absence::FullyAbsent)]);
    let all = day();
    let notifs = get_begin_day_notifs(&state(1, &[], t), Some(&all), "");
    assert_eq!(
        notifs[0].topic.to_string(),
        format!("/topics/{NIL}.67e55044-10b1-426f-9247-bb680e5fe0c8")
    );
}

#[test]
fn midday_notifies_changes_and_returns() {
    let prior = state(
        1,
        &[(0x30, "Dr. C"), (0x40, "Mx. D")],
        teachers(&[
            (0x10, "Ms. A", Absence::Present),
            (0x20, "Mr. B", Absence::PartiallyAbsent { periods: vec![3, 2] }),
            (0x30, "Dr. C", Absence::FullyAbsent),
        ]),
    );
    let current = state(
        2,
        &[(0x40, "Mx. D")],
        teachers(&[
            (0x10, "Ms. A", Absence::FullyAbsent),
            (0x20, "Mr. B", Absence::PartiallyAbsent { periods: vec![2, 3] }),
            (0x30, "Dr. C", Absence::Present),
            (0x50, "Ms. E", Absence::PartiallyAbsent { periods: vec![4] }),
        ]),
    );
    let all = day();
    let notifs = get_midday_notifs(&prior, &current, Some(&all), "office");
    // A changed, B unchanged, C changed and then back in, E new; D still absent.
    assert_eq!(notifs.len(), 3);
    assert_eq!(notifs[0].teacher_name, "Ms. A");
    assert!(matches!(notifs[0].notification_type, NotificationType::UpdateTeacherFullyAbsent));
    assert_eq!(notifs[1].teacher_name, "Dr. C");
    assert!(matches!(notifs[1].notification_type, NotificationType::ReminderTeacherBackIn));
    assert_eq!(notifs[2].teacher_name, "Ms. E");
    match &notifs[2].notification_type {
        NotificationType::UpdateTeacherPartiallyAbsent { periods } => {
            assert_eq!(periods.to_string(), "4")
        }
        _ => panic!("expected a partial absence"),
    }
    assert!(get_midday_notifs(&prior, &current, None, "office").is_empty());
}

#[test]
fn midday_back_in_for_teacher_not_in_map() {
    let prior = state(1, &[(0x77, "Mr. G"), (0x77, "Mr. G")], teachers(&[]));
    let current = state(2, &[], teachers(&[]));
    let all = day();
    let notifs = get_midday_notifs(&prior, &current, Some(&all), "");
    assert_eq!(notifs.len(), 1);
    assert_eq!(notifs[0].clone().build().body.unwrap(), "Reminder: Mr. G is back");
}

#[test]
fn midday_quiet_when_nothing_changed() {
    let make = |period_id| {
        state(
            period_id,
            &[(0x30, "Dr. C")],
            teachers(&[
                (0x10, "Ms. A", Absence::FullyAbsent),
                (0x30, "Dr. C", Absence::PartiallyAbsent { periods: vec![1, 2] }),
            ]),
        )
    };
    let all = day();
    assert!(get_midday_notifs(&make(1), &make(2), Some(&all), "office").is_empty());
}
