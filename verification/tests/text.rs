use absence_notify::notifications::payload::{NotificationDetails, NotificationPayload, Topic};
use absence_notify::notifications::utils::{
    trim_period_text, EnglishList, PeriodGroup, PeriodList, TextForm,
};
use absence_notify::notifications::{push_message, ClientInitErr, NotificationType};

#[test]
fn trim_period_text_drops_the_word_period() {
    assert_eq!(trim_period_text("Period 3"), "3");
    assert_eq!(trim_period_text("  period 4  "), "4");
    assert_eq!(trim_period_text("3rd Period"), "3rd");
    assert_eq!(trim_period_text("4th period\t"), "4th");
    assert_eq!(trim_period_text("PeriodPeriod 1"), "1");
    assert_eq!(trim_period_text("Lunch"), "Lunch");
    assert_eq!(trim_period_text(""), "");
    assert_eq!(trim_period_text("Period"), "");
}

#[test]
fn trim_period_text_strips_each_word_form_once_in_order() {
    // "Period" is stripped from the front first, then "period"; a
    // "Period" uncovered afterwards stays.
    assert_eq!(trim_period_text("period Period 2"), "Period 2");
    assert_eq!(trim_period_text("Period period 2"), "period 2");
    assert_eq!(trim_period_text("Periodperiod 2"), "2");
}

#[test]
fn trim_period_text_trims_unicode_white_space() {
    assert_eq!(trim_period_text("\u{3000}5\u{a0}"), "5");
    assert_eq!(trim_period_text("\u{2003}Period\u{2028}6\u{85}"), "6");
}

#[test]
fn trimmed_text_has_no_outer_space() {
    for name in ["  Period  7 ", "period\n8", "\u{205f}A Period\u{202f}"] {
        let t = trim_period_text(name);
        assert_eq!(t, t.trim());
    }
}

#[test]
fn period_list_groups_consecutive_periods() {
    let list = PeriodList::new(&[
        ("Period 1", true),
        ("Period 2", true),
        ("Period 3", false),
        ("Period 4", true),
    ]);
    assert_eq!(
        list,
        PeriodList(EnglishList(vec![
            PeriodGroup::PeriodRange { start: "1".to_string(), end: "2".to_string() },
            PeriodGroup::SinglePeriod("4".to_string()),
        ]))
    );
    assert_eq!(list.to_string(), "1-2 and 4");
}

#[test]
fn period_list_english_forms() {
    assert_eq!(PeriodList::new(&[]).to_string(), "");
    assert_eq!(PeriodList::new(&[("Period 1", false), ("Period 2", false)]).to_string(), "");
    assert_eq!(PeriodList::new(&[("Period 2", true)]).to_string(), "2");
    assert_eq!(
        PeriodList::new(&[
            ("Period 1", true),
            ("Period 2", false),
            ("Period 3", true),
            ("Period 4", false),
            ("Period 5", true),
            ("Period 6", true),
        ])
        .to_string(),
        "1, 3, and 5-6"
    );
    assert_eq!(
        PeriodList::new(&[("A", true), ("B", false), ("C", true), ("D", false), ("E", true), ("F", false), ("G", true)])
            .to_string(),
        "A, C, E, and G"
    );
}

#[test]
fn period_list_every_included_period_in_one_group() {
    let flags = [true, true, true, false, true, false, false, true, true];
    let names = ["1", "2", "3", "4", "5", "6", "7", "8", "9"];
    let pairs: Vec<(&str, bool)> = names.iter().copied().zip(flags.iter().copied()).collect();
    let list = PeriodList::new(&pairs);
    assert_eq!(list.to_string(), "1-3, 5, and 8-9");
    assert_eq!(list.0 .0.len(), 3);
}

#[test]
fn period_group_text() {
    assert_eq!(PeriodGroup::SinglePeriod("3".to_string()).to_text(), "3");
    assert_eq!(
        PeriodGroup::PeriodRange { start: "1".to_string(), end: "4".to_string() }.to_text(),
        "1-4"
    );
}

#[test]
fn topic_path() {
    let t = Topic::from_teacher_and_period("teacher", "period");
    assert_eq!(t.to_string(), "/topics/period.teacher");
}

fn details(kind: NotificationType, comments: Option<&str>) -> NotificationDetails {
    NotificationDetails {
        teacher_name: "Ms. Smith".to_string(),
        topic: Topic::from_teacher_and_period("t", "p"),
        notification_type: kind,
        report_to: "the library".to_string(),
        comments: comments.map(|c| c.to_string()),
    }
}

fn periods_2_to_3() -> PeriodList {
    PeriodList::new(&[("Period 1", false), ("Period 2", true), ("Period 3", true)])
}

#[test]
fn payload_day_start_fully_absent() {
    let p = details(NotificationType::DayStartFullyAbsent, None).build();
    assert_eq!(p.title, "Ms. Smith Absent");
    assert_eq!(
        p.body.as_deref(),
        Some("Ms. Smith is absent today. Check Schoology and report to the library.")
    );
    assert_eq!(p.analytics.as_deref(), Some("day_start_fully_absent"));
    assert_eq!(p.topic.to_string(), "/topics/p.t");
}

#[test]
fn payload_day_start_partially_absent_with_comments() {
    let p = details(
        NotificationType::DayStartPartiallyAbsent { periods: periods_2_to_3() },
        Some("see the sub plan"),
    )
    .build();
    assert_eq!(p.title, "Ms. Smith PARTIALLY Absent");
    assert_eq!(
        p.body.as_deref(),
        Some("Ms. Smith is absent today during period(s) 2-3. YOUR TEACHER HAS LEFT ADDITIONAL COMMENTS IN THE APP. Please also check Schoology.")
    );
    assert_eq!(p.analytics.as_deref(), Some("day_start_partially_absent"));
}

#[test]
fn payload_updates() {
    let p = details(NotificationType::UpdateTeacherFullyAbsent, None).build();
    assert_eq!(p.title, "Ms. Smith Absent");
    assert_eq!(
        p.body.as_deref(),
        Some("Ms. Smith will now be absent for the rest of the day. Check Schoology and report to the library.")
    );
    assert_eq!(p.analytics.as_deref(), Some("update_teacher_fully_absent"));

    let p = details(
        NotificationType::UpdateTeacherPartiallyAbsent { periods: periods_2_to_3() },
        None,
    )
    .build();
    assert_eq!(p.title, "Ms. Smith PARTIALLY Absent");
    assert_eq!(
        p.body.as_deref(),
        Some("Ms. Smith will not be here for period(s) 2-3. Check Schoology and report to the library.")
    );
    assert_eq!(p.analytics.as_deref(), Some("update_teacher_partially_absent"));

    let p = details(NotificationType::UpdateTeacherPresent, Some("x")).build();
    assert_eq!(p.title, "Ms. Smith is Present");
    assert_eq!(p.body.as_deref(), Some("Ms. Smith is back in school"));
    assert_eq!(p.analytics.as_deref(), Some("update_teacher_present"));

    let p = NotificationPayload::from(details(NotificationType::ReminderTeacherBackIn, None));
    assert_eq!(p.title, "Ms. Smith is Present");
    assert_eq!(p.body.as_deref(), Some("Reminder: Ms. Smith is back"));
    assert_eq!(p.analytics.as_deref(), Some("reminder_teacher_back_in"));
}

#[test]
fn analytics_labels_are_distinct() {
    let labels = [
        NotificationType::DayStartFullyAbsent.analytics_label(),
        NotificationType::DayStartPartiallyAbsent { periods: periods_2_to_3() }.analytics_label(),
        NotificationType::UpdateTeacherFullyAbsent.analytics_label(),
        NotificationType::UpdateTeacherPartiallyAbsent { periods: periods_2_to_3() }
            .analytics_label(),
        NotificationType::UpdateTeacherPresent.analytics_label(),
        NotificationType::ReminderTeacherBackIn.analytics_label(),
    ];
    for i in 0..labels.len() {
        for j in 0..labels.len() {
            assert_eq!(i == j, labels[i] == labels[j]);
        }
    }
}

#[test]
fn push_message_fields() {
    let p = details(NotificationType::UpdateTeacherPresent, None).build();
    let m = push_message(&p);
    assert_eq!(m.name.as_deref(), Some("Ms. Smith is Present"));
    assert_eq!(m.title.as_deref(), Some("Ms. Smith is Present"));
    assert_eq!(m.body.as_deref(), Some("Ms. Smith is back in school"));
    assert_eq!(m.analytics_label.as_deref(), Some("update_teacher_present"));
    assert_eq!(m.token.as_deref(), Some("/topics/p.t"));
}

#[test]
fn client_init_err_message() {
    assert_eq!(ClientInitErr.message(), "Client was not initialized yet");
}
