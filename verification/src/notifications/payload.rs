use vstd::prelude::*;

use super::utils::groups_text;
use super::{NotificationType, NotificationTypeView, analytics_label_of};

verus! {

/// A push topic: the subscribers of one teacher in one period.
#[derive(Debug, Clone)]
pub struct Topic(String);

impl View for Topic {
    type V = Seq<char>;

    closed spec fn view(&self) -> Seq<char> {
        self.0@
    }
}

impl Topic {
    /// The topic of `teacher` in `period`, named "period.teacher".
    pub fn from_teacher_and_period(teacher: &str, period: &str) -> (t: Self)
        ensures
            t@ == period@ + "."@ + teacher@,
    {
        let mut s = period.to_owned();
        s.append(".");
        s.append(teacher);
        Topic(s)
    }

    /// The topic's path as the push service names it.
    pub open spec fn path(&self) -> Seq<char> {
        "/topics/"@ + self@
    }

    /// The topic's path, such as "/topics/period.teacher".
    pub fn to_string(&self) -> (s: String)
        ensures
            s@ == self.path(),
    {
        let mut s = "/topics/".to_owned();
        s.append(self.0.as_str());
        s
    }
}

/// What a notification is about, before it is worded.
#[derive(Debug, Clone)]
pub struct NotificationDetails {
    pub teacher_name: String,
    pub topic: Topic,
    pub notification_type: NotificationType,
    pub report_to: String,
    pub comments: Option<String>,
}

/// What a [`NotificationDetails`] holds, as text.
pub struct NotificationDetailsView {
    pub teacher_name: Seq<char>,
    pub topic: Seq<char>,
    pub notification_type: NotificationTypeView,
    pub report_to: Seq<char>,
    pub comments: Option<Seq<char>>,
}

impl View for NotificationDetails {
    type V = NotificationDetailsView;

    open spec fn view(&self) -> NotificationDetailsView {
        NotificationDetailsView {
            teacher_name: self.teacher_name@,
            topic: self.topic@,
            notification_type: self.notification_type@,
            report_to: self.report_to@,
            comments: match self.comments {
                Some(c) => Some(c@),
                None => None,
            },
        }
    }
}

/// A worded notification, ready to send.
#[derive(Debug)]
pub struct NotificationPayload {
    pub topic: Topic,
    pub title: String,
    pub body: Option<String>,
    pub analytics: Option<String>,
}

/// Whether a notification of this kind announces an absence.
pub open spec fn announces_absence(t: NotificationTypeView) -> bool {
    match t {
        NotificationTypeView::DayStartFullyAbsent => true,
        NotificationTypeView::DayStartPartiallyAbsent { .. } => true,
        NotificationTypeView::UpdateTeacherFullyAbsent => true,
        NotificationTypeView::UpdateTeacherPartiallyAbsent { .. } => true,
        _ => false,
    }
}

/// The first sentence of the body.
pub open spec fn body_lead(t: NotificationTypeView, name: Seq<char>) -> Seq<char> {
    match t {
        NotificationTypeView::DayStartFullyAbsent => name + " is absent today"@,
        NotificationTypeView::DayStartPartiallyAbsent { periods } => name
            + " is absent today during period(s) "@ + groups_text(periods),
        NotificationTypeView::UpdateTeacherFullyAbsent => name
            + " will now be absent for the rest of the day"@,
        NotificationTypeView::UpdateTeacherPartiallyAbsent { periods } => name
            + " will not be here for period(s) "@ + groups_text(periods),
        NotificationTypeView::UpdateTeacherPresent => name + " is back in school"@,
        NotificationTypeView::ReminderTeacherBackIn => "Reminder: "@ + name + " is back"@,
    }
}

/// What follows the first sentence: for an absence, where to look and
/// where to go; nothing otherwise.
pub open spec fn body_tail(
    t: NotificationTypeView,
    report_to: Seq<char>,
    has_comments: bool,
) -> Seq<char> {
    if !announces_absence(t) {
        seq![]
    } else if has_comments {
        ". YOUR TEACHER HAS LEFT ADDITIONAL COMMENTS IN THE APP. Please also check Schoology."@
    } else {
        ". Check Schoology and report to "@ + report_to + "."@
    }
}

/// The title of a notification.
pub open spec fn title_of(t: NotificationTypeView, name: Seq<char>) -> Seq<char> {
    match t {
        NotificationTypeView::DayStartFullyAbsent => name + " Absent"@,
        NotificationTypeView::UpdateTeacherFullyAbsent => name + " Absent"@,
        NotificationTypeView::DayStartPartiallyAbsent { .. } => name + " PARTIALLY Absent"@,
        NotificationTypeView::UpdateTeacherPartiallyAbsent { .. } => name
            + " PARTIALLY Absent"@,
        _ => name + " is Present"@,
    }
}

/// Every notification that announces an absence (at the start of the day or
/// as an update, full or partial) ends by pointing to the teacher's
/// comments when there are some, and otherwise to Schoology and the place
/// to report to; the other kinds add nothing after their first sentence.
pub proof fn lemma_absence_notice_endings(
    t: NotificationTypeView,
    name: Seq<char>,
    report_to: Seq<char>,
    has_comments: bool,
)
    ensures
        ({
            let body = body_lead(t, name) + body_tail(t, report_to, has_comments);
            let absence = t is DayStartFullyAbsent || t is DayStartPartiallyAbsent
                || t is UpdateTeacherFullyAbsent || t is UpdateTeacherPartiallyAbsent;
            &&& absence && has_comments ==> ". YOUR TEACHER HAS LEFT ADDITIONAL COMMENTS IN THE APP. Please also check Schoology."@.is_suffix_of(
                body,
            )
            &&& absence && !has_comments ==> (". Check Schoology and report to "@ + report_to
                + "."@).is_suffix_of(body)
            &&& !absence ==> body == body_lead(t, name)
        }),
{
    let lead = body_lead(t, name);
    let tail = body_tail(t, report_to, has_comments);
    let body = lead + tail;
    assert(body.subrange(lead.len() as int, body.len() as int) =~= tail);
    assert(body.subrange(body.len() - tail.len(), body.len() as int) =~= tail);
    if !announces_absence(t) {
        assert(body =~= lead);
    }
}

/// A notification's title starts with the teacher's name, and so does its
/// body unless it is a reminder, whose body starts "Reminder: " and then
/// names the teacher.
pub proof fn lemma_notice_names_teacher(
    t: NotificationTypeView,
    name: Seq<char>,
    report_to: Seq<char>,
    has_comments: bool,
)
    ensures
        name.is_prefix_of(title_of(t, name)),
        !(t is ReminderTeacherBackIn) ==> name.is_prefix_of(
            body_lead(t, name) + body_tail(t, report_to, has_comments),
        ),
        t is ReminderTeacherBackIn ==> ("Reminder: "@ + name).is_prefix_of(
            body_lead(t, name) + body_tail(t, report_to, has_comments),
        ),
{
    let body = body_lead(t, name) + body_tail(t, report_to, has_comments);
    assert(title_of(t, name).subrange(0, name.len() as int) =~= name);
    if t is ReminderTeacherBackIn {
        assert(body.subrange(0, ("Reminder: "@ + name).len() as int) =~= "Reminder: "@ + name);
    } else {
        assert(body.subrange(0, name.len() as int) =~= name);
    }
}

impl NotificationDetails {
    /// Words the notification.
    pub fn build(self) -> (p: NotificationPayload)
        ensures
            p.topic@ == self.topic@,
            p.title@ == title_of(self.notification_type@, self.teacher_name@),
            p.body matches Some(b) && b@ == body_lead(self.notification_type@, self.teacher_name@)
                + body_tail(
                self.notification_type@,
                self.report_to@,
                self.comments is Some,
            ),
            p.analytics matches Some(a) && a@ == analytics_label_of(self.notification_type@),
    {
        NotificationPayload::from(self)
    }
}

fn named(name: &String, text: &str) -> (s: String)
    ensures
        s@ == name@ + text@,
{
    let mut s = name.clone();
    s.append(text);
    s
}

impl NotificationPayload {
    /// Words the notification `value`.
    pub fn from(value: NotificationDetails) -> (p: Self)
        ensures
            p.topic@ == value.topic@,
            p.title@ == title_of(value.notification_type@, value.teacher_name@),
            p.body matches Some(b) && b@ == body_lead(value.notification_type@, value.teacher_name@)
                + body_tail(
                value.notification_type@,
                value.report_to@,
                value.comments is Some,
            ),
            p.analytics matches Some(a) && a@ == analytics_label_of(value.notification_type@),
    {
        let name = &value.teacher_name;
        let mut body = match &value.notification_type {
            NotificationType::DayStartFullyAbsent => named(name, " is absent today"),
            NotificationType::DayStartPartiallyAbsent { periods } => {
                let mut s = named(name, " is absent today during period(s) ");
                let list = periods.to_string();
                s.append(list.as_str());
                s
            },
            NotificationType::UpdateTeacherFullyAbsent => named(
                name,
                " will now be absent for the rest of the day",
            ),
            NotificationType::UpdateTeacherPartiallyAbsent { periods } => {
                let mut s = named(name, " will not be here for period(s) ");
                let list = periods.to_string();
                s.append(list.as_str());
                s
            },
            NotificationType::UpdateTeacherPresent => named(name, " is back in school"),
            NotificationType::ReminderTeacherBackIn => {
                let mut s = "Reminder: ".to_owned();
                s.append(name.as_str());
                s.append(" is back");
                s
            },
        };
        let ghost lead = body@;
        let absence = match &value.notification_type {
            NotificationType::DayStartFullyAbsent => true,
            NotificationType::DayStartPartiallyAbsent { .. } => true,
            NotificationType::UpdateTeacherFullyAbsent => true,
            NotificationType::UpdateTeacherPartiallyAbsent { .. } => true,
            _ => false,
        };
        if absence {
            if value.comments.is_some() {
                body.append(
                    ". YOUR TEACHER HAS LEFT ADDITIONAL COMMENTS IN THE APP. Please also check Schoology.",
                );
            } else {
                body.append(". Check Schoology and report to ");
                body.append(value.report_to.as_str());
                body.append(".");
            }
        }
        assert(body@ =~= lead + body_tail(
            value.notification_type@,
            value.report_to@,
            value.comments is Some,
        ));
        let title = match &value.notification_type {
            NotificationType::DayStartFullyAbsent => named(name, " Absent"),
            NotificationType::UpdateTeacherFullyAbsent => named(name, " Absent"),
            NotificationType::DayStartPartiallyAbsent { .. } => named(name, " PARTIALLY Absent"),
            NotificationType::UpdateTeacherPartiallyAbsent { .. } => named(
                name,
                " PARTIALLY Absent",
            ),
            _ => named(name, " is Present"),
        };
        let label = value.notification_type.analytics_label().to_owned();
        NotificationPayload {
            topic: value.topic,
            title,
            body: Some(body),
            analytics: Some(label),
        }
    }
}

} // verus!
