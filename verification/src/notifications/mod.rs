pub mod client_manager;
pub mod payload;
pub mod utils;

use vstd::prelude::*;

use self::utils::{PeriodGroupView, PeriodList};

pub use self::client_manager::ClientInitErr;
pub use self::payload::{NotificationDetails, NotificationPayload, Topic};

verus! {

/// What a notification tells its subscribers.
#[derive(Debug, Clone, PartialEq, Eq)]
pub enum NotificationType {
    DayStartFullyAbsent,
    DayStartPartiallyAbsent { periods: PeriodList },
    UpdateTeacherFullyAbsent,
    UpdateTeacherPartiallyAbsent { periods: PeriodList },
    UpdateTeacherPresent,
    ReminderTeacherBackIn,
}

/// A [`NotificationType`], with the period groups it names.
pub enum NotificationTypeView {
    DayStartFullyAbsent,
    DayStartPartiallyAbsent { periods: Seq<PeriodGroupView> },
    UpdateTeacherFullyAbsent,
    UpdateTeacherPartiallyAbsent { periods: Seq<PeriodGroupView> },
    UpdateTeacherPresent,
    ReminderTeacherBackIn,
}

impl View for NotificationType {
    type V = NotificationTypeView;

    open spec fn view(&self) -> NotificationTypeView {
        match self {
            NotificationType::DayStartFullyAbsent => NotificationTypeView::DayStartFullyAbsent,
            NotificationType::DayStartPartiallyAbsent { periods } =>
                NotificationTypeView::DayStartPartiallyAbsent { periods: periods@ },
            NotificationType::UpdateTeacherFullyAbsent =>
                NotificationTypeView::UpdateTeacherFullyAbsent,
            NotificationType::UpdateTeacherPartiallyAbsent { periods } =>
                NotificationTypeView::UpdateTeacherPartiallyAbsent { periods: periods@ },
            NotificationType::UpdateTeacherPresent => NotificationTypeView::UpdateTeacherPresent,
            NotificationType::ReminderTeacherBackIn => NotificationTypeView::ReminderTeacherBackIn,
        }
    }
}

/// The analytics label of each kind of notification.
pub open spec fn analytics_label_of(t: NotificationTypeView) -> Seq<char> {
    match t {
        NotificationTypeView::DayStartFullyAbsent => "day_start_fully_absent"@,
        NotificationTypeView::DayStartPartiallyAbsent { .. } => "day_start_partially_absent"@,
        NotificationTypeView::UpdateTeacherFullyAbsent => "update_teacher_fully_absent"@,
        NotificationTypeView::UpdateTeacherPartiallyAbsent { .. } =>
            "update_teacher_partially_absent"@,
        NotificationTypeView::UpdateTeacherPresent => "update_teacher_present"@,
        NotificationTypeView::ReminderTeacherBackIn => "reminder_teacher_back_in"@,
    }
}

/// Each kind of notification has its own analytics label.
pub proof fn lemma_analytics_labels_distinct(a: NotificationTypeView, b: NotificationTypeView)
    requires
        analytics_label_of(a) == analytics_label_of(b),
    ensures
        a is DayStartFullyAbsent <==> b is DayStartFullyAbsent,
        a is DayStartPartiallyAbsent <==> b is DayStartPartiallyAbsent,
        a is UpdateTeacherFullyAbsent <==> b is UpdateTeacherFullyAbsent,
        a is UpdateTeacherPartiallyAbsent <==> b is UpdateTeacherPartiallyAbsent,
        a is UpdateTeacherPresent <==> b is UpdateTeacherPresent,
        a is ReminderTeacherBackIn <==> b is ReminderTeacherBackIn,
{
    reveal_strlit("day_start_fully_absent");
    reveal_strlit("day_start_partially_absent");
    reveal_strlit("update_teacher_fully_absent");
    reveal_strlit("update_teacher_partially_absent");
    reveal_strlit("update_teacher_present");
    reveal_strlit("reminder_teacher_back_in");
    let la = analytics_label_of(a);
    let lb = analytics_label_of(b);
    assert(la.len() == lb.len());
    assert(la[0] == lb[0]);
    assert(la[7] == lb[7]);
    assert(la[15] == lb[15]);
}

impl NotificationType {
    /// The label under which the notification is counted in analytics.
    pub fn analytics_label(&self) -> (r: &'static str)
        ensures
            r@ == analytics_label_of(self@),
    {
        match self {
            NotificationType::DayStartFullyAbsent => "day_start_fully_absent",
            NotificationType::DayStartPartiallyAbsent { .. } => "day_start_partially_absent",
            NotificationType::UpdateTeacherFullyAbsent => "update_teacher_fully_absent",
            NotificationType::UpdateTeacherPartiallyAbsent { .. } =>
                "update_teacher_partially_absent",
            NotificationType::UpdateTeacherPresent => "update_teacher_present",
            NotificationType::ReminderTeacherBackIn => "reminder_teacher_back_in",
        }
    }
}

/// The fields of the push message that carries a notification: the title
/// doubles as the message name, the topic path is the target token.
pub struct PushMessage {
    pub name: Option<String>,
    pub title: Option<String>,
    pub body: Option<String>,
    pub analytics_label: Option<String>,
    pub token: Option<String>,
}

/// The message sent for `payload`.
pub fn push_message(payload: &NotificationPayload) -> (m: PushMessage)
    ensures
        m.name matches Some(n) && n@ == payload.title@,
        m.title matches Some(t) && t@ == payload.title@,
        m.body matches Some(b) ==> payload.body matches Some(pb) && b@ == pb@,
        m.body is None <==> payload.body is None,
        m.analytics_label matches Some(a) ==> payload.analytics matches Some(pa) && a@ == pa@,
        m.analytics_label is None <==> payload.analytics is None,
        m.token matches Some(t) && t@ == payload.topic.path(),
{
    let body = match &payload.body {
        Some(b) => Some(b.clone()),
        None => None,
    };
    let analytics_label = match &payload.analytics {
        Some(a) => Some(a.clone()),
        None => None,
    };
    PushMessage {
        name: Some(payload.title.clone()),
        title: Some(payload.title.clone()),
        body,
        analytics_label,
        token: Some(payload.topic.to_string()),
    }
}

} // verus!
