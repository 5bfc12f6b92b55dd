//! Decision logic of a school absence notifier: which teachers are absent,
//! which period is running, and which push notifications go out, with the
//! text of each notification.
pub mod id_map;
pub mod ids;
pub mod schedule;
pub mod status_loop;
pub mod notifications;
