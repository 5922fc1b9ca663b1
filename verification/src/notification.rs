use vstd::prelude::*;
use std::time::{Duration, Instant};

verus! {

/// A point on the machine's monotonic clock. Nothing is known of it here:
/// a notification only keeps the one it was created at.
#[verifier::external_type_specification]
#[verifier::external_body]
pub struct ExInstant(Instant);

/// `Instant::now` reads the clock, so nothing is promised of what it
/// returns.
pub assume_specification[ Instant::now ]() -> (now: Instant);

/// `Instant::elapsed` measures against the clock at the time of the call,
/// so nothing is promised of what it returns.
pub assume_specification[ Instant::elapsed ](start: &Instant) -> (elapsed: Duration);

/// `Duration::as_millis` gives the whole milliseconds of a duration, which
/// this library cannot look into, so nothing is promised of the number.
pub assume_specification[ Duration::as_millis ](duration: &Duration) -> (millis: u128);

/// How long a notification stays up, in milliseconds.
pub const NOTIFICATION_MILLIS: u64 = 3000;

/// A one-line message shown for a short time.
pub struct Notification {
    pub message: String,
    pub created_at: Instant,
    /// The time the message stays up, in milliseconds.
    pub duration: u64,
}

impl Notification {
    /// A notification created at the reading `now` of the clock, to stay up
    /// for three seconds.
    pub fn created(message: String, now: Instant) -> (notification: Self)
        ensures
            notification.message == message,
            notification.created_at == now,
            notification.duration == NOTIFICATION_MILLIS,
    {
        Notification { message, created_at: now, duration: NOTIFICATION_MILLIS }
    }

    /// A notification created now, to stay up for three seconds: `created`
    /// with the clock's reading, whatever it is.
    pub fn new(message: String) -> (notification: Self)
        ensures
            notification.message == message,
            notification.duration == NOTIFICATION_MILLIS,
    {
        Notification::created(message, Instant::now())
    }

    /// Whether a notification that has been up for `elapsed_millis` is due
    /// to go.
    pub open spec fn expired_after(self, elapsed_millis: int) -> bool {
        elapsed_millis >= self.duration
    }

    /// Whether the notification, `elapsed_millis` after its creation, is
    /// due to go.
    pub fn is_expired_after(&self, elapsed_millis: u128) -> (expired: bool)
        ensures
            expired == self.expired_after(elapsed_millis as int),
    {
        elapsed_millis >= self.duration as u128
    }

    /// Whether the notification is due to go by the clock as it stands:
    /// `is_expired_after` of the time since its creation.
    pub fn is_expired(&self) -> (expired: bool)
        ensures
            exists|elapsed_millis: int|
                0 <= elapsed_millis && expired == #[trigger] self.expired_after(elapsed_millis),
    {
        let elapsed = self.created_at.elapsed();
        let millis = elapsed.as_millis();
        let expired = self.is_expired_after(millis);
        assert(expired == self.expired_after(millis as int));
        expired
    }
}

} // verus!
