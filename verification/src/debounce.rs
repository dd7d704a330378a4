//! Clearing the chatbox some time after the last notification.
//!
//! After every notification a timer is started. When it runs out, an empty
//! notification wipes the chatbox. A notification that goes out before then
//! cancels the running timer and starts another, so that at any time at most
//! one timer is alive, and the chatbox is wiped only once things have been
//! quiet for the whole delay.

use vstd::prelude::*;
use crate::osc::{chatbox_message, encoded_message, make_msg_buffer};
use crate::storage::Timestamp;

verus! {

/// How long the chatbox keeps a notification: four seconds, in nanoseconds.
pub const CLEAR_DELAY: i128 = 4_000_000_000;

/// A timer that is to wipe the chatbox.
#[derive(Debug, Clone, Copy, PartialEq, Eq, Structural)]
pub struct ClearTask {
    /// Tells this timer from every other.
    pub id: u64,
    /// When the timer was started; it runs out `CLEAR_DELAY` later.
    pub started: Timestamp,
}

/// What is to be done about timers after a notification.
#[derive(Debug, Clone, Copy, PartialEq, Eq, Structural)]
pub struct Rearm {
    /// The timer to stop, if one was running.
    pub cancel: Option<u64>,
    /// The timer to start.
    pub start: ClearTask,
}

/// Keeps track of the one timer that may be alive.
#[derive(Debug, Clone, Copy, PartialEq, Eq, Structural)]
pub struct NotificationDebouncer {
    /// The timer that is alive, if any.
    pub pending: Option<ClearTask>,
    /// The id of the next timer.
    pub next_id: u64,
}

impl NotificationDebouncer {
    /// A debouncer without a timer.
    pub fn new() -> (debouncer: Self)
        ensures
            debouncer == (NotificationDebouncer { pending: None, next_id: 0 }),
    {
        NotificationDebouncer { pending: None, next_id: 0 }
    }

    /// The id that follows `id`; after the largest, ids start over.
    pub open spec fn id_after(id: u64) -> u64 {
        if id == u64::MAX {
            0
        } else {
            (id + 1) as u64
        }
    }

    /// The debouncer after a notification went out at `now`.
    pub open spec fn after_notify(self, now: Timestamp) -> NotificationDebouncer {
        NotificationDebouncer {
            pending: Some(ClearTask { id: self.next_id, started: now }),
            next_id: Self::id_after(self.next_id),
        }
    }

    /// What a notification at `now` asks for.
    pub open spec fn rearm_at(self, now: Timestamp) -> Rearm {
        Rearm {
            cancel: match self.pending {
                Some(task) => Some(task.id),
                None => None,
            },
            start: ClearTask { id: self.next_id, started: now },
        }
    }

    /// Notes that a notification went out at `now`. The timer that is alive is
    /// to be stopped before the new one is started.
    pub fn notify_sent(&mut self, now: Timestamp) -> (rearm: Rearm)
        ensures
            *final(self) == old(self).after_notify(now),
            rearm == old(self).rearm_at(now),
    {
        let cancel: Option<u64> = match self.pending {
            Some(task) => Some(task.id),
            None => None,
        };
        let start = ClearTask { id: self.next_id, started: now };
        self.pending = Some(start);
        self.next_id = if self.next_id == u64::MAX {
            0
        } else {
            self.next_id + 1
        };
        Rearm { cancel, start }
    }

    /// Whether the timer `id` is the one that is alive.
    pub open spec fn is_pending(self, id: u64) -> bool {
        self.pending matches Some(task) && task.id == id
    }

    /// The debouncer after the timer `id` ran out.
    pub open spec fn after_timer(self, id: u64) -> NotificationDebouncer {
        if self.is_pending(id) {
            NotificationDebouncer { pending: None, ..self }
        } else {
            self
        }
    }

    /// Notes that the timer `id` ran out, and says whether the chatbox is to
    /// be wiped now: only the timer that is alive wipes it, and only once.
    pub fn timer_fired(&mut self, id: u64) -> (clear: bool)
        ensures
            clear == old(self).is_pending(id),
            *final(self) == old(self).after_timer(id),
    {
        match self.pending {
            Some(task) => {
                if task.id == id {
                    self.pending = None;
                    true
                } else {
                    false
                }
            },
            None => false,
        }
    }

    /// Two notifications, the second before the timer of the first has run
    /// out, wipe the chatbox once: the second stops the timer of the first,
    /// the timer that is left counts from the second, and of the two timers
    /// only that one wipes the chatbox.
    pub proof fn lemma_second_notification_restarts(self, first: Timestamp, second: Timestamp)
        ensures
            ({
                let one = self.after_notify(first);
                let both = one.after_notify(second);
                let first_id = self.rearm_at(first).start.id;
                let second_id = one.rearm_at(second).start.id;
                &&& one.rearm_at(second).cancel == Some(first_id)
                &&& both.pending == Some(ClearTask { id: second_id, started: second })
                &&& !both.is_pending(first_id)
                &&& both.is_pending(second_id)
                &&& both.after_timer(first_id) == both
                &&& both.after_timer(second_id).pending.is_none()
                &&& !both.after_timer(second_id).is_pending(second_id)
            }),
    {
    }
}

/// The datagram that wipes the chatbox: the notification of the empty text.
pub fn clear_buffer() -> (buffer: Option<Vec<u8>>)
    ensures
        buffer matches Some(bytes) && bytes@ == encoded_message(chatbox_message(Seq::empty())),
{
    make_msg_buffer(String::new())
}

} // verus!
