//! The counters of the service and the rule for when they are written out.

use vstd::prelude::*;

verus! {

/// A point in time: nanoseconds since the Unix epoch.
#[derive(Debug, Clone, Copy, PartialEq, Eq, Structural)]
pub struct Timestamp {
    pub nanoseconds: i128,
}

/// Nanoseconds in a second.
pub const NANOS_PER_SECOND: i128 = 1_000_000_000;

/// The counters are written out when the last writing is longer ago than
/// this: five minutes, in nanoseconds.
pub const SAVE_INTERVAL: i128 = 300_000_000_000;

impl Timestamp {
    /// The point in time `seconds` after the epoch.
    pub fn from_seconds(seconds: i64) -> (t: Self)
        ensures
            t.nanoseconds == seconds * NANOS_PER_SECOND,
    {
        Timestamp { nanoseconds: seconds as i128 * NANOS_PER_SECOND }
    }

    /// Whether this point lies more than `span` nanoseconds after `earlier`.
    pub fn is_later_than(&self, earlier: Timestamp, span: i128) -> (later: bool)
        ensures
            later == (self.nanoseconds > earlier.nanoseconds + span),
    {
        match earlier.nanoseconds.checked_add(span) {
            Some(limit) => self.nanoseconds > limit,
            None => span < 0,
        }
    }
}

/// A day of the calendar.
#[derive(Debug, Clone, Copy, PartialEq, Eq, Structural)]
pub struct CivilDate {
    pub year: i16,
    pub month: i8,
    pub day: i8,
}

/// Reads the clock of the system into a `jiff::Timestamp` and gives the
/// instant together with the day on which it falls in the time zone of the
/// system. Nothing is known of either beforehand. Where the clock shows a time
/// that a `jiff::Timestamp` cannot hold, nothing comes back.
#[verifier::external_body]
pub(crate) fn system_clock() -> (reading: Option<(CivilDate, Timestamp)>) {
    let now = jiff::Timestamp::try_from(std::time::SystemTime::now()).ok()?;
    let date = now.to_zoned(jiff::tz::TimeZone::system()).date();
    let today = CivilDate { year: date.year(), month: date.month(), day: date.day() };
    Some((today, Timestamp { nanoseconds: now.as_nanosecond() }))
}

/// Whether `time` lies on another day than the last reset, which is taken to
/// mean that midnight has passed since.
pub fn time_is_past_midnight(last_reset: CivilDate, time: CivilDate) -> (past: bool)
    ensures
        past == (time != last_reset),
{
    time.year != last_reset.year || time.month != last_reset.month || time.day != last_reset.day
}

/// How often the avatar was booped: in all, today, yesterday, and on the best
/// day so far.
#[derive(Debug, Clone, Copy, PartialEq, Eq, Structural)]
pub struct BoopStorage {
    /// Boops of all time.
    pub total_boops: u64,
    /// Boops since the last reset.
    pub today_boops: u32,
    /// The most boops that any day has seen.
    pub today_boops_record: u32,
    /// Boops of the day before the last reset.
    pub yesterday_boops: u32,
    /// The day on which today's boops were last set to zero.
    pub last_reset: CivilDate,
    /// When the counters were last written out.
    pub last_save: Timestamp,
}

impl BoopStorage {
    /// Counters that start at zero on the day `today`, taken as written out at
    /// `now`.
    pub fn new(today: CivilDate, now: Timestamp) -> (storage: Self)
        ensures
            storage == (BoopStorage {
                total_boops: 0,
                today_boops: 0,
                today_boops_record: 0,
                yesterday_boops: 0,
                last_reset: today,
                last_save: now,
            }),
    {
        BoopStorage {
            total_boops: 0,
            today_boops: 0,
            today_boops_record: 0,
            yesterday_boops: 0,
            last_reset: today,
            last_save: now,
        }
    }

    /// Whether the last writing is more than five minutes before `now`.
    pub open spec fn spec_time_to_save(&self, now: Timestamp) -> bool {
        self.last_save.nanoseconds < now.nanoseconds - SAVE_INTERVAL
    }

    /// Whether the counters are due to be written out.
    #[verifier::when_used_as_spec(spec_time_to_save)]
    pub fn time_to_save(&self, now: Timestamp) -> (due: bool)
        ensures
            due == self.spec_time_to_save(now),
    {
        now.is_later_than(self.last_save, SAVE_INTERVAL)
    }

    /// Notes that the counters were written out at `now`.
    pub fn saved(&mut self, now: Timestamp)
        ensures
            *final(self) == (BoopStorage { last_save: now, ..*old(self) }),
    {
        self.last_save = now;
    }

    /// The counters after the day has changed to `today`: today's boops become
    /// yesterday's.
    pub open spec fn after_reset(self, today: CivilDate) -> BoopStorage {
        if today != self.last_reset {
            BoopStorage {
                yesterday_boops: self.today_boops,
                today_boops: 0,
                last_reset: today,
                ..self
            }
        } else {
            self
        }
    }

    /// Starts a new day if `today` is not the day of the last reset, and says
    /// whether it did; the counters are then to be written out.
    pub fn check_reset(&mut self, today: CivilDate) -> (reset: bool)
        ensures
            reset == (today != old(self).last_reset),
            *final(self) == old(self).after_reset(today),
    {
        if time_is_past_midnight(self.last_reset, today) {
            self.yesterday_boops = self.today_boops;
            self.today_boops = 0;
            self.last_reset = today;
            true
        } else {
            false
        }
    }

    /// Whether one more boop can be counted on the day `today`.
    pub open spec fn spec_has_room(&self, today: CivilDate) -> bool {
        self.total_boops < u64::MAX && self.after_reset(today).today_boops < u32::MAX
    }

    /// Whether one more boop can be counted on the day `today`.
    #[verifier::when_used_as_spec(spec_has_room)]
    pub fn has_room(&self, today: CivilDate) -> (room: bool)
        ensures
            room == self.spec_has_room(today),
    {
        self.total_boops < u64::MAX && (time_is_past_midnight(self.last_reset, today)
            || self.today_boops < u32::MAX)
    }

    /// The counters after one more boop on the day `today`.
    pub open spec fn after_boop(self, today: CivilDate) -> BoopStorage {
        let day = self.after_reset(today);
        let today_boops = (day.today_boops + 1) as u32;
        BoopStorage {
            today_boops,
            total_boops: (day.total_boops + 1) as u64,
            today_boops_record: if today_boops > day.today_boops_record {
                today_boops
            } else {
                day.today_boops_record
            },
            ..day
        }
    }

    /// Counts one boop on the day `today`, and says whether the counters are
    /// to be written out: after a reset, and when the last writing is more
    /// than five minutes before `now`.
    pub fn inc_boops(&mut self, today: CivilDate, now: Timestamp) -> (save: bool)
        requires
            old(self).spec_has_room(today),
        ensures
            *final(self) == old(self).after_boop(today),
            save == (today != old(self).last_reset || old(self).spec_time_to_save(now)),
    {
        let reset: bool = self.check_reset(today);
        self.today_boops += 1;
        self.total_boops += 1;
        if self.today_boops > self.today_boops_record {
            self.today_boops_record = self.today_boops;
        }
        let due: bool = self.time_to_save(now);
        reset || due
    }

    /// Today's boops and the boops of all time.
    pub fn boop_numbers(&self) -> (numbers: (u32, u64))
        ensures
            numbers == (self.today_boops, self.total_boops),
    {
        (self.today_boops, self.total_boops)
    }
}

} // verus!
