//! When the refresh jobs and the pruning are due.
//!
//! Times are counts of one unit, and a period is a count of the same unit.
//! A time that would pass the largest count stays at the largest count.

use vstd::prelude::*;

verus! {

/// `a + b`, or the largest count where the sum is beyond it.
pub open spec fn add_capped(a: u64, b: u64) -> u64 {
    if a + b > u64::MAX {
        u64::MAX
    } else {
        (a + b) as u64
    }
}

/// `a + b`, or the largest count where the sum is beyond it.
pub fn capped_sum(a: u64, b: u64) -> (sum: u64)
    ensures
        sum == add_capped(a, b),
{
    if a > u64::MAX - b {
        u64::MAX
    } else {
        a + b
    }
}

/// How long after `now` the first run is due, for work that last ran at
/// `last_ran_at` on the same clock. The run is due one period after the last
/// one: the delay is the time from `now` to that moment, nothing where the
/// moment has come or passed, and the largest count where it is further away
/// than can be counted. Where the last run lies after `now`, the first run
/// is a period after it as everywhere, and so at least a period away. Work
/// that never ran is due at once.
pub open spec fn first_delay(last_ran_at: Option<u64>, now: u64, period: u64) -> u64 {
    match last_ran_at {
        Some(last) => if last + period <= now {
            0
        } else if last + period - now > u64::MAX {
            u64::MAX
        } else {
            (last + period - now) as u64
        },
        None => 0,
    }
}

/// When a timer that was due at `due` and fires at `now` is due next: a
/// period after `due` where that is still to come, else a period after `now`.
pub open spec fn next_due(due: u64, now: u64, period: u64) -> u64 {
    if due + period > now {
        add_capped(due, period)
    } else {
        add_capped(now, period)
    }
}

/// A timer that fires once every period.
#[derive(Clone, Copy, Debug)]
pub struct Timer {
    /// The time between two firings.
    pub period: u64,
    /// When the timer fires next.
    pub due: u64,
}

/// The timer of work that last ran at `last_ran_at` by the wall clock, which
/// now shows `wall_now`, started when the clock of the timer shows `now`.
pub fn interval(last_ran_at: Option<u64>, wall_now: u64, now: u64, period: u64) -> (timer: Timer)
    ensures
        timer.period == period,
        timer.due == add_capped(now, first_delay(last_ran_at, wall_now, period)),
{
    let delay: u64 = match last_ran_at {
        Some(last) => if last > wall_now {
            capped_sum(period, last - wall_now)
        } else if wall_now - last < period {
            period - (wall_now - last)
        } else {
            0
        },
        None => 0,
    };
    Timer { period, due: capped_sum(now, delay) }
}

impl Timer {
    /// Whether the timer fires at `now`.
    pub open spec fn is_due(self, now: u64) -> bool {
        now >= self.due
    }

    /// The timer after it was asked at `now`: wound on where it was due,
    /// untouched where it was not.
    pub open spec fn after(self, now: u64) -> Timer {
        if self.is_due(now) {
            Timer { period: self.period, due: next_due(self.due, now, self.period) }
        } else {
            self
        }
    }

    /// Asks the timer at `now`. Where it is due it fires, once for all the
    /// periods that have passed, and is wound on.
    pub fn fire(&mut self, now: u64) -> (fired: bool)
        ensures
            fired == old(self).is_due(now),
            *final(self) == old(self).after(now),
    {
        if now < self.due {
            return false;
        }
        let in_step = capped_sum(self.due, self.period);
        if in_step > now {
            self.due = in_step;
        } else {
            self.due = capped_sum(now, self.period);
        }
        true
    }
}

/// The refresh of one dataset: its timer, and whether a job is under way.
#[derive(Clone, Copy, Debug)]
pub struct Refresh {
    /// When the next job is due.
    pub timer: Timer,
    /// Whether the dataset is refreshed at all.
    pub enabled: bool,
    /// Whether a job was started and has not finished.
    pub running: bool,
}

impl Refresh {
    /// The refresh of a dataset with no job under way.
    pub fn new(timer: Timer, enabled: bool) -> (refresh: Refresh)
        ensures
            refresh == (Refresh { timer, enabled, running: false }),
    {
        Refresh { timer, enabled, running: false }
    }

    /// The refresh of a dataset that is fetched from `source`, with no job
    /// under way. A dataset without a source, an empty text, is never
    /// refreshed.
    pub fn from_source(timer: Timer, source: &str) -> (refresh: Refresh)
        ensures
            refresh == (Refresh { timer, enabled: source@.len() > 0, running: false }),
    {
        Refresh { timer, enabled: !source.is_empty(), running: false }
    }

    /// Whether a job is to be started at `now`: the dataset is refreshed, no
    /// job is under way and the timer is due.
    pub open spec fn starts(self, now: u64) -> bool {
        self.enabled && !self.running && self.timer.is_due(now)
    }

    /// The refresh after it was asked at `now`.
    pub open spec fn after_poll(self, now: u64) -> Refresh {
        if self.starts(now) {
            Refresh { timer: self.timer.after(now), enabled: self.enabled, running: true }
        } else {
            self
        }
    }

    /// The refresh after its job has finished.
    pub open spec fn after_job(self) -> Refresh {
        Refresh { timer: self.timer, enabled: self.enabled, running: false }
    }

    /// Asks at `now` whether a job is to be started, and takes it as started
    /// where the answer is yes. While a job is under way, or where the
    /// dataset is not refreshed, nothing is started and nothing changes.
    pub fn poll(&mut self, now: u64) -> (start: bool)
        ensures
            start == old(self).starts(now),
            *final(self) == old(self).after_poll(now),
    {
        if !self.enabled || self.running {
            return false;
        }
        if self.timer.fire(now) {
            self.running = true;
            true
        } else {
            false
        }
    }

    /// Takes the job as finished. The answer is whether the dataset is to be
    /// read anew: a job was under way and it succeeded.
    pub fn job_finished(&mut self, succeeded: bool) -> (reload: bool)
        ensures
            reload == (old(self).running && succeeded),
            *final(self) == old(self).after_job(),
    {
        let reload = self.running && succeeded;
        self.running = false;
        reload
    }

    /// When the refresh wants to be asked next: when its timer is due, where
    /// a job can be started at all.
    pub fn wakeup(&self) -> (at: Option<u64>)
        ensures
            at == if self.enabled && !self.running {
                Some(self.timer.due)
            } else {
                None::<u64>
            },
    {
        if self.enabled && !self.running {
            Some(self.timer.due)
        } else {
            None
        }
    }
}

/// Work that last ran `age` ago is first due when the rest of its period has
/// passed, where `age` is less than a period, and at once where it is a
/// period or more.
pub proof fn first_run_waits_for_the_rest_of_the_period(last_ran_at: u64, age: u64, period: u64)
    requires
        last_ran_at + age <= u64::MAX,
    ensures
        first_delay(Some(last_ran_at), (last_ran_at + age) as u64, period) == if age < period {
            period - age
        } else {
            0
        },
{
}

/// The first run is due one period after the last run, or at once where that
/// moment has passed, also where the last run lies after `now`.
pub proof fn first_run_is_a_period_after_the_last(last_ran_at: u64, now: u64, period: u64)
    requires
        last_ran_at + period <= u64::MAX,
    ensures
        now + first_delay(Some(last_ran_at), now, period) == if last_ran_at + period > now {
            last_ran_at + period
        } else {
            now as int
        },
{
}

/// Where the last run does not lie after `now`, the first run is never
/// further away than one period.
pub proof fn first_run_is_within_a_period(last_ran_at: Option<u64>, now: u64, period: u64)
    requires
        last_ran_at matches Some(last) ==> last <= now,
    ensures
        first_delay(last_ran_at, now, period) <= period,
{
}

/// Where the last run lies after `now`, the first run is more than a period
/// away.
pub proof fn first_run_after_a_later_last_run(last_ran_at: u64, now: u64, period: u64)
    requires
        last_ran_at > now,
    ensures
        first_delay(Some(last_ran_at), now, period) == add_capped(
            period,
            (last_ran_at - now) as u64,
        ),
        first_delay(Some(last_ran_at), now, period) >= period,
        first_delay(Some(last_ran_at), now, period) > 0,
{
}

/// A timer that fires is wound on past the time at which it fired, by no
/// more than one period: however many periods were missed, it fires once.
pub proof fn timer_fires_once(timer: Timer, now: u64)
    requires
        timer.is_due(now),
        timer.period > 0,
        now + timer.period <= u64::MAX,
    ensures
        !timer.after(now).is_due(now),
        now < timer.after(now).due <= now + timer.period,
        timer.due + timer.period > now ==> timer.after(now).due == timer.due + timer.period,
{
}

/// While a job is under way no other is started, whatever the time.
pub proof fn one_job_at_a_time(refresh: Refresh, now: u64, later: u64)
    ensures
        refresh.after_poll(now).running ==> !refresh.after_poll(now).starts(later),
        refresh.running ==> refresh.after_poll(now) == refresh,
{
}

/// A dataset that is not refreshed never has a job started.
pub proof fn refresh_that_is_off_stays_idle(refresh: Refresh, now: u64)
    requires
        !refresh.enabled,
    ensures
        !refresh.starts(now),
        refresh.after_poll(now) == refresh,
{
}

} // verus!
