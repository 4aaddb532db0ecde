//! The request rules: what a datagram is answered with, and the upkeep that
//! runs between requests.
//!
//! The dispatcher owns the data that requests are answered from. Whoever runs
//! it owns the socket, the clocks and the jobs: it hands in each datagram and
//! each passing of time, and carries out what is handed back.

use crate::normalize::{normalize_string, normalized};
use crate::schedule::{Refresh, Timer};
use crate::text::{same_text, utf8_text};
use crate::timezone::{Model, Timezone, TimezoneDb, Zone};
use crate::tracker::{accepts, recent_only, ClientIp, ClientTracker};
use vstd::prelude::*;
use vstd::string::StringExecFns;
use vstd::utf8::{decode_utf8, encode_utf8, encode_utf8_decode_utf8, valid_utf8};

verus! {

/// The size of the receive buffer. A datagram that fills it may have been cut
/// short and is not answered.
pub const MAX_REQUEST_SIZE: usize = 512;

pub const ERR_TIMEZONE_NOT_FOUND: &'static str = "ERROR Timezone Not Found";

pub const ERR_GEOIP_LOOKUP_FAILED: &'static str = "ERROR GeoIP Lookup Failed";

pub const ERR_COUNTRY_NOT_FOUND: &'static str = "ERROR Country Not Found";

pub const ERR_COUNTRY_SPANS_MULTIPLE_TIMEZONES: &'static str = "ERROR Country Spans Multiple Timezones";

/// The answer that names a timezone: `OK`, the Olson name as the source
/// spells it, and the POSIX rule.
pub open spec fn ok_line(zone: Zone) -> Seq<char> {
    "OK "@ + zone.olson + " "@ + zone.posix
}

/// The answer to a country code in normal form.
pub open spec fn country_reply(index: Model, code: Seq<char>) -> Seq<char> {
    match index.find_country(code) {
        None => ERR_COUNTRY_NOT_FOUND@,
        Some(zones) => if zones.len() == 1 {
            ok_line(zones[0])
        } else {
            ERR_COUNTRY_SPANS_MULTIPLE_TIMEZONES@
        },
    }
}

/// The answer to an Olson name in normal form.
pub open spec fn olson_reply(index: Model, name: Seq<char>) -> Seq<char> {
    match index.find_olson(name) {
        None => ERR_TIMEZONE_NOT_FOUND@,
        Some(zone) => ok_line(zone),
    }
}

/// The answer to a `GEOIP` request, given the name that the resolver found
/// for the address of the client, if it found one.
pub open spec fn geoip_reply(index: Model, found: Option<Seq<char>>) -> Seq<char> {
    match found {
        None => ERR_GEOIP_LOOKUP_FAILED@,
        Some(name) => match index.find_olson(normalized(name)) {
            None => ERR_GEOIP_LOOKUP_FAILED@,
            Some(zone) => ok_line(zone),
        },
    }
}

/// What a request asks for.
#[derive(Clone, Copy, Debug, PartialEq, Eq, Structural)]
pub enum Route {
    /// The timezone of a country.
    Country,
    /// The timezone at the address of the client.
    GeoIp,
    /// The timezone of a name.
    Olson,
}

/// What a request in normal form asks for: a country where it is two bytes
/// long, the address of the client where it reads `GEOIP`, else a name.
pub open spec fn route_of(request: Seq<char>) -> Route {
    if encode_utf8(request).len() == 2 {
        Route::Country
    } else if request == "GEOIP"@ {
        Route::GeoIp
    } else {
        Route::Olson
    }
}

/// What is done about a datagram.
#[derive(Debug)]
pub enum Verdict {
    /// Nothing is sent.
    Ignore,
    /// The text is sent to the client.
    Reply(String),
    /// The address of the client is to be resolved to a timezone name, and
    /// the client is sent what `Dispatcher::geoip_reply` makes of the result.
    Resolve,
}

/// What a `Verdict` holds, as plain text.
pub enum Ruling {
    Ignore,
    Reply(Seq<char>),
    Resolve,
}

impl View for Verdict {
    type V = Ruling;

    open spec fn view(&self) -> Ruling {
        match self {
            Verdict::Ignore => Ruling::Ignore,
            Verdict::Reply(text) => Ruling::Reply(text@),
            Verdict::Resolve => Ruling::Resolve,
        }
    }
}

/// What is done about a request in normal form. A `GEOIP` request is passed
/// on to the resolver where there is one, and fails where there is none.
pub open spec fn answer_to(index: Model, has_resolver: bool, request: Seq<char>) -> Ruling {
    match route_of(request) {
        Route::Country => Ruling::Reply(country_reply(index, request)),
        Route::GeoIp => if has_resolver {
            Ruling::Resolve
        } else {
            Ruling::Reply(ERR_GEOIP_LOOKUP_FAILED@)
        },
        Route::Olson => Ruling::Reply(olson_reply(index, request)),
    }
}

/// What is done about the payload of a datagram from a client that is let
/// in: nothing where it is not UTF-8, else what its normal form asks for.
pub open spec fn ruling_on(index: Model, has_resolver: bool, payload: Seq<u8>) -> Ruling {
    if valid_utf8(payload) {
        answer_to(index, has_resolver, normalized(decode_utf8(payload)))
    } else {
        Ruling::Ignore
    }
}

/// The answer that names the timezone `tz`.
pub fn ok(tz: &Timezone) -> (line: String)
    ensures
        line@ == ok_line(tz@),
{
    let mut line = String::from_str("OK ");
    line.append(tz.olson.as_str());
    line.append(" ");
    line.append(tz.posix.as_str());
    line
}

/// What a request in normal form asks for.
pub fn route(request: &str) -> (r: Route)
    ensures
        r == route_of(request@),
{
    if request.as_bytes().len() == 2 {
        Route::Country
    } else if same_text(request, "GEOIP") {
        Route::GeoIp
    } else {
        Route::Olson
    }
}

/// The answer to a country code in normal form: the timezone of the country
/// where it has exactly one, else which of the two failures it is.
pub fn answer_country(index: &TimezoneDb, code: &str) -> (reply: String)
    ensures
        reply@ == country_reply(index@, code@),
{
    match index.lookup_country(code) {
        Some(tzs) => {
            if tzs.len() == 1 {
                ok(tzs[0])
            } else {
                String::from_str(ERR_COUNTRY_SPANS_MULTIPLE_TIMEZONES)
            }
        },
        None => String::from_str(ERR_COUNTRY_NOT_FOUND),
    }
}

/// The answer to an Olson name in normal form.
pub fn answer_olson(index: &TimezoneDb, name: &str) -> (reply: String)
    ensures
        reply@ == olson_reply(index@, name@),
{
    match index.lookup_olson(name) {
        Some(tz) => ok(tz),
        None => String::from_str(ERR_TIMEZONE_NOT_FOUND),
    }
}

/// The answer to a `GEOIP` request, given the name that the resolver found
/// for the address of the client, if it found one. The name is brought into
/// normal form and looked up; a miss at either step is the same failure.
pub fn answer_geoip(index: &TimezoneDb, found: Option<&str>) -> (reply: String)
    ensures
        reply@ == geoip_reply(
            index@,
            match found {
                Some(name) => Some(name@),
                None => None,
            },
        ),
{
    match found {
        Some(name) => {
            let key = normalize_string(name);
            match index.lookup_olson(key.as_str()) {
                Some(tz) => ok(tz),
                None => String::from_str(ERR_GEOIP_LOOKUP_FAILED),
            }
        },
        None => String::from_str(ERR_GEOIP_LOOKUP_FAILED),
    }
}

/// What is done about a request in normal form.
pub fn answer(index: &TimezoneDb, has_resolver: bool, request: &str) -> (verdict: Verdict)
    ensures
        verdict@ == answer_to(index@, has_resolver, request@),
{
    match route(request) {
        Route::Country => Verdict::Reply(answer_country(index, request)),
        Route::GeoIp => {
            if has_resolver {
                Verdict::Resolve
            } else {
                Verdict::Reply(String::from_str(ERR_GEOIP_LOOKUP_FAILED))
            }
        },
        Route::Olson => Verdict::Reply(answer_olson(index, request)),
    }
}

/// What the upkeep at one moment asks of whoever runs the dispatcher.
#[derive(Clone, Copy, Debug)]
pub struct Upkeep {
    /// The job that refreshes the timezone tables is to be started.
    pub start_timezone_job: bool,
    /// The job that refreshes the GeoIP database is to be started.
    pub start_geoip_job: bool,
    /// The clients that fell out of the window were dropped.
    pub pruned: bool,
}

/// The state of the service. `G` is the resolver from addresses to timezone
/// names; the dispatcher keeps it and hands it out, and never looks into it.
pub struct Dispatcher<G> {
    /// The index that requests are answered from.
    pub timezones: TimezoneDb,
    /// The resolver, where one could be loaded.
    pub geoip: Option<G>,
    /// The clients that were answered of late.
    pub clients: ClientTracker,
    /// The refresh of the timezone tables.
    pub timezone_refresh: Refresh,
    /// The refresh of the GeoIP database.
    pub geoip_refresh: Refresh,
    /// When the clients are pruned.
    pub prune_timer: Timer,
}

impl<G> Dispatcher<G> {
    /// A dispatcher that has answered no client yet.
    pub fn new(
        timezones: TimezoneDb,
        geoip: Option<G>,
        rate_limit: u64,
        timezone_refresh: Refresh,
        geoip_refresh: Refresh,
        prune_timer: Timer,
    ) -> (dispatcher: Dispatcher<G>)
        ensures
            dispatcher.timezones == timezones,
            dispatcher.geoip == geoip,
            dispatcher.clients@ == Map::<ClientIp, u64>::empty(),
            dispatcher.clients.window() == rate_limit,
            dispatcher.timezone_refresh == timezone_refresh,
            dispatcher.geoip_refresh == geoip_refresh,
            dispatcher.prune_timer == prune_timer,
    {
        Dispatcher {
            timezones,
            geoip,
            clients: ClientTracker::new(rate_limit),
            timezone_refresh,
            geoip_refresh,
            prune_timer,
        }
    }

    /// Whether a datagram of `len` bytes from `ip` at `now` is looked at: it
    /// does not fill the receive buffer, and the client is let in.
    pub open spec fn admits(self, len: nat, ip: ClientIp, now: u64) -> bool {
        len < MAX_REQUEST_SIZE && accepts(self.clients@, ip, now, self.clients.window())
    }

    /// Decides what is done about a datagram from `ip` that came in at `now`.
    ///
    /// A datagram that fills the receive buffer is not answered and leaves no
    /// trace. Else the client is checked against the rate limit, and where it
    /// is let in, `now` becomes its record, whatever the payload holds. A
    /// payload that is not UTF-8 is not answered; any other is brought into
    /// normal form and answered by what it asks for.
    pub fn handle_datagram(&mut self, payload: &[u8], ip: ClientIp, now: u64) -> (verdict: Verdict)
        ensures
            verdict@ == if old(self).admits(payload@.len(), ip, now) {
                ruling_on(old(self).timezones@, old(self).geoip is Some, payload@)
            } else {
                Ruling::Ignore
            },
            final(self).clients@ == if old(self).admits(payload@.len(), ip, now) {
                old(self).clients@.insert(ip, now)
            } else {
                old(self).clients@
            },
            final(self).clients.window() == old(self).clients.window(),
            final(self).timezones == old(self).timezones,
            final(self).geoip == old(self).geoip,
            final(self).timezone_refresh == old(self).timezone_refresh,
            final(self).geoip_refresh == old(self).geoip_refresh,
            final(self).prune_timer == old(self).prune_timer,
    {
        if payload.len() >= MAX_REQUEST_SIZE {
            return Verdict::Ignore;
        }
        if !self.clients.should_accept(ip, now) {
            return Verdict::Ignore;
        }
        let text = match utf8_text(payload) {
            Some(text) => text,
            None => {
                return Verdict::Ignore;
            },
        };
        proof {
            encode_utf8_decode_utf8(text@);
        }
        let request = normalize_string(text);
        answer(&self.timezones, self.geoip.is_some(), request.as_str())
    }

    /// The answer to a `GEOIP` request that `handle_datagram` passed on, given
    /// the name that the resolver found, if it found one.
    pub fn geoip_reply(&self, found: Option<&str>) -> (reply: String)
        ensures
            reply@ == geoip_reply(
                self.timezones@,
                match found {
                    Some(name) => Some(name@),
                    None => None,
                },
            ),
    {
        answer_geoip(&self.timezones, found)
    }

    /// Does the upkeep that is due at `now`, and says which jobs are to be
    /// started. A job is started where its dataset is refreshed at all, its
    /// timer is due and no job for it is under way. The clients are pruned
    /// where the pruning timer is due.
    pub fn poll(&mut self, now: u64) -> (upkeep: Upkeep)
        ensures
            upkeep.start_timezone_job == old(self).timezone_refresh.starts(now),
            upkeep.start_geoip_job == old(self).geoip_refresh.starts(now),
            upkeep.pruned == old(self).prune_timer.is_due(now),
            final(self).timezone_refresh == old(self).timezone_refresh.after_poll(now),
            final(self).geoip_refresh == old(self).geoip_refresh.after_poll(now),
            final(self).prune_timer == old(self).prune_timer.after(now),
            final(self).clients@ == if upkeep.pruned {
                recent_only(old(self).clients@, now, old(self).clients.window())
            } else {
                old(self).clients@
            },
            final(self).clients.window() == old(self).clients.window(),
            final(self).timezones == old(self).timezones,
            final(self).geoip == old(self).geoip,
    {
        let start_timezone_job = self.timezone_refresh.poll(now);
        let start_geoip_job = self.geoip_refresh.poll(now);
        let pruned = self.prune_timer.fire(now);
        if pruned {
            self.clients.prune(now);
        }
        Upkeep { start_timezone_job, start_geoip_job, pruned }
    }

    /// Takes the job that refreshes the timezone tables as finished. The
    /// answer is whether the tables are to be read anew. The index stays as
    /// it is until `install_timezones` is given a new one.
    pub fn timezone_job_finished(&mut self, succeeded: bool) -> (reload: bool)
        ensures
            reload == (old(self).timezone_refresh.running && succeeded),
            final(self).timezone_refresh == old(self).timezone_refresh.after_job(),
            final(self).timezones == old(self).timezones,
            final(self).geoip == old(self).geoip,
            final(self).clients == old(self).clients,
            final(self).geoip_refresh == old(self).geoip_refresh,
            final(self).prune_timer == old(self).prune_timer,
    {
        self.timezone_refresh.job_finished(succeeded)
    }

    /// Takes the job that refreshes the GeoIP database as finished. The
    /// answer is whether the database is to be opened anew. The resolver
    /// stays as it is until `install_geoip` is given a new one.
    pub fn geoip_job_finished(&mut self, succeeded: bool) -> (reload: bool)
        ensures
            reload == (old(self).geoip_refresh.running && succeeded),
            final(self).geoip_refresh == old(self).geoip_refresh.after_job(),
            final(self).timezones == old(self).timezones,
            final(self).geoip == old(self).geoip,
            final(self).clients == old(self).clients,
            final(self).timezone_refresh == old(self).timezone_refresh,
            final(self).prune_timer == old(self).prune_timer,
    {
        self.geoip_refresh.job_finished(succeeded)
    }

    /// Puts a newly loaded index in the place of the one in use. Where the
    /// load failed, for whatever reason, the index in use stays and the
    /// error is handed back.
    pub fn install_timezones<E>(&mut self, loaded: Result<TimezoneDb, E>) -> (r: Result<(), E>)
        ensures
            match loaded {
                Ok(index) => r is Ok && final(self).timezones == index,
                Err(e) => r == Err::<(), E>(e) && final(self).timezones == old(self).timezones,
            },
            final(self).geoip == old(self).geoip,
            final(self).clients == old(self).clients,
            final(self).timezone_refresh == old(self).timezone_refresh,
            final(self).geoip_refresh == old(self).geoip_refresh,
            final(self).prune_timer == old(self).prune_timer,
    {
        match loaded {
            Ok(index) => {
                self.timezones = index;
                Ok(())
            },
            Err(e) => Err(e),
        }
    }

    /// Puts a newly opened resolver in the place of the one in use, if there
    /// is one. Where none could be opened, what was in use stays. The answer
    /// is whether a new one was put in.
    pub fn install_geoip(&mut self, loaded: Option<G>) -> (replaced: bool)
        ensures
            replaced == loaded is Some,
            final(self).geoip == if loaded is Some {
                loaded
            } else {
                old(self).geoip
            },
            final(self).timezones == old(self).timezones,
            final(self).clients == old(self).clients,
            final(self).timezone_refresh == old(self).timezone_refresh,
            final(self).geoip_refresh == old(self).geoip_refresh,
            final(self).prune_timer == old(self).prune_timer,
    {
        match loaded {
            Some(resolver) => {
                self.geoip = Some(resolver);
                true
            },
            None => false,
        }
    }

    /// The earliest time at which `poll` has something to do: when the
    /// pruning is due, or a refresh that can start a job.
    pub open spec fn next_wakeup(self) -> u64 {
        let first = if self.timezone_refresh.enabled && !self.timezone_refresh.running
            && self.timezone_refresh.timer.due < self.prune_timer.due {
            self.timezone_refresh.timer.due
        } else {
            self.prune_timer.due
        };
        if self.geoip_refresh.enabled && !self.geoip_refresh.running
            && self.geoip_refresh.timer.due < first {
            self.geoip_refresh.timer.due
        } else {
            first
        }
    }

    /// The earliest time at which `poll` has something to do.
    pub fn wakeup(&self) -> (at: u64)
        ensures
            at == self.next_wakeup(),
    {
        let mut at = self.prune_timer.due;
        match self.timezone_refresh.wakeup() {
            Some(due) => {
                if due < at {
                    at = due;
                }
            },
            None => {},
        }
        match self.geoip_refresh.wakeup() {
            Some(due) => {
                if due < at {
                    at = due;
                }
            },
            None => {},
        }
        at
    }
}

/// A datagram that fills the receive buffer, or more than fills it, is never
/// looked at, whatever it holds and whoever sent it.
pub proof fn full_buffer_is_never_admitted<G>(
    dispatcher: Dispatcher<G>,
    len: nat,
    ip: ClientIp,
    now: u64,
)
    requires
        len >= MAX_REQUEST_SIZE,
    ensures
        !dispatcher.admits(len, ip, now),
{
}

/// Without a resolver, a `GEOIP` request is answered with the failure,
/// whatever the index holds.
pub proof fn geoip_without_resolver_fails(index: Model)
    ensures
        answer_to(index, false, "GEOIP"@) == Ruling::Reply(ERR_GEOIP_LOOKUP_FAILED@),
{
    reveal_strlit("GEOIP");
    vstd::utf8::is_ascii_chars_encode_utf8("GEOIP"@);
}

/// A request of two bytes is answered as a country code and as nothing else:
/// with the one timezone of the country, or with one of the two failures of
/// a country.
pub proof fn two_bytes_ask_for_a_country(index: Model, has_resolver: bool, request: Seq<char>)
    requires
        encode_utf8(request).len() == 2,
    ensures
        answer_to(index, has_resolver, request) == Ruling::Reply(country_reply(index, request)),
{
}

} // verus!
