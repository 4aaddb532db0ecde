//! The rate limiter: which clients were answered, and when.
//!
//! Times are counts of one unit on one clock that never runs backwards; the
//! window is a count of the same unit.

use std::collections::HashMap;
use std::hash::Hash;
use vstd::prelude::*;
use vstd::std_specs::hash::obeys_key_model;

verus! {

broadcast use vstd::std_specs::hash::group_hash_axioms;

/// The address of a client: the 32 bits of an IPv4 address or the 128 bits of
/// an IPv6 address, most significant byte first.
#[derive(Clone, Copy, Debug)]
pub enum ClientIp {
    V4(u32),
    V6(u128),
}

/// The time from `then` to `now`; nothing where `then` is the later one.
pub open spec fn elapsed(now: u64, then: u64) -> int {
    if now >= then {
        now - then
    } else {
        0
    }
}

/// Whether a client last answered at `last` is still inside the window at
/// `now`.
pub open spec fn is_recent(last: u64, now: u64, window: u64) -> bool {
    elapsed(now, last) < window
}

/// Whether a request of `ip` at `now` is answered: the client is not on
/// record, or its record is as old as the window or older.
pub open spec fn accepts<K>(seen: Map<K, u64>, ip: K, now: u64, window: u64) -> bool {
    !seen.contains_key(ip) || !is_recent(seen[ip], now, window)
}

/// The records of `seen` that are inside the window at `now`.
pub open spec fn recent_only<K>(seen: Map<K, u64>, now: u64, window: u64) -> Map<K, u64> {
    Map::new(|k: K| seen.contains_key(k) && is_recent(seen[k], now, window), |k: K| seen[k])
}

/// Whether a client last answered at `last` is still inside the window at
/// `now`.
pub fn recent(last: u64, now: u64, window: u64) -> (b: bool)
    ensures
        b == is_recent(last, now, window),
{
    if now >= last {
        now - last < window
    } else {
        0 < window
    }
}

/// Answers for one table of clients whether `key` is let in at `now`, and
/// records `now` where it is.
fn let_in<K: Eq + Hash + Copy>(seen: &mut HashMap<K, u64>, key: K, now: u64, window: u64) -> (ok:
    bool)
    requires
        obeys_key_model::<K>(),
    ensures
        ok == accepts(old(seen)@, key, now, window),
        final(seen)@ == if ok {
            old(seen)@.insert(key, now)
        } else {
            old(seen)@
        },
{
    let let_through = match seen.get(&key) {
        Some(last) => !recent(*last, now, window),
        None => true,
    };
    if let_through {
        seen.insert(key, now);
    }
    let_through
}

/// Drops from one table of clients every record that is as old as the window
/// or older at `now`.
fn drop_stale<K: Eq + Hash + Copy>(seen: &mut HashMap<K, u64>, now: u64, window: u64)
    requires
        obeys_key_model::<K>(),
    ensures
        final(seen)@ == recent_only(old(seen)@, now, window),
{
    let mut stale: Vec<K> = Vec::new();
    for k in it: seen.keys()
        invariant
            *seen == *old(seen),
            obeys_key_model::<K>(),
            forall|x: K| #[trigger]
                stale@.contains(x) ==> seen@.contains_key(x) && !is_recent(seen@[x], now, window),
            forall|x: K| #[trigger]
                seen@.contains_key(x) && !is_recent(seen@[x], now, window) ==> stale@.contains(x)
                    || exists|j: int| it.index() <= j < it.seq().len() && *it.seq()[j] == x,
    {
        let ghost old_stale = stale@;
        let ghost at = it.index();
        let stale_now = match seen.get(k) {
            Some(last) => !recent(*last, now, window),
            None => false,
        };
        if stale_now {
            stale.push(*k);
            assert(stale@.last() == *k);
        }
        assert forall|x: K| #[trigger] stale@.contains(x) implies seen@.contains_key(x)
            && !is_recent(seen@[x], now, window) by {
            let w = choose|w: int| 0 <= w < stale@.len() && stale@[w] == x;
            if w < old_stale.len() {
                assert(old_stale[w] == x);
                assert(old_stale.contains(x));
            }
        }
        assert forall|x: K| #[trigger]
            seen@.contains_key(x) && !is_recent(seen@[x], now, window) implies stale@.contains(x)
            || exists|j: int| at + 1 <= j < it.seq().len() && *it.seq()[j] == x by {
            if old_stale.contains(x) {
                let w = choose|w: int| 0 <= w < old_stale.len() && old_stale[w] == x;
                assert(stale@[w] == x);
            } else {
                let j = choose|j: int| at <= j < it.seq().len() && *it.seq()[j] == x;
                if j == at {
                    assert(x == *k);
                    assert(stale@.contains(x));
                }
            }
        }
    }
    let mut j: usize = 0;
    assert(stale@.take(0).to_set() =~= Set::<K>::empty());
    assert(seen@.remove_keys(Set::<K>::empty()) =~= seen@);
    while j < stale.len()
        invariant
            obeys_key_model::<K>(),
            j <= stale@.len(),
            seen@ == old(seen)@.remove_keys(stale@.take(j as int).to_set()),
        decreases stale@.len() - j,
    {
        let ghost done = stale@.take(j as int);
        let ghost next = stale@.take(j + 1);
        let ghost gone = done.to_set();
        seen.remove(&stale[j]);
        assert(next =~= done.push(stale@[j as int]));
        assert(next.to_set() =~= gone.insert(stale@[j as int])) by {
            assert forall|x: K| #[trigger]
                next.to_set().contains(x) <==> gone.insert(stale@[j as int]).contains(x) by {
                if next.contains(x) {
                    let w = choose|w: int| 0 <= w < next.len() && next[w] == x;
                    if w < j {
                        assert(done[w] == x);
                    }
                }
                if gone.contains(x) {
                    let w = choose|w: int| 0 <= w < done.len() && done[w] == x;
                    assert(next[w] == x);
                }
                if x == stale@[j as int] {
                    assert(next[j as int] == x);
                }
            }
        }
        assert(seen@ =~= old(seen)@.remove_keys(gone.insert(stale@[j as int])));
        j += 1;
    }
    assert(stale@.take(j as int) =~= stale@);
    assert(seen@ =~= recent_only(old(seen)@, now, window));
}

/// The clients that were answered, each with the time of its last answer.
pub struct ClientTracker {
    window: u64,
    v4: HashMap<u32, u64>,
    v6: HashMap<u128, u64>,
}

impl View for ClientTracker {
    type V = Map<ClientIp, u64>;

    closed spec fn view(&self) -> Map<ClientIp, u64> {
        Map::new(
            |ip: ClientIp|
                match ip {
                    ClientIp::V4(a) => self.v4@.contains_key(a),
                    ClientIp::V6(a) => self.v6@.contains_key(a),
                },
            |ip: ClientIp|
                match ip {
                    ClientIp::V4(a) => self.v4@[a],
                    ClientIp::V6(a) => self.v6@[a],
                },
        )
    }
}

impl ClientTracker {
    /// The window: how long after an answer a client gets no other.
    pub closed spec fn window(&self) -> u64 {
        self.window
    }

    /// A tracker with no client on record.
    pub fn new(window: u64) -> (tracker: ClientTracker)
        ensures
            tracker@ == Map::<ClientIp, u64>::empty(),
            tracker.window() == window,
    {
        let tracker = ClientTracker { window, v4: HashMap::new(), v6: HashMap::new() };
        assert(tracker@ =~= Map::<ClientIp, u64>::empty());
        tracker
    }

    /// The window: how long after an answer a client gets no other.
    pub fn rate_limit(&self) -> (window: u64)
        ensures
            window == self.window(),
    {
        self.window
    }

    /// When `ip` was last answered, if it is on record.
    pub fn last_seen(&self, ip: ClientIp) -> (last: Option<u64>)
        ensures
            match last {
                Some(t) => self@.contains_key(ip) && self@[ip] == t,
                None => !self@.contains_key(ip),
            },
    {
        match ip {
            ClientIp::V4(a) => match self.v4.get(&a) {
                Some(t) => Some(*t),
                None => None,
            },
            ClientIp::V6(a) => match self.v6.get(&a) {
                Some(t) => Some(*t),
                None => None,
            },
        }
    }

    /// Decides whether a request of `ip` at `now` is answered. It is where
    /// the client is not on record or was last answered a window ago or
    /// longer; `now` then becomes its record. A request that is turned away
    /// leaves the record as it was.
    pub fn should_accept(&mut self, ip: ClientIp, now: u64) -> (ok: bool)
        ensures
            ok == accepts(old(self)@, ip, now, old(self).window()),
            final(self)@ == if ok {
                old(self)@.insert(ip, now)
            } else {
                old(self)@
            },
            final(self).window() == old(self).window(),
    {
        let ok = match ip {
            ClientIp::V4(a) => let_in(&mut self.v4, a, now, self.window),
            ClientIp::V6(a) => let_in(&mut self.v6, a, now, self.window),
        };
        if ok {
            assert(self@ =~= old(self)@.insert(ip, now));
        } else {
            assert(self@ =~= old(self)@);
        }
        ok
    }

    /// Drops every record that is as old as the window or older at `now`,
    /// and no other.
    pub fn prune(&mut self, now: u64)
        ensures
            final(self)@ == recent_only(old(self)@, now, old(self).window()),
            final(self).window() == old(self).window(),
    {
        drop_stale(&mut self.v4, now, self.window);
        drop_stale(&mut self.v6, now, self.window);
        assert(self@ =~= recent_only(old(self)@, now, old(self).window()));
    }
}

/// After a request of a client was answered at `then`, a request of the same
/// client at `now`, not before `then`, is answered exactly where a whole
/// window has passed in between.
pub proof fn window_opens_after_a_whole_window<K>(
    seen: Map<K, u64>,
    ip: K,
    then: u64,
    now: u64,
    window: u64,
)
    requires
        then <= now,
    ensures
        accepts(seen.insert(ip, then), ip, now, window) <==> now - then >= window,
{
}

/// A request that is turned away does not move the window: whatever requests
/// of a client were turned away since its last answer, the next one is
/// decided by the time of that answer alone.
pub proof fn turned_away_leaves_the_record<K>(seen: Map<K, u64>, ip: K, now: u64, window: u64)
    requires
        !accepts(seen, ip, now, window),
    ensures
        seen.contains_key(ip),
        is_recent(seen[ip], now, window),
{
}

/// Pruning at `now` drops a client that was last answered a window ago or
/// longer, and a request of that client is then answered as the first one of
/// a client, at any time.
pub proof fn pruned_client_is_new<K>(seen: Map<K, u64>, ip: K, now: u64, later: u64, window: u64)
    requires
        seen.contains_key(ip) ==> !is_recent(seen[ip], now, window),
    ensures
        !recent_only(seen, now, window).contains_key(ip),
        accepts(recent_only(seen, now, window), ip, later, window),
{
}

/// Pruning at `now` keeps every client that was answered less than a window
/// ago, with its record.
pub proof fn pruning_keeps_the_recent<K>(seen: Map<K, u64>, ip: K, now: u64, window: u64)
    requires
        seen.contains_key(ip),
        is_recent(seen[ip], now, window),
    ensures
        recent_only(seen, now, window).contains_key(ip),
        recent_only(seen, now, window)[ip] == seen[ip],
{
}

/// Pruning changes no decision: at the time of the pruning, and at any time
/// after it, a request is answered after the pruning exactly where it would
/// have been without.
pub proof fn pruning_changes_no_decision<K>(
    seen: Map<K, u64>,
    ip: K,
    now: u64,
    later: u64,
    window: u64,
)
    requires
        now <= later,
    ensures
        accepts(recent_only(seen, now, window), ip, later, window) == accepts(
            seen,
            ip,
            later,
            window,
        ),
{
}

} // verus!
