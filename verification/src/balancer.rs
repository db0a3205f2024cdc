//! The load balancer's state: the registry of backends, the health record of
//! the last pass, and the cursor of the rotation.

use vstd::prelude::*;
use vstd::string::*;
use vstd::arithmetic::div_mod::*;
use crate::health::{is_healthy, status_of, HealthRecord, HealthStatus};
use crate::monitor::{addresses, record_of_pass, record_pass};
use crate::probe::ProbeOutcome;
use crate::selector::{
    first_healthy_offset, healthy_at, law_round_robin, law_selection_is_sound, none_healthy,
    pick_after, position_after, select,
};

verus! {

/// A pool of backends with what is known of their health and the place the
/// rotation has reached.
///
/// The registry is fixed when the balancer is made. The health record starts
/// empty, so that no backend is chosen before the first pass of probes has
/// been recorded with `health_check`.
pub struct LoadBalancer {
    backend_servers: Vec<String>,
    health_check_interval: u64,
    last_health_check: u64,
    healthy_backends: HealthRecord,
    next_backend_index: usize,
}

/// Moving one step from the position `offset` steps after the cursor leads
/// to the position `offset + 1` steps after it.
proof fn lemma_position_step(len: nat, cursor: int, offset: int)
    requires
        0 < len,
        0 <= cursor,
        0 <= offset,
    ensures
        (position_after(len, cursor, offset) + 1) % (len as int) == position_after(
            len,
            cursor,
            offset + 1,
        ),
        0 <= position_after(len, cursor, offset) < len,
{
    let m = len as int;
    lemma_mod_bound(cursor + offset, m);
    if m == 1 {
        lemma_mod_bound(position_after(len, cursor, offset) + 1, m);
        lemma_mod_bound(cursor + offset + 1, m);
    } else {
        lemma_small_mod(1, len);
        lemma_add_mod_noop(cursor + offset, 1, m);
    }
}

/// The time from `now` to the moment a full `interval` after `last`, cut to
/// what a `u64` holds; zero where that moment has come.
pub open spec fn time_left(last: u64, interval: u64, now: u64) -> int {
    let left = last + interval - now;
    if left <= 0 {
        0
    } else if left > u64::MAX {
        u64::MAX as int
    } else {
        left
    }
}

impl LoadBalancer {
    /// The addresses of the registered backends, in registry order.
    pub closed spec fn registry(&self) -> Seq<Seq<char>> {
        addresses(self.backend_servers@)
    }

    /// The health record: the verdicts of the last pass.
    pub closed spec fn health(&self) -> Map<Seq<char>, bool> {
        self.healthy_backends@
    }

    /// The position at which the next selection starts its scan.
    pub closed spec fn cursor(&self) -> int {
        self.next_backend_index as int
    }

    /// The time between two passes of probes, in milliseconds.
    pub closed spec fn interval(&self) -> u64 {
        self.health_check_interval
    }

    /// The time of the last pass, in milliseconds on the caller's clock.
    pub closed spec fn last_check(&self) -> u64 {
        self.last_health_check
    }

    /// The balancer's invariant: the cursor points into the registry, or is
    /// zero where the registry is empty, and the health record is well formed.
    pub closed spec fn well_formed(&self) -> bool {
        &&& self.healthy_backends.well_formed()
        &&& if self.backend_servers@.len() == 0 {
            self.next_backend_index == 0
        } else {
            self.next_backend_index < self.backend_servers@.len()
        }
    }

    /// The cursor of a well-formed balancer lies within the registry.
    pub proof fn lemma_cursor_in_registry(&self)
        requires
            self.well_formed(),
        ensures
            0 <= self.cursor(),
            self.registry().len() > 0 ==> self.cursor() < self.registry().len(),
            self.registry().len() == 0 ==> self.cursor() == 0,
    {
    }

    /// Round robin, said of a balancer: while every registered backend is
    /// alive, the call of `choose_backend` that follows `calls` earlier ones
    /// picks the backend `calls` positions after the balancer's cursor,
    /// wrapping around, and after one round of the registry the picks repeat.
    pub proof fn law_rotation(&self, calls: nat)
        requires
            self.well_formed(),
            self.registry().len() > 0,
            forall|position: int|
                0 <= position < self.registry().len() ==> healthy_at(self.registry(), self.health(), position),
        ensures
            pick_after(self.registry(), self.health(), self.cursor(), calls) == Some(
                position_after(self.registry().len(), self.cursor(), calls as int),
            ),
            pick_after(self.registry(), self.health(), self.cursor(), calls + self.registry().len())
                == pick_after(self.registry(), self.health(), self.cursor(), calls),
    {
        self.lemma_cursor_in_registry();
        law_round_robin(self.registry(), self.health(), self.cursor(), calls);
    }

    /// A balancer for `backend_servers` that probes them every
    /// `health_check_interval` milliseconds. No verdict is known yet, the
    /// rotation starts at the first backend, and `now` counts as the time of
    /// the last pass.
    pub fn new(backend_servers: Vec<String>, health_check_interval: u64, now: u64) -> (lb: LoadBalancer)
        ensures
            lb.well_formed(),
            lb.registry() == addresses(backend_servers@),
            lb.health() == Map::<Seq<char>, bool>::empty(),
            lb.cursor() == 0,
            lb.interval() == health_check_interval,
            lb.last_check() == now,
    {
        LoadBalancer {
            backend_servers,
            health_check_interval,
            last_health_check: now,
            healthy_backends: HealthRecord::new(),
            next_backend_index: 0,
        }
    }

    /// The registered backends, in registry order.
    pub fn backend_servers(&self) -> (servers: &Vec<String>)
        ensures
            addresses(servers@) == self.registry(),
    {
        &self.backend_servers
    }

    /// The position at which the next selection starts its scan.
    pub fn next_backend_index(&self) -> (index: usize)
        ensures
            index == self.cursor(),
    {
        self.next_backend_index
    }

    /// The time between two passes of probes, in milliseconds.
    pub fn health_check_interval(&self) -> (interval: u64)
        ensures
            interval == self.interval(),
    {
        self.health_check_interval
    }

    /// The time of the last pass.
    pub fn last_health_check(&self) -> (time: u64)
        ensures
            time == self.last_check(),
    {
        self.last_health_check
    }

    /// Whether the next pass of probes is due at `now`: whether a full
    /// interval has gone by since the last pass.
    pub fn health_check_due(&self, now: u64) -> (due: bool)
        ensures
            due == (now - self.last_check() >= self.interval()),
    {
        now >= self.last_health_check && now - self.last_health_check >= self.health_check_interval
    }

    /// How long to wait at `now` until the next pass of probes is due, in
    /// milliseconds: nothing where it is due, and never more than a `u64`
    /// holds.
    pub fn health_check_delay(&self, now: u64) -> (delay: u64)
        ensures
            delay == time_left(self.last_check(), self.interval(), now),
            delay == 0 <==> now - self.last_check() >= self.interval(),
    {
        if now >= self.last_health_check {
            let elapsed: u64 = now - self.last_health_check;
            if elapsed >= self.health_check_interval {
                0
            } else {
                self.health_check_interval - elapsed
            }
        } else {
            let early: u64 = self.last_health_check - now;
            if early > u64::MAX - self.health_check_interval {
                u64::MAX
            } else {
                early + self.health_check_interval
            }
        }
    }

    /// What the health record says of `backend`.
    pub fn health_of(&self, backend: &str) -> (status: HealthStatus)
        requires
            self.well_formed(),
        ensures
            status == status_of(self.health(), backend@),
    {
        self.healthy_backends.get(backend)
    }

    /// Records one pass of probes made at `now`: `outcomes[i]` is how the
    /// probe of the backend at position `i` ended. The health record is
    /// replaced as a whole by the verdicts of this pass; nothing of the
    /// earlier record is left. The registry and the cursor stay as they are.
    pub fn health_check(&mut self, outcomes: &Vec<ProbeOutcome>, now: u64)
        requires
            old(self).well_formed(),
        ensures
            final(self).well_formed(),
            final(self).health() == record_of_pass(old(self).registry(), outcomes@),
            final(self).last_check() == now,
            final(self).registry() == old(self).registry(),
            final(self).cursor() == old(self).cursor(),
            final(self).interval() == old(self).interval(),
    {
        let healthy_backends = record_pass(&self.backend_servers, outcomes);
        self.healthy_backends = healthy_backends;
        self.last_health_check = now;
    }

    /// Chooses the backend for the next request.
    ///
    /// The scan starts at the cursor, visits at most as many positions as the
    /// registry has, in registry order and wrapping around, and stops at the
    /// first backend that the health record holds as alive. The cursor moves
    /// one position for each position visited. `None` says that no backend
    /// is available: it is returned exactly when no registered backend is
    /// alive.
    pub fn choose_backend(&mut self) -> (chosen: Option<String>)
        requires
            old(self).well_formed(),
        ensures
            final(self).well_formed(),
            final(self).registry() == old(self).registry(),
            final(self).health() == old(self).health(),
            final(self).interval() == old(self).interval(),
            final(self).last_check() == old(self).last_check(),
            final(self).cursor() == select(old(self).registry(), old(self).health(), old(self).cursor()).cursor,
            match select(old(self).registry(), old(self).health(), old(self).cursor()).picked {
                Some(position) => chosen matches Some(backend) && backend@ == old(self).registry()[position],
                None => chosen is None,
            },
            match chosen {
                Some(backend) => old(self).registry().contains(backend@) && is_healthy(
                    old(self).health(),
                    backend@,
                ),
                None => none_healthy(old(self).registry(), old(self).health()),
            },
    {
        let ghost registry = self.registry();
        let ghost health = self.health();
        let ghost start = self.cursor();
        let len: usize = self.backend_servers.len();
        proof {
            if len > 0 {
                law_selection_is_sound(registry, health, start);
                lemma_small_mod(start as nat, len as nat);
            } else {
                assert(none_healthy(registry, health));
            }
        }
        let mut visited: usize = 0;
        while visited < len
            invariant
                visited <= len,
                len == self.backend_servers@.len(),
                self.backend_servers@ == old(self).backend_servers@,
                self.healthy_backends == old(self).healthy_backends,
                self.health_check_interval == old(self).health_check_interval,
                self.last_health_check == old(self).last_health_check,
                self.well_formed(),
                registry == old(self).registry(),
                health == old(self).health(),
                start == old(self).cursor(),
                0 <= start,
                len > 0 ==> self.next_backend_index == position_after(len as nat, start, visited as int),
                first_healthy_offset(registry, health, start, 0) == first_healthy_offset(
                    registry,
                    health,
                    start,
                    visited as int,
                ),
            decreases len - visited,
        {
            let position: usize = self.next_backend_index;
            proof {
                lemma_position_step(len as nat, start, visited as int);
            }
            self.next_backend_index = (position + 1) % len;
            let status = self.healthy_backends.get(self.backend_servers[position].as_str());
            assert(registry[position as int] == self.backend_servers@[position as int]@);
            match status {
                HealthStatus::Healthy => {
                    return Some(self.backend_servers[position].clone());
                },
                _ => {},
            }
            visited += 1;
        }
        proof {
            if len > 0 {
                lemma_mod_add_multiples_vanish(start, len as int);
                lemma_small_mod(start as nat, len as nat);
            }
        }
        None
    }
}

} // verus!
