//! The health record: the last known liveness verdict of each backend.

use vstd::prelude::*;
use vstd::string::*;
use crate::text::str_equal;

verus! {

/// What the record says of one backend.
#[derive(Clone, Copy, Debug, PartialEq, Eq, Structural)]
pub enum HealthStatus {
    /// The last pass found the backend alive.
    Healthy,
    /// The last pass found the backend dead.
    Unhealthy,
    /// The last pass has no verdict on the backend.
    Unknown,
}

/// The status that a mapping from address to liveness flag gives `address`.
pub open spec fn status_of(record: Map<Seq<char>, bool>, address: Seq<char>) -> HealthStatus {
    if !record.contains_key(address) {
        HealthStatus::Unknown
    } else if record[address] {
        HealthStatus::Healthy
    } else {
        HealthStatus::Unhealthy
    }
}

/// Whether a mapping from address to liveness flag holds `address` as alive.
/// A backend without an entry does not count as alive.
pub open spec fn is_healthy(record: Map<Seq<char>, bool>, address: Seq<char>) -> bool {
    record.contains_key(address) && record[address]
}

/// One entry of the record.
struct HealthEntry {
    address: String,
    healthy: bool,
}

/// The mapping from backend address to liveness flag, with at most one entry
/// for an address. Its view is that mapping.
pub struct HealthRecord {
    entries: Vec<HealthEntry>,
}

/// The mapping that a list of entries stands for: a later entry for an
/// address would replace an earlier one.
spec fn entries_map(entries: Seq<HealthEntry>) -> Map<Seq<char>, bool>
    decreases entries.len(),
{
    if entries.len() == 0 {
        Map::empty()
    } else {
        entries_map(entries.drop_last()).insert(entries.last().address@, entries.last().healthy)
    }
}

/// No address occurs in two entries.
spec fn distinct_addresses(entries: Seq<HealthEntry>) -> bool {
    forall|i: int, j: int|
        0 <= i < j < entries.len() ==> (#[trigger] entries[i]).address@ != (#[trigger] entries[j]).address@
}

/// The mapping has a key exactly for the addresses that occur in the entries.
proof fn lemma_entries_map_keys(entries: Seq<HealthEntry>, address: Seq<char>)
    ensures
        entries_map(entries).contains_key(address) <==> exists|i: int|
            0 <= i < entries.len() && (#[trigger] entries[i]).address@ == address,
    decreases entries.len(),
{
    if entries.len() > 0 {
        let front = entries.drop_last();
        lemma_entries_map_keys(front, address);
        if entries_map(entries).contains_key(address) {
            if entries.last().address@ == address {
                assert(entries[entries.len() - 1].address@ == address);
            } else {
                let i = choose|i: int| 0 <= i < front.len() && (#[trigger] front[i]).address@ == address;
                assert(entries[i].address@ == address);
            }
        }
        if exists|i: int| 0 <= i < entries.len() && (#[trigger] entries[i]).address@ == address {
            let i = choose|i: int| 0 <= i < entries.len() && (#[trigger] entries[i]).address@ == address;
            if i < entries.len() - 1 {
                assert(front[i].address@ == address);
            }
        }
    }
}

/// With distinct addresses, the mapping gives each entry's address that
/// entry's flag.
proof fn lemma_entries_map_value(entries: Seq<HealthEntry>, i: int)
    requires
        distinct_addresses(entries),
        0 <= i < entries.len(),
    ensures
        entries_map(entries).contains_key(entries[i].address@),
        entries_map(entries)[entries[i].address@] == entries[i].healthy,
    decreases entries.len(),
{
    let front = entries.drop_last();
    if i < entries.len() - 1 {
        assert(entries[i].address@ != entries[entries.len() - 1].address@);
        assert(entries[i] == front[i]);
        assert(distinct_addresses(front)) by {
            assert forall|a: int, b: int| 0 <= a < b < front.len() implies (#[trigger] front[a]).address@
                != (#[trigger] front[b]).address@ by {
                assert(front[a] == entries[a] && front[b] == entries[b]);
            }
        }
        lemma_entries_map_value(front, i);
    }
}

/// With distinct addresses, a new flag in entry `i` changes the mapping at
/// that entry's address and nowhere else.
proof fn lemma_entries_map_update(entries: Seq<HealthEntry>, i: int, changed: HealthEntry)
    requires
        distinct_addresses(entries),
        0 <= i < entries.len(),
        changed.address@ == entries[i].address@,
    ensures
        distinct_addresses(entries.update(i, changed)),
        entries_map(entries.update(i, changed)) == entries_map(entries).insert(
            changed.address@,
            changed.healthy,
        ),
    decreases entries.len(),
{
    let after = entries.update(i, changed);
    assert(distinct_addresses(after)) by {
        assert forall|a: int, b: int| 0 <= a < b < after.len() implies (#[trigger] after[a]).address@
            != (#[trigger] after[b]).address@ by {
            assert(entries[a].address@ != entries[b].address@);
        }
    }
    let front = entries.drop_last();
    let last = entries.last();
    if i == entries.len() - 1 {
        assert(after.drop_last() =~= front);
        assert(entries_map(after) =~= entries_map(entries).insert(changed.address@, changed.healthy));
    } else {
        assert(distinct_addresses(front)) by {
            assert forall|a: int, b: int| 0 <= a < b < front.len() implies (#[trigger] front[a]).address@
                != (#[trigger] front[b]).address@ by {
                assert(front[a] == entries[a] && front[b] == entries[b]);
            }
        }
        assert(front[i] == entries[i]);
        lemma_entries_map_update(front, i, changed);
        assert(after.drop_last() =~= front.update(i, changed));
        assert(after.last() == last);
        assert(entries[i].address@ != entries[entries.len() - 1].address@);
        assert(entries_map(after) =~= entries_map(entries).insert(changed.address@, changed.healthy));
    }
}

impl View for HealthRecord {
    type V = Map<Seq<char>, bool>;

    closed spec fn view(&self) -> Map<Seq<char>, bool> {
        entries_map(self.entries@)
    }
}

impl HealthRecord {
    /// The record's invariant: no address has two entries.
    pub closed spec fn well_formed(self) -> bool {
        distinct_addresses(self.entries@)
    }

    /// The status of `address` in this record.
    pub open spec fn status(self, address: Seq<char>) -> HealthStatus {
        status_of(self@, address)
    }

    /// A record without entries: every backend is unknown.
    pub fn new() -> (record: HealthRecord)
        ensures
            record.well_formed(),
            record@ == Map::<Seq<char>, bool>::empty(),
    {
        HealthRecord { entries: Vec::new() }
    }

    /// The position of the entry for `address`, if there is one.
    fn position(&self, address: &str) -> (found: Option<usize>)
        ensures
            match found {
                Some(i) => i < self.entries@.len() && self.entries@[i as int].address@ == address@,
                None => forall|i: int|
                    0 <= i < self.entries@.len() ==> (#[trigger] self.entries@[i]).address@ != address@,
            },
    {
        let mut i: usize = 0;
        while i < self.entries.len()
            invariant
                i <= self.entries@.len(),
                forall|j: int| 0 <= j < i ==> (#[trigger] self.entries@[j]).address@ != address@,
            decreases self.entries@.len() - i,
        {
            if str_equal(self.entries[i].address.as_str(), address) {
                return Some(i);
            }
            i += 1;
        }
        None
    }

    /// Looks up the last known verdict on `address`.
    pub fn get(&self, address: &str) -> (status: HealthStatus)
        requires
            self.well_formed(),
        ensures
            status == status_of(self@, address@),
    {
        proof {
            lemma_entries_map_keys(self.entries@, address@);
        }
        match self.position(address) {
            Some(i) => {
                proof {
                    lemma_entries_map_value(self.entries@, i as int);
                }
                if self.entries[i].healthy {
                    HealthStatus::Healthy
                } else {
                    HealthStatus::Unhealthy
                }
            },
            None => HealthStatus::Unknown,
        }
    }

    /// Records a verdict on `address`, in place of an earlier one if there
    /// was one.
    pub fn insert(&mut self, address: String, healthy: bool)
        requires
            old(self).well_formed(),
        ensures
            final(self).well_formed(),
            final(self)@ == old(self)@.insert(address@, healthy),
    {
        let found = self.position(address.as_str());
        let entry = HealthEntry { address, healthy };
        match found {
            Some(i) => {
                proof {
                    lemma_entries_map_update(self.entries@, i as int, entry);
                }
                self.entries.set(i, entry);
            },
            None => {
                proof {
                    let grown = self.entries@.push(entry);
                    assert(grown.drop_last() =~= self.entries@);
                    assert(distinct_addresses(grown));
                }
                self.entries.push(entry);
            },
        }
    }

    /// Replaces the whole mapping by `mapping`. Nothing of the earlier
    /// mapping is left: every lookup that follows is answered by `mapping`
    /// alone.
    pub fn replace_all(&mut self, mapping: HealthRecord)
        requires
            mapping.well_formed(),
        ensures
            final(self).well_formed(),
            final(self)@ == mapping@,
    {
        *self = mapping;
    }
}

} // verus!
