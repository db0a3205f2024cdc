//! The health monitor's part that decides: from the outcomes of one pass of
//! probes to the health record that the pass yields.

use vstd::prelude::*;
use vstd::string::*;
use crate::health::HealthRecord;
use crate::probe::{http_uri, probe_uri, ProbeOutcome};

verus! {

/// The addresses that a list of address strings holds.
pub open spec fn addresses(servers: Seq<String>) -> Seq<Seq<char>> {
    servers.map_values(|server: String| server@)
}

/// The mapping that the first `probed` probes of a pass yield: each probed
/// backend's address with the verdict on its probe. Where an address stands
/// twice in the registry, the later probe decides.
pub open spec fn record_of_probes(
    registry: Seq<Seq<char>>,
    outcomes: Seq<ProbeOutcome>,
    probed: nat,
) -> Map<Seq<char>, bool>
    decreases probed,
{
    if probed == 0 {
        Map::empty()
    } else {
        record_of_probes(registry, outcomes, (probed - 1) as nat).insert(
            registry[probed - 1],
            outcomes[probed - 1].healthy(),
        )
    }
}

/// How many backends a pass has a verdict on: `outcomes` is in registry
/// order, an outcome beyond the registry is not counted, and a backend
/// without an outcome gets no entry.
pub open spec fn probed_count(registry: Seq<Seq<char>>, outcomes: Seq<ProbeOutcome>) -> nat {
    if outcomes.len() < registry.len() {
        outcomes.len()
    } else {
        registry.len()
    }
}

/// The mapping that a whole pass yields.
pub open spec fn record_of_pass(registry: Seq<Seq<char>>, outcomes: Seq<ProbeOutcome>) -> Map<
    Seq<char>,
    bool,
> {
    record_of_probes(registry, outcomes, probed_count(registry, outcomes))
}

/// The record of a pass has an entry exactly for the probed backends, and for
/// a backend whose address stands only once among them the entry is the
/// verdict on its own probe: no other probe, failed or not, bears on it.
pub proof fn law_pass_verdicts(registry: Seq<Seq<char>>, outcomes: Seq<ProbeOutcome>, probed: nat)
    requires
        probed <= registry.len(),
        probed <= outcomes.len(),
    ensures
        forall|address: Seq<char>| #[trigger]
            record_of_probes(registry, outcomes, probed).contains_key(address) <==> exists|i: int|
                0 <= i < probed && #[trigger] registry[i] == address,
        forall|i: int|
            0 <= i < probed && (forall|j: int| i < j < probed ==> #[trigger] registry[j] != registry[i])
                ==> record_of_probes(registry, outcomes, probed)[#[trigger] registry[i]]
                == outcomes[i].healthy(),
    decreases probed,
{
    if probed > 0 {
        let before = (probed - 1) as nat;
        law_pass_verdicts(registry, outcomes, before);
        let record = record_of_probes(registry, outcomes, probed);
        assert forall|address: Seq<char>| #[trigger]
            record.contains_key(address) <==> exists|i: int|
                0 <= i < probed && #[trigger] registry[i] == address by {
            if record.contains_key(address) {
                if registry[probed - 1] == address {
                } else {
                    assert(record_of_probes(registry, outcomes, before).contains_key(address));
                    let i = choose|i: int| 0 <= i < before && #[trigger] registry[i] == address;
                    assert(0 <= i < probed && registry[i] == address);
                }
            }
            if exists|i: int| 0 <= i < probed && #[trigger] registry[i] == address {
                let i = choose|i: int| 0 <= i < probed && #[trigger] registry[i] == address;
                if i < before {
                    assert(record_of_probes(registry, outcomes, before).contains_key(address));
                }
            }
        }
        assert forall|i: int|
            0 <= i < probed && (forall|j: int|
                i < j < probed ==> #[trigger] registry[j] != registry[i]) implies record[#[trigger] registry[i]]
            == outcomes[i].healthy() by {
            if i < before {
                assert(registry[probed - 1] != registry[i]);
                assert(forall|j: int| i < j < before ==> #[trigger] registry[j] != registry[i]);
            }
        }
    }
}

/// The URIs that the probes of one pass go to, in registry order.
pub fn probe_targets(servers: &Vec<String>) -> (targets: Vec<String>)
    ensures
        targets@.len() == servers@.len(),
        forall|i: int|
            0 <= i < servers@.len() ==> (#[trigger] targets@[i])@ == http_uri(
                servers@[i]@,
                Seq::<char>::empty(),
            ),
{
    let mut targets: Vec<String> = Vec::new();
    let mut i: usize = 0;
    while i < servers.len()
        invariant
            i <= servers@.len(),
            targets@.len() == i,
            forall|j: int|
                0 <= j < i ==> (#[trigger] targets@[j])@ == http_uri(servers@[j]@, Seq::<char>::empty()),
        decreases servers@.len() - i,
    {
        targets.push(probe_uri(servers[i].as_str()));
        i += 1;
    }
    targets
}

/// Builds the health record of one pass: `outcomes[i]` is how the probe of
/// `servers[i]` ended. A failed probe makes its backend unhealthy and leaves
/// the verdicts on the others as they are.
pub fn record_pass(servers: &Vec<String>, outcomes: &Vec<ProbeOutcome>) -> (record: HealthRecord)
    ensures
        record.well_formed(),
        record@ == record_of_pass(addresses(servers@), outcomes@),
{
    let mut record = HealthRecord::new();
    let mut i: usize = 0;
    while i < servers.len() && i < outcomes.len()
        invariant
            i <= servers@.len(),
            i <= outcomes@.len(),
            record.well_formed(),
            record@ == record_of_probes(addresses(servers@), outcomes@, i as nat),
        decreases servers@.len() - i,
    {
        let healthy = outcomes[i].is_healthy();
        record.insert(servers[i].clone(), healthy);
        i += 1;
    }
    record
}

} // verus!
