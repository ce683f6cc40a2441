//! Bookkeeping for one run over the catalog: which relays are to be probed,
//! which probes have reported, and the ranking at the end.
//!
//! The scheduler does not probe. Its caller probes the relays that
//! `targets` names, in any order and as many at a time as it likes, and
//! hands each outcome to `record` as it arrives.

use vstd::prelude::*;
use crate::filter::FilterParams;
use crate::rank::{rank, ranking, ranking_holds_only_results, ranking_len};
use crate::relay::{probe_result_of, ProbeResult, Relay};
use crate::rtt::finite_rtt;

verus! {

/// What a finished probe adds to the results: one result when it reports a
/// finite mean round-trip time that is not negative, nothing otherwise.
pub open spec fn yield_of(relay: Relay, probe: Option<u64>) -> Seq<ProbeResult> {
    match probe {
        Some(bits) if finite_rtt(bits) => seq![probe_result_of(relay, bits)],
        _ => Seq::empty(),
    }
}

/// The state of a run. A scheduler comes from `new` and is changed by
/// `record` only, so it is well formed at all times.
pub struct Scheduler {
    catalog: Vec<Relay>,
    filter: FilterParams,
    awaited: Vec<bool>,
    results: Vec<ProbeResult>,
    sources: Ghost<Seq<int>>,
}

impl Scheduler {
    /// The relays of the catalog.
    pub closed spec fn catalog(&self) -> Seq<Relay> {
        self.catalog@
    }

    /// The user's filter.
    pub closed spec fn filter(&self) -> FilterParams {
        self.filter
    }

    /// For each relay, whether its probe is still awaited.
    pub closed spec fn awaited(&self) -> Seq<bool> {
        self.awaited@
    }

    /// The results of the probes that succeeded, in the order in which they
    /// were recorded.
    pub closed spec fn results(&self) -> Seq<ProbeResult> {
        self.results@
    }

    /// For each result, the index of the relay that it describes.
    pub closed spec fn sources(&self) -> Seq<int> {
        self.sources@
    }

    /// The `k`-th result describes the `i`-th relay, which the filter
    /// admits and whose probe has reported.
    pub open spec fn result_from(&self, k: int, i: int) -> bool {
        &&& 0 <= i < self.catalog().len()
        &&& self.filter().admits(self.catalog()[i])
        &&& !self.awaited()[i]
        &&& self.results()[k].wf()
        &&& self.results()[k] == probe_result_of(
            self.catalog()[i],
            self.results()[k].mean_rtt_bits,
        )
    }

    /// Only admitted relays are awaited, every result describes an admitted
    /// relay whose probe has reported, and no relay has two results.
    pub open spec fn wf(&self) -> bool {
        &&& self.awaited().len() == self.catalog().len()
        &&& self.sources().len() == self.results().len()
        &&& forall|i: int|
            0 <= i < self.catalog().len() && #[trigger] self.awaited()[i] ==> self.filter().admits(
                self.catalog()[i],
            )
        &&& forall|k: int|
            0 <= k < self.results().len() ==> self.result_from(k, #[trigger] self.sources()[k])
        &&& forall|k: int, m: int|
            0 <= k < m < self.sources().len() ==> #[trigger] self.sources()[k]
                != #[trigger] self.sources()[m]
    }

    /// `result` describes a relay of the catalog that the filter admits.
    pub open spec fn of_admitted_relay(&self, result: ProbeResult) -> bool {
        exists|i: int|
            0 <= i < self.catalog().len() && self.filter().admits(#[trigger] self.catalog()[i])
                && result == probe_result_of(self.catalog()[i], result.mean_rtt_bits)
    }

    /// A run over `catalog` that awaits a probe of every relay that
    /// `filter` admits, and of no other.
    pub fn new(catalog: Vec<Relay>, filter: FilterParams) -> (run: Scheduler)
        ensures
            run.wf(),
            run.catalog() == catalog@,
            run.filter() == filter,
            run.results() == Seq::<ProbeResult>::empty(),
            forall|i: int|
                0 <= i < catalog.len() ==> #[trigger] run.awaited()[i] == filter.admits(catalog[i]),
    {
        let mut awaited: Vec<bool> = Vec::new();
        let mut i: usize = 0;
        while i < catalog.len()
            invariant
                i <= catalog.len(),
                awaited.len() == i,
                forall|j: int| 0 <= j < i ==> #[trigger] awaited[j] == filter.admits(catalog[j]),
            decreases catalog.len() - i,
        {
            awaited.push(filter.check(&catalog[i]));
            i += 1;
        }
        Scheduler { catalog, filter, awaited, results: Vec::new(), sources: Ghost(Seq::empty()) }
    }

    /// The number of relays in the catalog.
    pub fn len(&self) -> (n: usize)
        ensures
            n == self.catalog().len(),
    {
        self.catalog.len()
    }

    /// The relay at `index`, if the catalog has one there.
    pub fn relay(&self, index: usize) -> (found: Option<&Relay>)
        ensures
            index < self.catalog().len() ==> found == Some(&self.catalog()[index as int]),
            index >= self.catalog().len() ==> found is None,
    {
        if index < self.catalog.len() {
            Some(&self.catalog[index])
        } else {
            None
        }
    }

    /// The indices of the relays whose probes are awaited, in ascending
    /// order.
    pub fn targets(&self) -> (list: Vec<usize>)
        requires
            self.wf(),
        ensures
            forall|a: int, b: int| 0 <= a < b < list.len() ==> list[a] < list[b],
            forall|a: int|
                0 <= a < list.len() ==> list[a] < self.catalog().len() && self.awaited()[list[a] as int],
            forall|i: int|
                0 <= i < self.catalog().len() && self.awaited()[i] ==> list@.contains(i as usize),
    {
        let mut list: Vec<usize> = Vec::new();
        let mut i: usize = 0;
        while i < self.awaited.len()
            invariant
                i <= self.awaited.len(),
                self.awaited.len() == self.catalog.len(),
                forall|a: int, b: int| 0 <= a < b < list.len() ==> list[a] < list[b],
                forall|a: int| 0 <= a < list.len() ==> list[a] < i && self.awaited@[list[a] as int],
                forall|j: int| 0 <= j < i && self.awaited@[j] ==> list@.contains(j as usize),
            decreases self.awaited.len() - i,
        {
            if self.awaited[i] {
                let ghost before = list@;
                list.push(i);
                proof {
                    assert(list@[before.len() as int] == i);
                    assert forall|j: int| 0 <= j <= i && self.awaited@[j] implies list@.contains(
                        j as usize,
                    ) by {
                        if j < i {
                            let a = choose|a: int| 0 <= a < before.len() && before[a] == j as usize;
                            assert(list@[a] == j as usize);
                        }
                    }
                }
            }
            i += 1;
        }
        list
    }

    /// Takes note that the probe of the relay at `index` has finished:
    /// `probe` holds the mean round-trip time as the bit pattern of a
    /// double, or `None` when the relay was unreachable. A report for a
    /// relay that is not awaited is refused and changes nothing.
    pub fn record(&mut self, index: usize, probe: Option<u64>) -> (accepted: bool)
        requires
            old(self).wf(),
        ensures
            final(self).wf(),
            final(self).catalog() == old(self).catalog(),
            final(self).filter() == old(self).filter(),
            accepted == (index < old(self).catalog().len() && old(self).awaited()[index as int]),
            !accepted ==> final(self).awaited() == old(self).awaited() && final(self).results()
                == old(self).results() && final(self).sources() == old(self).sources(),
            accepted ==> final(self).awaited() == old(self).awaited().update(index as int, false),
            accepted ==> final(self).results() == old(self).results() + yield_of(
                old(self).catalog()[index as int],
                probe,
            ),
            accepted ==> final(self).sources() == old(self).sources() + Seq::new(
                yield_of(old(self).catalog()[index as int], probe).len(),
                |k: int| index as int,
            ),
    {
        if index >= self.awaited.len() {
            return false;
        }
        if !self.awaited[index] {
            return false;
        }
        self.awaited.set(index, false);
        let made = match probe {
            Some(bits) => ProbeResult::new(&self.catalog[index], bits),
            None => None,
        };
        match made {
            Some(result) => {
                self.results.push(result);
                self.sources = Ghost(self.sources@.push(index as int));
            },
            None => {},
        }
        true
    }

    /// The number of probes that have succeeded so far.
    pub fn successes(&self) -> (n: usize)
        ensures
            n == self.results().len(),
    {
        self.results.len()
    }

    /// Ends the run with the ranking of the results: fastest first, and
    /// only the first `top_n` unless `top_n` is 0. Every ranked result
    /// describes a relay of the catalog that the filter admits.
    pub fn finish(self, top_n: usize) -> (ranked: Vec<ProbeResult>)
        requires
            self.wf(),
        ensures
            ranked@ == ranking(self.results(), top_n as nat),
            forall|k: int| 0 <= k < ranked.len() ==> self.of_admitted_relay(#[trigger] ranked[k]),
            top_n > 0 ==> ranked.len() <= top_n,
            top_n == 0 ==> ranked.len() == self.results().len(),
    {
        let ghost run = self;
        let ranked = rank(self.results, top_n);
        proof {
            ranking_len(run.results(), top_n as nat);
            assert forall|k: int| 0 <= k < ranked.len() implies run.of_admitted_relay(
                #[trigger] ranked[k],
            ) by {
                ranking_holds_only_results(run.results(), top_n as nat, k);
                let m = choose|m: int| 0 <= m < run.results().len() && run.results()[m] == ranked[k];
                assert(run.result_from(m, run.sources()[m]));
            }
        }
        ranked
    }
}

/// A relay that the filter does not admit is never ranked: where the
/// hostnames of the catalog are unique, no ranked result bears the hostname
/// of such a relay.
pub proof fn unadmitted_relay_is_not_ranked(run: Scheduler, top_n: nat, i: int, k: int)
    requires
        run.wf(),
        forall|a: int, b: int|
            0 <= a < b < run.catalog().len() ==> (#[trigger] run.catalog()[a]).hostname@ != (
            #[trigger] run.catalog()[b]).hostname@,
        0 <= i < run.catalog().len(),
        !run.filter().admits(run.catalog()[i]),
        0 <= k < ranking(run.results(), top_n).len(),
    ensures
        ranking(run.results(), top_n)[k].relay_hostname@ != run.catalog()[i].hostname@,
{
    let ranked = ranking(run.results(), top_n);
    ranking_holds_only_results(run.results(), top_n, k);
    let m = choose|m: int| 0 <= m < run.results().len() && run.results()[m] == ranked[k];
    let j = run.sources()[m];
    assert(run.result_from(m, j));
    if i < j {
        assert(run.catalog()[i].hostname@ != run.catalog()[j].hostname@);
    } else if j < i {
        assert(run.catalog()[j].hostname@ != run.catalog()[i].hostname@);
    }
}

} // verus!
