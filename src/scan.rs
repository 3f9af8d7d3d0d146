//! The batch of one scan: the addresses to visit and what became of each device.

use vstd::prelude::*;
use crate::dialplans::DialPlanConfig;
use crate::export::config_rows;
use crate::session::DeviceFailure;

verus! {

/// The IPv4 addresses from `start` to `end`, both included, as integers.
pub fn ip_range(start: u32, end: u32) -> (r: Vec<u32>)
    ensures
        start <= end ==> r@.len() == end - start + 1,
        start > end ==> r@.len() == 0,
        forall|k: int| 0 <= k < r@.len() ==> r@[k] == start + k,
{
    let mut r: Vec<u32> = Vec::new();
    if start > end {
        return r;
    }
    let mut a: u32 = start;
    loop
        invariant
            start <= a <= end,
            r@.len() == a - start,
            forall|k: int| 0 <= k < r@.len() ==> r@[k] == start + k,
        decreases end - a,
    {
        r.push(a);
        if a == end {
            return r;
        }
        a = a + 1;
    }
}

/// The dial plans of the devices that answered, in order.
pub open spec fn succeeded(outcomes: Seq<Result<DialPlanConfig, DeviceFailure>>) -> Seq<DialPlanConfig>
    decreases outcomes.len(),
{
    if outcomes.len() == 0 {
        Seq::empty()
    } else {
        let prev = succeeded(outcomes.drop_last());
        match outcomes.last() {
            Ok(c) => prev.push(c),
            Err(_) => prev,
        }
    }
}

/// The failures of the devices that did not, in order.
pub open spec fn failed(outcomes: Seq<Result<DialPlanConfig, DeviceFailure>>) -> Seq<DeviceFailure>
    decreases outcomes.len(),
{
    if outcomes.len() == 0 {
        Seq::empty()
    } else {
        let prev = failed(outcomes.drop_last());
        match outcomes.last() {
            Ok(_) => prev,
            Err(e) => prev.push(e),
        }
    }
}

/// What a scan has found so far: the dial plans of each device that answered, and
/// the failure of each that did not.
pub struct ScanReport {
    pub configs: Vec<DialPlanConfig>,
    pub failures: Vec<(u32, DeviceFailure)>,
}

impl ScanReport {
    /// A report on no device.
    pub fn new() -> (r: ScanReport)
        ensures
            r.configs@.len() == 0,
            r.failures@.len() == 0,
    {
        ScanReport { configs: Vec::new(), failures: Vec::new() }
    }

    /// Records what became of the device at `address`.
    pub fn record(&mut self, address: u32, outcome: Result<DialPlanConfig, DeviceFailure>)
        ensures
            outcome matches Ok(c) ==> final(self).configs@ == old(self).configs@.push(c)
                && final(self).failures@ == old(self).failures@,
            outcome matches Err(e) ==> final(self).failures@ == old(self).failures@.push((address, e))
                && final(self).configs@ == old(self).configs@,
    {
        match outcome {
            Ok(c) => self.configs.push(c),
            Err(e) => self.failures.push((address, e)),
        }
    }
}

/// The report on a batch of devices, one outcome each, in order.
pub fn summarize(outcomes: Vec<(u32, Result<DialPlanConfig, DeviceFailure>)>) -> (r: ScanReport)
    ensures
        r.configs@ == succeeded(outcomes@.map_values(|o: (u32, Result<DialPlanConfig, DeviceFailure>)| o.1)),
        r.failures@.map_values(|f: (u32, DeviceFailure)| f.1) == failed(
            outcomes@.map_values(|o: (u32, Result<DialPlanConfig, DeviceFailure>)| o.1),
        ),
{
    let ghost all = outcomes@.map_values(|o: (u32, Result<DialPlanConfig, DeviceFailure>)| o.1);
    let mut report = ScanReport::new();
    let mut rest = outcomes;
    let ghost orig = rest@;
    assert(orig.len() == rest.len());
    assert(orig.subrange(0, orig.len() as int) =~= orig);
    let mut k: usize = 0;
    while rest.len() > 0
        invariant
            all == orig.map_values(|o: (u32, Result<DialPlanConfig, DeviceFailure>)| o.1),
            k <= orig.len() <= usize::MAX,
            rest@ == orig.subrange(k as int, orig.len() as int),
            report.configs@ == succeeded(all.subrange(0, k as int)),
            report.failures@.map_values(|f: (u32, DeviceFailure)| f.1) == failed(all.subrange(0, k as int)),
        decreases rest.len(),
    {
        let (address, outcome) = rest.remove(0);
        assert(all.subrange(0, k + 1).drop_last() =~= all.subrange(0, k as int));
        assert(outcome == all[k as int]);
        report.record(address, outcome);
        assert(report.failures@.map_values(|f: (u32, DeviceFailure)| f.1) =~= failed(all.subrange(0, k + 1)));
        k = k + 1;
        assert(rest@ =~= orig.subrange(k as int, orig.len() as int));
    }
    assert(all.subrange(0, k as int) =~= all);
    report
}

/// A batch in which no device answered yields one failure per device and no
/// dial plans, so the export holds no row.
pub proof fn unreachable_batch_exports_nothing(outcomes: Seq<Result<DialPlanConfig, DeviceFailure>>)
    requires
        forall|t: int| 0 <= t < outcomes.len() ==> #[trigger] outcomes[t] is Err,
    ensures
        failed(outcomes).len() == outcomes.len(),
        succeeded(outcomes).len() == 0,
        config_rows(succeeded(outcomes)).len() == 0,
    decreases outcomes.len(),
{
    if outcomes.len() > 0 {
        let prev = outcomes.drop_last();
        assert forall|t: int| 0 <= t < prev.len() implies #[trigger] prev[t] is Err by {
            assert(prev[t] == outcomes[t]);
        }
        unreachable_batch_exports_nothing(prev);
        assert(outcomes[outcomes.len() - 1] is Err);
    }
}

} // verus!
