//! The discovery scan loop's decision core: records from one query burst
//! run through a fresh aggregator, and the first device not yet returned
//! in this scanner's lifetime wins. The blocking query itself and the
//! inter-burst sleep live with the caller; this module owns what to do
//! with each burst's records.

use vstd::prelude::*;
use crate::device::{Device, DeviceView};
use crate::device_attr::{spec_add, AttrsView, DeviceAttributes, Record, RecordView};

verus! {

/// The scanner's state: the service name its queries ask for and the
/// devices already returned to the caller in this run.
pub struct Scanner {
    /// The service name to discover.
    pub service_name: String,
    /// The devices already returned, in return order; membership is by
    /// full equality.
    devices: Vec<Device>,
}

/// The mathematical value of a [`Scanner`].
pub struct ScannerView {
    pub service_name: Seq<char>,
    pub devices: Seq<DeviceView>,
}

impl View for Scanner {
    type V = ScannerView;

    closed spec fn view(&self) -> ScannerView {
        ScannerView { service_name: self.service_name@, devices: self.devices.deep_view() }
    }
}

/// What one burst of records yields: the records run, in arrival order,
/// through the aggregator state `table`; the first emitted device not in
/// `seen` is the result, and emitted devices already in `seen` are
/// passed over.
pub open spec fn scan_burst(
    seen: Seq<DeviceView>,
    table: Map<Seq<char>, AttrsView>,
    records: Seq<RecordView>,
) -> Option<DeviceView>
    decreases records.len(),
{
    if records.len() == 0 {
        None
    } else {
        let step = spec_add(table, records.first());
        if step.1 is Some && !seen.contains(step.1->0) {
            step.1
        } else {
            scan_burst(seen, step.0, records.drop_first())
        }
    }
}

/// Dedup: a device already returned is never returned again, whatever
/// records arrive and whatever the aggregator already holds — a repeated
/// resolution of the same device is silently dropped.
pub proof fn lemma_scan_dedup(
    seen: Seq<DeviceView>,
    table: Map<Seq<char>, AttrsView>,
    records: Seq<RecordView>,
    d: DeviceView,
)
    requires
        seen.contains(d),
    ensures
        scan_burst(seen, table, records) != Some(d),
    decreases records.len(),
{
    if records.len() > 0 {
        let step = spec_add(table, records.first());
        if !(step.1 matches Some(e) && !seen.contains(e)) {
            lemma_scan_dedup(seen, step.0, records.drop_first(), d);
        }
    }
}

impl Scanner {
    /// A scanner for the given service name that has returned nothing yet.
    pub fn new(service_name: String) -> (r: Self)
        ensures
            r@.service_name == service_name@,
            r@.devices == Seq::<DeviceView>::empty(),
    {
        let r = Scanner { service_name, devices: Vec::new() };
        proof {
            assert(r@.devices =~= Seq::<DeviceView>::empty());
        }
        r
    }

    /// Runs one burst's records through a fresh aggregator. The first
    /// record sequence that completes a not-yet-seen device wins: that
    /// device is recorded as seen and returned, short-circuiting the rest
    /// of the burst. Devices that were already seen are dropped silently.
    pub fn process_burst(&mut self, records: &Vec<Record>) -> (r: Option<Device>)
        ensures
            final(self)@.service_name == old(self)@.service_name,
            r.deep_view() == scan_burst(
                old(self)@.devices,
                Map::<Seq<char>, AttrsView>::empty(),
                records.deep_view(),
            ),
            match r {
                Some(d) => final(self)@.devices == old(self)@.devices.push(d@),
                None => final(self)@.devices == old(self)@.devices,
            },
    {
        let ghost seen0 = self@.devices;
        let ghost all = records.deep_view();
        let mut attrs = DeviceAttributes::new();
        let mut i: usize = 0;
        proof {
            assert(all.skip(0) =~= all);
        }
        while i < records.len()
            invariant
                i <= records@.len(),
                all == records.deep_view(),
                seen0 == self@.devices,
                self == old(self),
                scan_burst(seen0, Map::<Seq<char>, AttrsView>::empty(), all) == scan_burst(
                    seen0,
                    attrs@,
                    all.skip(i as int),
                ),
            decreases records@.len() - i,
        {
            proof {
                assert(all.skip(i as int).first() == records@[i as int]@);
            }
            let emitted = attrs.add(&records[i]);
            if let Some(device) = emitted {
                if !contains_device(&self.devices, &device) {
                    self.devices.push(device.duplicate());
                    proof {
                        assert(self@.devices =~= seen0.push(device@));
                    }
                    return Some(device);
                }
            }
            proof {
                assert(all.skip(i as int).drop_first() =~= all.skip(i + 1));
            }
            i = i + 1;
        }
        None
    }
}

/// Whether the list holds a device fully equal to `d`.
fn contains_device(list: &Vec<Device>, d: &Device) -> (r: bool)
    ensures
        r == list.deep_view().contains(d@),
{
    let mut i: usize = 0;
    while i < list.len()
        invariant
            i <= list@.len(),
            forall|j: int| 0 <= j < i ==> list.deep_view()[j] != d@,
        decreases list@.len() - i,
    {
        if list[i].same_as(d) {
            proof {
                assert(list.deep_view()[i as int] == d@);
            }
            return true;
        }
        i = i + 1;
    }
    proof {
        assert(!list.deep_view().contains(d@));
    }
    false
}

} // verus!
