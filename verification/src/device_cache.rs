//! The in-memory device list the command layer works from: devices found
//! by scanning, deduplicated by identifier, looked up by identifier when
//! a command names one. Reading and writing the on-disk copy is the
//! caller's business.

use vstd::prelude::*;
use crate::device::{Device, DeviceView};
use crate::error::Error;

verus! {

/// The known devices, in insertion order, at most one per identifier.
pub struct DeviceCache {
    devices: Vec<Device>,
}

impl View for DeviceCache {
    type V = Seq<DeviceView>;

    closed spec fn view(&self) -> Seq<DeviceView> {
        self.devices.deep_view()
    }
}

/// The first device in the list carrying the given identifier.
pub open spec fn find_by_id(s: Seq<DeviceView>, id: Seq<char>) -> Option<DeviceView>
    decreases s.len(),
{
    if s.len() == 0 {
        None
    } else if s.first().id == id {
        Some(s.first())
    } else {
        find_by_id(s.drop_first(), id)
    }
}

impl DeviceCache {
    /// A cache holding the given devices.
    pub fn new(devices: Vec<Device>) -> (r: Self)
        ensures
            r@ == devices.deep_view(),
    {
        DeviceCache { devices }
    }

    /// Remembers a device unless one with its identifier is already
    /// known; says whether it was added.
    pub fn add(&mut self, device: &Device) -> (r: bool)
        ensures
            find_by_id(old(self)@, device@.id) is Some ==> !r && final(self)@ == old(self)@,
            find_by_id(old(self)@, device@.id) is None ==> r && final(self)@ == old(self)@.push(
                device@,
            ),
    {
        if self.find_index(device.id.as_str()).is_some() {
            false
        } else {
            self.devices.push(device.duplicate());
            proof {
                assert(self@ =~= old(self)@.push(device@));
            }
            true
        }
    }

    /// All known devices, as copies.
    pub fn devices(&self) -> (r: Vec<Device>)
        ensures
            r.deep_view() == self@,
    {
        let mut r: Vec<Device> = Vec::new();
        let mut i: usize = 0;
        while i < self.devices.len()
            invariant
                i <= self.devices@.len(),
                r@.len() == i,
                forall|k: int| 0 <= k < i ==> (#[trigger] r@[k])@ == self@[k],
            decreases self.devices@.len() - i,
        {
            r.push(self.devices[i].duplicate());
            i = i + 1;
        }
        proof {
            assert(r.deep_view() =~= self@);
        }
        r
    }

    /// The device with the given identifier, or a not-found error naming
    /// the identifier.
    pub fn lookup(&self, device_id: &str) -> (r: Result<Device, Error>)
        ensures
            match r {
                Ok(d) => find_by_id(self@, device_id@) == Some(d@),
                Err(e) => find_by_id(self@, device_id@) is None && (e matches
                    Error::DeviceNotFound { device_id: missing } && missing@ == device_id@),
            },
    {
        match self.find_index(device_id) {
            Some(i) => Ok(self.devices[i].duplicate()),
            None => Err(Error::DeviceNotFound { device_id: device_id.to_owned() }),
        }
    }

    /// The index of the first device with the given identifier.
    fn find_index(&self, device_id: &str) -> (r: Option<usize>)
        ensures
            match r {
                Some(i) => i < self@.len() && find_by_id(self@, device_id@) == Some(self@[i as int]),
                None => find_by_id(self@, device_id@) is None,
            },
    {
        let ghost full = self@;
        let mut i: usize = 0;
        proof {
            assert(full.skip(0) =~= full);
        }
        while i < self.devices.len()
            invariant
                i <= self.devices@.len(),
                full == self@,
                find_by_id(full, device_id@) == find_by_id(full.skip(i as int), device_id@),
            decreases self.devices@.len() - i,
        {
            proof {
                assert(full.skip(i as int).first() == full[i as int]);
            }
            let id_str: &str = self.devices[i].id.as_str();
            if substr_equal(id_str, device_id) {
                return Some(i);
            }
            proof {
                assert(full.skip(i as int).drop_first() =~= full.skip(i + 1));
            }
            i = i + 1;
        }
        None
    }
}

impl Default for DeviceCache {
    /// An empty cache.
    fn default() -> (r: Self)
        ensures
            r@ == Seq::<DeviceView>::empty(),
    {
        let r = DeviceCache { devices: Vec::new() };
        proof {
            assert(r@ =~= Seq::<DeviceView>::empty());
        }
        r
    }
}

/// Whether two string slices hold the same characters.
fn substr_equal(a: &str, b: &str) -> (r: bool)
    ensures
        r == (a@ == b@),
{
    let sa = a.to_owned();
    let sb = b.to_owned();
    sa == sb
}

} // verus!
