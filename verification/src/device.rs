//! The device record that discovery produces: an immutable value holding
//! everything later commands need to address one appliance.

use vstd::prelude::*;
use crate::netutils::IpAddress;

verus! {

/// A fully discovered device. Built exactly once, by the aggregator, when
/// the name, the address, the port and the embedded identifier have all
/// arrived; never mutated afterwards.
#[derive(Debug, Clone)]
pub struct Device {
    /// The leading label of the discovery record's name, up to the first `.`.
    pub name: String,
    /// The value of the `id=` entry of the TXT record.
    pub id: String,
    /// The raw TXT strings, in the order they were received.
    pub desc: Vec<String>,
    /// Where the device answers.
    pub ip: IpAddress,
    /// The port the SRV record announced.
    pub port: u16,
}

/// The mathematical value of a [`Device`]: every field as a plain sequence
/// or number. Two devices are duplicates exactly when their views are equal.
#[verifier::ext_equal]
pub struct DeviceView {
    pub name: Seq<char>,
    pub id: Seq<char>,
    pub desc: Seq<Seq<char>>,
    pub ip: IpAddress,
    pub port: u16,
}

impl View for Device {
    type V = DeviceView;

    open spec fn view(&self) -> DeviceView {
        DeviceView {
            name: self.name@,
            id: self.id@,
            desc: self.desc.deep_view(),
            ip: self.ip,
            port: self.port,
        }
    }
}

impl DeepView for Device {
    type V = DeviceView;

    open spec fn deep_view(&self) -> DeviceView {
        self.view()
    }
}

impl Device {
    /// Assembles a device from its parts.
    pub fn new(name: &str, id: &str, desc: &Vec<String>, ip: IpAddress, port: u16) -> (r: Device)
        ensures
            r@ == (DeviceView { name: name@, id: id@, desc: desc.deep_view(), ip, port }),
    {
        let r = Device {
            name: name.to_owned(),
            id: id.to_owned(),
            desc: clone_string_vec(desc),
            ip,
            port,
        };
        proof {
            assert(r@ =~= (DeviceView { name: name@, id: id@, desc: desc.deep_view(), ip, port }));
        }
        r
    }

    /// A copy with the same view, for handing one device to two owners.
    pub fn duplicate(&self) -> (r: Device)
        ensures
            r@ == self@,
    {
        let r = Device::new(self.name.as_str(), self.id.as_str(), &self.desc, self.ip, self.port);
        proof {
            assert(r@ =~= self@);
        }
        r
    }

    /// Full-equality test, field by field; duplicates are exactly the
    /// devices whose views coincide.
    pub fn same_as(&self, other: &Device) -> (r: bool)
        ensures
            r == (self@ == other@),
    {
        let r = self.name == other.name && self.id == other.id && string_vecs_equal(
            &self.desc,
            &other.desc,
        ) && self.ip == other.ip && self.port == other.port;
        proof {
            if r {
                assert(self@ =~= other@);
            }
        }
        r
    }
}

/// Copies a vector of strings; the copy has the same view.
pub(crate) fn clone_string_vec(v: &Vec<String>) -> (r: Vec<String>)
    ensures
        r.deep_view() == v.deep_view(),
        r@.len() == v@.len(),
{
    let r = v.clone();
    proof {
        assert forall|i: int| 0 <= i < v@.len() implies r@[i]@ == v@[i]@ by {
            assert(cloned::<String>(v@[i], r@[i]));
        }
        assert(r.deep_view() =~= v.deep_view());
    }
    r
}

/// Whether two vectors of strings hold the same strings in the same order.
pub fn string_vecs_equal(a: &Vec<String>, b: &Vec<String>) -> (r: bool)
    ensures
        r == (a.deep_view() == b.deep_view()),
{
    if a.len() != b.len() {
        proof {
            assert(a.deep_view().len() == a@.len());
            assert(b.deep_view().len() == b@.len());
        }
        return false;
    }
    let mut i: usize = 0;
    while i < a.len()
        invariant
            i <= a@.len(),
            a@.len() == b@.len(),
            forall|j: int| 0 <= j < i ==> a.deep_view()[j] == b.deep_view()[j],
        decreases a@.len() - i,
    {
        if !(a[i] == b[i]) {
            proof {
                assert(a.deep_view()[i as int] != b.deep_view()[i as int]);
            }
            return false;
        }
        i = i + 1;
    }
    proof {
        assert(a.deep_view() =~= b.deep_view());
    }
    true
}

} // verus!
