//! The discovery aggregator: partial attribute records arrive one at a
//! time, keyed by device name, and a complete [`Device`] is emitted the
//! moment a name has a description, an address, a port and an embedded
//! `id=` entry.

use vstd::prelude::*;
use vstd::hash_map::StringHashMap;
use crate::device::{clone_string_vec, Device, DeviceView};
use crate::netutils::IpAddress;

verus! {

/// The kinds of discovery record the aggregator reads. Anything else a
/// response may carry is [`RecordKind::Other`] and is ignored.
#[derive(Debug, Clone)]
pub enum RecordKind {
    /// Free-form `key=value` strings describing the device.
    Txt(Vec<String>),
    /// An IPv4 address record.
    A(IpAddress),
    /// An IPv6 address record.
    Aaaa(IpAddress),
    /// A service record; only the port matters here.
    Srv { port: u16 },
    /// Any record kind the aggregator does not read.
    Other,
}

/// The mathematical value of a [`RecordKind`].
pub enum RecordKindView {
    Txt(Seq<Seq<char>>),
    A(IpAddress),
    Aaaa(IpAddress),
    Srv { port: u16 },
    Other,
}

impl View for RecordKind {
    type V = RecordKindView;

    open spec fn view(&self) -> RecordKindView {
        match self {
            RecordKind::Txt(t) => RecordKindView::Txt(t.deep_view()),
            RecordKind::A(ip) => RecordKindView::A(*ip),
            RecordKind::Aaaa(ip) => RecordKindView::Aaaa(*ip),
            RecordKind::Srv { port } => RecordKindView::Srv { port: *port },
            RecordKind::Other => RecordKindView::Other,
        }
    }
}

/// One discovery answer fragment: a dotted name and one record kind.
#[derive(Debug, Clone)]
pub struct Record {
    pub name: String,
    pub kind: RecordKind,
}

/// The mathematical value of a [`Record`].
pub struct RecordView {
    pub name: Seq<char>,
    pub kind: RecordKindView,
}

impl View for Record {
    type V = RecordView;

    open spec fn view(&self) -> RecordView {
        RecordView { name: self.name@, kind: self.kind@ }
    }
}

impl DeepView for Record {
    type V = RecordView;

    open spec fn deep_view(&self) -> RecordView {
        self.view()
    }
}

/// The three per-name slots the aggregator fills: description, address,
/// port. A newly arriving record of a kind overwrites its slot.
#[derive(Debug)]
pub struct PartialAttributes {
    pub desc: Option<Vec<String>>,
    pub ip: Option<IpAddress>,
    pub port: Option<u16>,
}

/// The mathematical value of a [`PartialAttributes`].
pub struct AttrsView {
    pub desc: Option<Seq<Seq<char>>>,
    pub ip: Option<IpAddress>,
    pub port: Option<u16>,
}

impl View for PartialAttributes {
    type V = AttrsView;

    open spec fn view(&self) -> AttrsView {
        AttrsView { desc: self.desc.deep_view(), ip: self.ip, port: self.port }
    }
}

/// Attributes with no slot filled yet.
pub open spec fn empty_attrs() -> AttrsView {
    AttrsView { desc: None, ip: None, port: None }
}

/// How one record kind changes a name's slots: it overwrites the slot it
/// belongs to and leaves the other two alone.
pub open spec fn spec_apply(a: AttrsView, k: RecordKindView) -> AttrsView {
    match k {
        RecordKindView::Txt(t) => AttrsView { desc: Some(t), ip: a.ip, port: a.port },
        RecordKindView::A(ip) => AttrsView { desc: a.desc, ip: Some(ip), port: a.port },
        RecordKindView::Aaaa(ip) => AttrsView { desc: a.desc, ip: Some(ip), port: a.port },
        RecordKindView::Srv { port } => AttrsView { desc: a.desc, ip: a.ip, port: Some(port) },
        RecordKindView::Other => a,
    }
}

/// All three slots are filled.
pub open spec fn attrs_complete(a: AttrsView) -> bool {
    a.desc is Some && a.ip is Some && a.port is Some
}

/// The line carries an identifier: it starts with the literal `id=`.
pub open spec fn is_id_entry(line: Seq<char>) -> bool {
    line.len() >= 3 && line[0] == 'i' && line[1] == 'd' && line[2] == '='
}

/// The identifier embedded in a TXT description: what follows `id=` on
/// the first line that starts with it, passed through unvalidated.
pub open spec fn spec_lookup_id(desc: Seq<Seq<char>>) -> Option<Seq<char>>
    decreases desc.len(),
{
    if desc.len() == 0 {
        None
    } else if is_id_entry(desc.first()) {
        Some(desc.first().skip(3))
    } else {
        spec_lookup_id(desc.drop_first())
    }
}

/// The index of the first `.` in `s`, or `s.len()` if there is none.
pub open spec fn first_dot(s: Seq<char>) -> int
    decreases s.len(),
{
    if s.len() == 0 {
        0
    } else if s.first() == '.' {
        0
    } else {
        1 + first_dot(s.drop_first())
    }
}

/// The aggregation key of a record name: the substring up to (excluding)
/// the first `.`.
pub open spec fn norm_key(s: Seq<char>) -> Seq<char> {
    s.take(first_dot(s))
}

/// `first_dot` points at the first dot: nothing before it is a dot, and
/// the character there (if the index is within the string) is one.
pub proof fn lemma_first_dot(s: Seq<char>)
    ensures
        0 <= first_dot(s) <= s.len(),
        forall|j: int| 0 <= j < first_dot(s) ==> s[j] != '.',
        first_dot(s) < s.len() ==> s[first_dot(s)] == '.',
    decreases s.len(),
{
    if s.len() == 0 {
    } else if s.first() == '.' {
    } else {
        lemma_first_dot(s.drop_first());
        assert forall|j: int| 0 <= j < first_dot(s) implies s[j] != '.' by {
            if j > 0 {
                assert(s.drop_first()[j - 1] == s[j]);
            }
        }
        if first_dot(s) < s.len() {
            assert(s.drop_first()[first_dot(s.drop_first())] == s[first_dot(s)]);
        }
    }
}

/// Cuts a record name down to its aggregation key.
pub fn normalized_name(name: &str) -> (r: String)
    ensures
        r@ == norm_key(name@),
{
    let len = name.unicode_len();
    let mut i: usize = 0;
    while i < len && name.get_char(i) != '.'
        invariant
            i <= len == name@.len(),
            forall|j: int| 0 <= j < i ==> name@[j] != '.',
        decreases len - i,
    {
        i = i + 1;
    }
    proof {
        lemma_first_dot(name@);
        let fd = first_dot(name@);
        if i < fd {
            assert(name@[i as int] != '.');
            assert(false);
        }
        if fd < i {
            assert(name@[fd] != '.');
            assert(false);
        }
    }
    let pre = name.substring_char(0, i);
    pre.to_owned()
}

/// Finds the `id=` entry of a description, if one is there, and hands
/// back what follows the prefix.
fn lookup_id(txt: &Vec<String>) -> (r: Option<String>)
    ensures
        r.deep_view() == spec_lookup_id(txt.deep_view()),
{
    let ghost full = txt.deep_view();
    let mut i: usize = 0;
    proof {
        assert(full.skip(0) =~= full);
    }
    while i < txt.len()
        invariant
            i <= txt@.len(),
            full == txt.deep_view(),
            spec_lookup_id(full) == spec_lookup_id(full.skip(i as int)),
        decreases txt@.len() - i,
    {
        let line = txt[i].as_str();
        let len = line.unicode_len();
        proof {
            assert(full.skip(i as int).first() == line@);
        }
        if len >= 3 && line.get_char(0) == 'i' && line.get_char(1) == 'd' && line.get_char(2)
            == '=' {
            let id = line.substring_char(3, len);
            return Some(id.to_owned());
        }
        proof {
            assert(!is_id_entry(line@));
            assert(full.skip(i as int).drop_first() =~= full.skip(i + 1));
        }
        i = i + 1;
    }
    None
}

/// What one `add` does to the table and what it emits: the record's kind
/// overwrites its slot under the record's key; if that leaves the key with
/// all three slots filled and an `id=` entry in its description, a device
/// is built from the slots and the entry is deleted, else the new slots
/// are stored.
pub open spec fn spec_add(m: Map<Seq<char>, AttrsView>, rec: RecordView) -> (Map<
    Seq<char>,
    AttrsView,
>, Option<DeviceView>) {
    let key = norm_key(rec.name);
    let prev = if m.dom().contains(key) {
        m[key]
    } else {
        empty_attrs()
    };
    let a = spec_apply(prev, rec.kind);
    if spec_emit(key, a) is Some {
        (m.remove(key), spec_emit(key, a))
    } else {
        (m.insert(key, a), None)
    }
}

/// The device a key emits once its slots allow it: complete slots and an
/// `id=` entry present.
pub open spec fn spec_emit(key: Seq<char>, a: AttrsView) -> Option<DeviceView> {
    if attrs_complete(a) && spec_lookup_id(a.desc->0) is Some {
        Some(
            DeviceView {
                name: key,
                id: spec_lookup_id(a.desc->0)->0,
                desc: a.desc->0,
                ip: a.ip->0,
                port: a.port->0,
            },
        )
    } else {
        None
    }
}

/// Accumulates partial attribute records keyed by device name and emits a
/// complete [`Device`] once name, address, port and identifier are all
/// known. Its view is the table of not-yet-complete entries.
pub struct DeviceAttributes {
    table: StringHashMap<PartialAttributes>,
}

impl View for DeviceAttributes {
    type V = Map<Seq<char>, AttrsView>;

    closed spec fn view(&self) -> Map<Seq<char>, AttrsView> {
        Map::new(
            |k: Seq<char>| self.table@.dom().contains(k),
            |k: Seq<char>| self.table@[k]@,
        )
    }
}

impl DeviceAttributes {
    /// An aggregator with no partial entries.
    pub fn new() -> (r: Self)
        ensures
            r@ == Map::<Seq<char>, AttrsView>::empty(),
    {
        let r = DeviceAttributes { table: StringHashMap::new() };
        proof {
            assert(r@ =~= Map::<Seq<char>, AttrsView>::empty());
        }
        r
    }

    /// Whether a partial entry is stored under the given (already
    /// normalized) name.
    pub fn contains_name(&self, name: &str) -> (r: bool)
        ensures
            r == self@.dom().contains(name@),
    {
        self.table.contains_key(name)
    }

    /// Feeds one record in. The record's kind overwrites its slot under
    /// the record's normalized name; the complete device is handed back
    /// (and its entry deleted) the moment all three slots and the `id=`
    /// entry are present.
    pub fn add(&mut self, record: &Record) -> (r: Option<Device>)
        ensures
            final(self)@ == spec_add(old(self)@, record@).0,
            r.deep_view() == spec_add(old(self)@, record@).1,
    {
        let key = normalized_name(record.name.as_str());
        let mut attrs = match self.table.get(key.as_str()) {
            Some(p) => clone_attrs(p),
            None => PartialAttributes { desc: None, ip: None, port: None },
        };
        proof {
            let prev = if old(self)@.dom().contains(key@) {
                old(self)@[key@]
            } else {
                empty_attrs()
            };
            assert(attrs@ == prev);
        }
        match &record.kind {
            RecordKind::Txt(t) => {
                attrs.desc = Some(clone_string_vec(t));
            },
            RecordKind::A(ip) => {
                attrs.ip = Some(*ip);
            },
            RecordKind::Aaaa(ip) => {
                attrs.ip = Some(*ip);
            },
            RecordKind::Srv { port } => {
                attrs.port = Some(*port);
            },
            RecordKind::Other => {},
        }
        let ghost applied = spec_apply(
            if old(self)@.dom().contains(key@) {
                old(self)@[key@]
            } else {
                empty_attrs()
            },
            record.kind@,
        );
        proof {
            assert(attrs@ == applied);
        }
        let mut emitted: Option<Device> = None;
        if let (Some(desc), Some(ip), Some(port)) = (&attrs.desc, &attrs.ip, &attrs.port) {
            if let Some(id) = lookup_id(desc) {
                emitted = Some(Device::new(key.as_str(), id.as_str(), desc, *ip, *port));
            }
        }
        match emitted {
            Some(device) => {
                self.table.remove(key.as_str());
                proof {
                    assert(self@ =~= old(self)@.remove(key@));
                    assert(device@ == spec_emit(key@, applied)->0);
                }
                Some(device)
            },
            None => {
                proof {
                    assert(spec_emit(key@, applied) is None);
                }
                self.table.insert(key, attrs);
                proof {
                    assert(self@ =~= old(self)@.insert(
                        norm_key(record.name@),
                        applied,
                    ));
                }
                None
            },
        }
    }
}

impl Default for DeviceAttributes {
    /// Same as [`DeviceAttributes::new`].
    fn default() -> (r: Self)
        ensures
            r@ == Map::<Seq<char>, AttrsView>::empty(),
    {
        Self::new()
    }
}

/// Copies a set of slots; the copy has the same view.
fn clone_attrs(a: &PartialAttributes) -> (r: PartialAttributes)
    ensures
        r@ == a@,
{
    let desc = match &a.desc {
        Some(v) => Some(clone_string_vec(v)),
        None => None,
    };
    PartialAttributes { desc, ip: a.ip, port: a.port }
}

/// The TXT payload of a record kind, if it is a TXT record.
pub open spec fn kind_txt(k: RecordKindView) -> Option<Seq<Seq<char>>> {
    match k {
        RecordKindView::Txt(t) => Some(t),
        _ => None,
    }
}

/// The address of a record kind, if it is an address record.
pub open spec fn kind_addr(k: RecordKindView) -> Option<IpAddress> {
    match k {
        RecordKindView::A(ip) => Some(ip),
        RecordKindView::Aaaa(ip) => Some(ip),
        _ => None,
    }
}

/// The port of a record kind, if it is a service record.
pub open spec fn kind_port(k: RecordKindView) -> Option<u16> {
    match k {
        RecordKindView::Srv { port } => Some(port),
        _ => None,
    }
}

/// The three kinds are, in some order, one TXT record, one address
/// record and one service record.
pub open spec fn kind_trio(a: RecordKindView, b: RecordKindView, c: RecordKindView) -> bool {
    ||| (kind_txt(a) is Some && kind_addr(b) is Some && kind_port(c) is Some)
    ||| (kind_txt(a) is Some && kind_port(b) is Some && kind_addr(c) is Some)
    ||| (kind_addr(a) is Some && kind_txt(b) is Some && kind_port(c) is Some)
    ||| (kind_addr(a) is Some && kind_port(b) is Some && kind_txt(c) is Some)
    ||| (kind_port(a) is Some && kind_txt(b) is Some && kind_addr(c) is Some)
    ||| (kind_port(a) is Some && kind_addr(b) is Some && kind_txt(c) is Some)
}

/// The TXT payload among three kinds of which one is a TXT record.
pub open spec fn trio_txt(a: RecordKindView, b: RecordKindView, c: RecordKindView) -> Seq<
    Seq<char>,
> {
    if kind_txt(a) is Some {
        kind_txt(a)->0
    } else if kind_txt(b) is Some {
        kind_txt(b)->0
    } else {
        kind_txt(c)->0
    }
}

/// The address among three kinds of which one is an address record.
pub open spec fn trio_addr(a: RecordKindView, b: RecordKindView, c: RecordKindView) -> IpAddress {
    if kind_addr(a) is Some {
        kind_addr(a)->0
    } else if kind_addr(b) is Some {
        kind_addr(b)->0
    } else {
        kind_addr(c)->0
    }
}

/// The port among three kinds of which one is a service record.
pub open spec fn trio_port(a: RecordKindView, b: RecordKindView, c: RecordKindView) -> u16 {
    if kind_port(a) is Some {
        kind_port(a)->0
    } else if kind_port(b) is Some {
        kind_port(b)->0
    } else {
        kind_port(c)->0
    }
}

/// Aggregation completeness: one TXT record whose payload carries an
/// `id=` entry, one address record and one service record, sharing one
/// normalized name and fed to a fresh aggregator in any order, emit
/// nothing at the first two steps and exactly one device at the third,
/// whose fields come from the three records; the emitted name's entry is
/// gone afterwards.
pub proof fn lemma_aggregation_completeness(r0: RecordView, r1: RecordView, r2: RecordView)
    requires
        norm_key(r1.name) == norm_key(r0.name),
        norm_key(r2.name) == norm_key(r0.name),
        kind_trio(r0.kind, r1.kind, r2.kind),
        spec_lookup_id(trio_txt(r0.kind, r1.kind, r2.kind)) is Some,
    ensures
        ({
            let key = norm_key(r0.name);
            let s1 = spec_add(Map::empty(), r0);
            let s2 = spec_add(s1.0, r1);
            let s3 = spec_add(s2.0, r2);
            &&& s1.1 is None
            &&& s2.1 is None
            &&& s3.1 matches Some(d) && d == (DeviceView {
                name: key,
                id: spec_lookup_id(trio_txt(r0.kind, r1.kind, r2.kind))->0,
                desc: trio_txt(r0.kind, r1.kind, r2.kind),
                ip: trio_addr(r0.kind, r1.kind, r2.kind),
                port: trio_port(r0.kind, r1.kind, r2.kind),
            })
            &&& !s3.0.dom().contains(key)
        }),
{
}

/// No premature emission: from a fresh aggregator, no two records — of
/// any kinds and names whatsoever — can emit a device, since at most two
/// of the three slots of any name can be filled.
pub proof fn lemma_no_premature_emission(r0: RecordView, r1: RecordView)
    ensures
        spec_add(Map::empty(), r0).1 is None,
        spec_add(spec_add(Map::empty(), r0).0, r1).1 is None,
{
}

/// A TXT record without an `id=` entry never lets its name emit: with
/// description, address and port all present but no identifier, every
/// step emits nothing and the entry stays in the table.
pub proof fn lemma_missing_id_never_emits(r0: RecordView, r1: RecordView, r2: RecordView)
    requires
        norm_key(r1.name) == norm_key(r0.name),
        norm_key(r2.name) == norm_key(r0.name),
        kind_trio(r0.kind, r1.kind, r2.kind),
        spec_lookup_id(trio_txt(r0.kind, r1.kind, r2.kind)) is None,
    ensures
        ({
            let key = norm_key(r0.name);
            let s1 = spec_add(Map::empty(), r0);
            let s2 = spec_add(s1.0, r1);
            let s3 = spec_add(s2.0, r2);
            &&& s1.1 is None
            &&& s2.1 is None
            &&& s3.1 is None
            &&& s3.0.dom().contains(key)
        }),
{
}

/// One-shot emission: the moment a name emits, its entry is deleted, so
/// one further record for that name cannot emit again — the slots have
/// to be re-established from scratch first.
pub proof fn lemma_one_shot_emission(
    m: Map<Seq<char>, AttrsView>,
    r: RecordView,
    r2: RecordView,
)
    requires
        spec_add(m, r).1 is Some,
        norm_key(r2.name) == norm_key(r.name),
    ensures
        !spec_add(m, r).0.dom().contains(norm_key(r.name)),
        spec_add(spec_add(m, r).0, r2).1 is None,
{
}

} // verus!
