//! PCI-ID database parser and exact-match device cache.
//!
//! The database is a flat text file: a commented header, then vendor blocks.
//! A vendor line is `<4-hex-id><2 spaces><name>`; beneath it, device lines
//! are indented with one tab (`\t<4-hex-id><2 spaces><name>`), and subsystem
//! lines with two (`\t\t<4-hex-vendor><space><4-hex-id><2 spaces><name>`).
//! Comment lines starting with `#` may sit between records.

use crate::text::{
    find_sub, find_sub_at, hex4_val, is_hex4, lemma_find_sub_at, match_at, match_at_spec, opt_view,
    parse_hex4, seq_view, DbError, ParseError, Scan,
};
use vstd::prelude::*;

verus! {

// ---------- data model ----------

/// A subsystem entry beneath a device.
#[derive(Debug, PartialEq)]
pub struct Subsystem {
    pub id: u16,
    pub name: String,
}

/// A device entry beneath a vendor.
#[derive(Debug, PartialEq)]
pub struct Device {
    pub id: u16,
    pub name: String,
    pub subsystems: Vec<Subsystem>,
}

/// A vendor block and all devices recorded beneath it; device ids are
/// unique within a vendor, a later line replacing an earlier one with the
/// same id.
#[derive(Debug, PartialEq)]
pub struct Vendor {
    pub id: u16,
    pub name: String,
    pub devices: Vec<Device>,
}

#[verifier::ext_equal]
pub ghost struct SubsystemView {
    pub id: u16,
    pub name: Seq<char>,
}

#[verifier::ext_equal]
pub ghost struct DeviceView {
    pub id: u16,
    pub name: Seq<char>,
    pub subsystems: Seq<SubsystemView>,
}

#[verifier::ext_equal]
pub ghost struct VendorView {
    pub id: u16,
    pub name: Seq<char>,
    pub devices: Seq<DeviceView>,
}

impl View for Subsystem {
    type V = SubsystemView;

    open spec fn view(&self) -> SubsystemView {
        SubsystemView { id: self.id, name: self.name@ }
    }
}

impl View for Device {
    type V = DeviceView;

    open spec fn view(&self) -> DeviceView {
        DeviceView { id: self.id, name: self.name@, subsystems: seq_view(self.subsystems@) }
    }
}

impl View for Vendor {
    type V = VendorView;

    open spec fn view(&self) -> VendorView {
        VendorView { id: self.id, name: self.name@, devices: seq_view(self.devices@) }
    }
}

// ---------- grammar, one spec function per rule ----------

/// One subsystem line: two tabs, four ignored characters and a space (the
/// subsystem vendor), the four-hex-digit subsystem id, two spaces, then the
/// name running to the end of the line.
pub open spec fn spec_subsystem_line(s: Seq<char>) -> Scan<SubsystemView> {
    if s.len() >= 13 && s[0] == '\t' && s[1] == '\t' && s[6] == ' ' && s[11] == ' ' && s[12]
        == ' ' {
        match find_sub_at(s, "\n"@, 13) {
            Some(k) => if is_hex4(s.subrange(7, 11)) {
                Scan::Found(
                    s.subrange(k + 1, s.len() as int),
                    SubsystemView {
                        id: hex4_val(s.subrange(7, 11)) as u16,
                        name: s.subrange(13, k),
                    },
                )
            } else {
                Scan::Fault
            },
            None => Scan::Stop,
        }
    } else {
        Scan::Stop
    }
}

/// Zero or more subsystem lines, with comment lines skipped between them.
pub open spec fn spec_subsystems(s: Seq<char>) -> Scan<Seq<SubsystemView>>
    decreases s.len(),
{
    match spec_subsystem_line(s) {
        Scan::Found(rest, ss) => if rest.len() < s.len() {
            match spec_subsystems(rest) {
                Scan::Found(r2, l) => Scan::Found(r2, seq![ss] + l),
                Scan::Stop => Scan::Stop,
                Scan::Fault => Scan::Fault,
            }
        } else {
            Scan::Stop
        },
        Scan::Stop => if s.len() > 0 && s[0] == '#' {
            match find_sub_at(s, "\n"@, 0) {
                Some(k) => if 0 <= k && k + 1 <= s.len() {
                    spec_subsystems(s.subrange(k + 1, s.len() as int))
                } else {
                    Scan::Stop
                },
                None => Scan::Stop,
            }
        } else {
            Scan::Found(s, Seq::empty())
        },
        Scan::Fault => Scan::Fault,
    }
}

/// One device line (a tab, the four-hex-digit device id, two spaces, the
/// name to end of line) followed by its subsystem lines.
pub open spec fn spec_device(s: Seq<char>) -> Scan<DeviceView> {
    if s.len() >= 7 && s[0] == '\t' && s[5] == ' ' && s[6] == ' ' {
        match find_sub_at(s, "\n"@, 7) {
            Some(k) => if 0 <= k && k + 1 <= s.len() {
                match spec_subsystems(s.subrange(k + 1, s.len() as int)) {
                    Scan::Found(rest, subs) => if is_hex4(s.subrange(1, 5)) {
                        Scan::Found(
                            rest,
                            DeviceView {
                                id: hex4_val(s.subrange(1, 5)) as u16,
                                name: s.subrange(7, k),
                                subsystems: subs,
                            },
                        )
                    } else {
                        Scan::Fault
                    },
                    Scan::Stop => Scan::Stop,
                    Scan::Fault => Scan::Fault,
                }
            } else {
                Scan::Stop
            },
            None => Scan::Stop,
        }
    } else {
        Scan::Stop
    }
}

/// Zero or more devices, with comment lines skipped between them.
pub open spec fn spec_devices(s: Seq<char>) -> Scan<Seq<DeviceView>>
    decreases s.len(),
{
    match spec_device(s) {
        Scan::Found(rest, d) => if rest.len() < s.len() {
            match spec_devices(rest) {
                Scan::Found(r2, l) => Scan::Found(r2, seq![d] + l),
                Scan::Stop => Scan::Stop,
                Scan::Fault => Scan::Fault,
            }
        } else {
            Scan::Stop
        },
        Scan::Stop => if s.len() > 0 && s[0] == '#' {
            match find_sub_at(s, "\n"@, 0) {
                Some(k) => if 0 <= k && k + 1 <= s.len() {
                    spec_devices(s.subrange(k + 1, s.len() as int))
                } else {
                    Scan::Stop
                },
                None => Scan::Stop,
            }
        } else {
            Scan::Found(s, Seq::empty())
        },
        Scan::Fault => Scan::Fault,
    }
}

/// Index of the first device carrying `id`.
pub open spec fn spec_first_device_idx(ds: Seq<DeviceView>, id: u16) -> Option<int>
    decreases ds.len(),
{
    if ds.len() == 0 {
        None
    } else if ds[0].id == id {
        Some(0)
    } else {
        match spec_first_device_idx(ds.drop_first(), id) {
            Some(i) => Some(i + 1),
            None => None,
        }
    }
}

/// Store one parsed device: a device whose id is already present replaces
/// the earlier record, as when the lines fill a mapping in order.
pub open spec fn spec_insert_device(acc: Seq<DeviceView>, d: DeviceView) -> Seq<DeviceView> {
    match spec_first_device_idx(acc, d.id) {
        Some(i) => acc.remove(i).push(d),
        None => acc.push(d),
    }
}

/// The device list a vendor's lines build, one record per distinct id.
pub open spec fn spec_dedup_devices(ds: Seq<DeviceView>) -> Seq<DeviceView>
    decreases ds.len(),
{
    if ds.len() == 0 {
        Seq::empty()
    } else {
        spec_insert_device(spec_dedup_devices(ds.drop_last()), ds.last())
    }
}

/// Device ids are pairwise distinct.
pub open spec fn spec_device_ids_unique(ds: Seq<DeviceView>) -> bool {
    forall|i: int, j: int| 0 <= i < j < ds.len() ==> ds[i].id != ds[j].id
}

proof fn lemma_first_device_idx_props(ds: Seq<DeviceView>, id: u16)
    ensures
        match spec_first_device_idx(ds, id) {
            Some(i) => 0 <= i < ds.len() && ds[i].id == id && (forall|j: int|
                0 <= j < i ==> ds[j].id != id),
            None => forall|j: int| 0 <= j < ds.len() ==> ds[j].id != id,
        },
    decreases ds.len(),
{
    if ds.len() > 0 && ds[0].id != id {
        lemma_first_device_idx_props(ds.drop_first(), id);
        let dd = ds.drop_first();
        assert forall|j: int| 0 <= j < dd.len() implies dd[j] == ds[j + 1] by {}
        match spec_first_device_idx(dd, id) {
            Some(i) => {
                assert(dd[i] == ds[i + 1]);
                assert forall|j: int| 0 <= j < i + 1 implies ds[j].id != id by {
                    if j > 0 {
                        assert(dd[j - 1] == ds[j]);
                        assert(dd[j - 1].id != id);
                    }
                }
            },
            None => {
                assert forall|j: int| 0 <= j < ds.len() implies ds[j].id != id by {
                    if j > 0 {
                        assert(dd[j - 1] == ds[j]);
                        assert(dd[j - 1].id != id);
                    }
                }
            },
        }
    }
}

proof fn lemma_insert_device_unique(acc: Seq<DeviceView>, d: DeviceView)
    requires
        spec_device_ids_unique(acc),
    ensures
        spec_device_ids_unique(spec_insert_device(acc, d)),
{
    lemma_first_device_idx_props(acc, d.id);
    match spec_first_device_idx(acc, d.id) {
        Some(i) => {
            let rem = acc.remove(i);
            assert forall|k: int| 0 <= k < rem.len() implies rem[k] == (if k < i {
                acc[k]
            } else {
                acc[k + 1]
            }) by {}
            assert forall|k: int| 0 <= k < rem.len() implies rem[k].id != d.id by {}
        },
        None => {},
    }
}

/// Filling a vendor's device list as a mapping keeps its device ids
/// pairwise distinct, so every parsed vendor holds one record per id.
pub proof fn lemma_dedup_devices_unique(ds: Seq<DeviceView>)
    ensures
        spec_device_ids_unique(spec_dedup_devices(ds)),
    decreases ds.len(),
{
    if ds.len() > 0 {
        lemma_dedup_devices_unique(ds.drop_last());
        lemma_insert_device_unique(spec_dedup_devices(ds.drop_last()), ds.last());
    }
}

/// One vendor line (the four-hex-digit vendor id, two spaces, the name to
/// end of line) followed by its device blocks; the devices fill a mapping
/// keyed by id, a later line replacing an earlier one with the same id.
pub open spec fn spec_vendor(s: Seq<char>) -> Scan<VendorView> {
    if s.len() >= 6 && s[4] == ' ' && s[5] == ' ' {
        match find_sub_at(s, "\n"@, 6) {
            Some(k) => if 0 <= k && k + 1 <= s.len() {
                match spec_devices(s.subrange(k + 1, s.len() as int)) {
                    Scan::Found(rest, devs) => if is_hex4(s.subrange(0, 4)) {
                        Scan::Found(
                            rest,
                            VendorView {
                                id: hex4_val(s.subrange(0, 4)) as u16,
                                name: s.subrange(6, k),
                                devices: spec_dedup_devices(devs),
                            },
                        )
                    } else {
                        Scan::Fault
                    },
                    Scan::Stop => Scan::Stop,
                    Scan::Fault => Scan::Fault,
                }
            } else {
                Scan::Stop
            },
            None => Scan::Stop,
        }
    } else {
        Scan::Stop
    }
}

/// Vendor blocks read one after another until a block no longer matches.
pub open spec fn spec_vendors(s: Seq<char>) -> Scan<Seq<VendorView>>
    decreases s.len(),
{
    match spec_vendor(s) {
        Scan::Found(rest, v) => if rest.len() < s.len() {
            match spec_vendors(rest) {
                Scan::Found(r2, l) => Scan::Found(r2, seq![v] + l),
                Scan::Stop => Scan::Stop,
                Scan::Fault => Scan::Fault,
            }
        } else {
            Scan::Stop
        },
        Scan::Stop => Scan::Found(s, Seq::empty()),
        Scan::Fault => Scan::Fault,
    }
}

/// The whole database: everything before the first `0001 ` line is header
/// and is discarded; vendor blocks follow.
pub open spec fn spec_parse_pcie_db(s: Seq<char>) -> Result<Seq<VendorView>, DbError> {
    match find_sub_at(s, "0001 "@, 0) {
        Some(i) => if 0 <= i <= s.len() {
            match spec_vendors(s.subrange(i, s.len() as int)) {
                Scan::Found(r2, l) => Ok(l),
                _ => Err(DbError::BadField),
            }
        } else {
            Err(DbError::NoStart)
        },
        None => Err(DbError::NoStart),
    }
}

// ---------- progress lemmas ----------

proof fn lemma_subsystem_line_progress(s: Seq<char>)
    ensures
        spec_subsystem_line(s) matches Scan::Found(rest, ss) ==> rest.len() < s.len(),
{
    if s.len() >= 13 && s[0] == '\t' && s[1] == '\t' && s[6] == ' ' && s[11] == ' ' && s[12]
        == ' ' {
        reveal_strlit("\n");
        lemma_find_sub_at(s, "\n"@, 13);
    }
}

proof fn lemma_subsystems_rest(s: Seq<char>)
    ensures
        spec_subsystems(s) matches Scan::Found(rest, l) ==> rest.len() <= s.len(),
    decreases s.len(),
{
    reveal_strlit("\n");
    lemma_subsystem_line_progress(s);
    match spec_subsystem_line(s) {
        Scan::Found(rest, ss) => {
            if rest.len() < s.len() {
                lemma_subsystems_rest(rest);
            }
        },
        Scan::Stop => {
            if s.len() > 0 && s[0] == '#' {
                match find_sub_at(s, "\n"@, 0) {
                    Some(k) => {
                        if 0 <= k && k + 1 <= s.len() {
                            lemma_subsystems_rest(s.subrange(k + 1, s.len() as int));
                        }
                    },
                    None => {},
                }
            }
        },
        Scan::Fault => {},
    }
}

proof fn lemma_device_progress(s: Seq<char>)
    ensures
        spec_device(s) matches Scan::Found(rest, d) ==> rest.len() < s.len(),
{
    if s.len() >= 7 && s[0] == '\t' && s[5] == ' ' && s[6] == ' ' {
        reveal_strlit("\n");
        lemma_find_sub_at(s, "\n"@, 7);
        match find_sub_at(s, "\n"@, 7) {
            Some(k) => {
                if 0 <= k && k + 1 <= s.len() {
                    lemma_subsystems_rest(s.subrange(k + 1, s.len() as int));
                }
            },
            None => {},
        }
    }
}

proof fn lemma_devices_rest(s: Seq<char>)
    ensures
        spec_devices(s) matches Scan::Found(rest, l) ==> rest.len() <= s.len(),
    decreases s.len(),
{
    reveal_strlit("\n");
    lemma_device_progress(s);
    match spec_device(s) {
        Scan::Found(rest, d) => {
            if rest.len() < s.len() {
                lemma_devices_rest(rest);
            }
        },
        Scan::Stop => {
            if s.len() > 0 && s[0] == '#' {
                match find_sub_at(s, "\n"@, 0) {
                    Some(k) => {
                        if 0 <= k && k + 1 <= s.len() {
                            lemma_devices_rest(s.subrange(k + 1, s.len() as int));
                        }
                    },
                    None => {},
                }
            }
        },
        Scan::Fault => {},
    }
}

proof fn lemma_vendor_progress(s: Seq<char>)
    ensures
        spec_vendor(s) matches Scan::Found(rest, v) ==> rest.len() < s.len(),
{
    if s.len() >= 6 && s[4] == ' ' && s[5] == ' ' {
        reveal_strlit("\n");
        lemma_find_sub_at(s, "\n"@, 6);
        match find_sub_at(s, "\n"@, 6) {
            Some(k) => {
                if 0 <= k && k + 1 <= s.len() {
                    lemma_devices_rest(s.subrange(k + 1, s.len() as int));
                }
            },
            None => {},
        }
    }
}

// ---------- parsers ----------

/// Read one subsystem line off the front of the input, returning the text
/// that follows it.
pub fn read_subsystem_line<'a>(input: &'a str) -> (r: Result<(&'a str, Subsystem), ParseError>)
    ensures
        match r {
            Ok((rest, ss)) => spec_subsystem_line(input@) == Scan::Found(rest@, ss@),
            Err(ParseError::Mismatch) => spec_subsystem_line(input@) is Stop,
            Err(ParseError::BadField) => spec_subsystem_line(input@) is Fault,
        },
{
    proof {
        reveal_strlit("\n");
    }
    let n = input.unicode_len();
    if n < 13 {
        return Err(ParseError::Mismatch);
    }
    if input.get_char(0) != '\t' || input.get_char(1) != '\t' || input.get_char(6) != ' '
        || input.get_char(11) != ' ' || input.get_char(12) != ' ' {
        return Err(ParseError::Mismatch);
    }
    match find_sub(input, "\n", 13) {
        None => Err(ParseError::Mismatch),
        Some(k) => {
            match parse_hex4(input, 7) {
                Some(id) => {
                    let name = input.substring_char(13, k).to_owned();
                    let rest = input.substring_char(k + 1, n);
                    proof {
                        assert(Scan::Found(rest@, Subsystem { id, name }@) =~= spec_subsystem_line(
                            input@,
                        ));
                    }
                    Ok((rest, Subsystem { id, name }))
                },
                None => Err(ParseError::BadField),
            }
        },
    }
}

/// Read subsystem lines until one does not match, skipping interleaved
/// comment lines.
fn read_subsystems<'a>(input: &'a str) -> (r: Result<(&'a str, Vec<Subsystem>), ParseError>)
    ensures
        match r {
            Ok((rest, subs)) => spec_subsystems(input@) == Scan::Found(rest@, seq_view(subs@)),
            Err(ParseError::Mismatch) => spec_subsystems(input@) is Stop,
            Err(ParseError::BadField) => spec_subsystems(input@) is Fault,
        },
{
    proof {
        reveal_strlit("\n");
    }
    let mut subs: Vec<Subsystem> = Vec::new();
    let mut rem: &str = input;
    proof {
        assert(seq_view(subs@) =~= Seq::<SubsystemView>::empty());
    }
    loop
        invariant
            match spec_subsystems(rem@) {
                Scan::Found(r2, l) => spec_subsystems(input@) == Scan::Found(
                    r2,
                    seq_view(subs@) + l,
                ),
                Scan::Stop => spec_subsystems(input@) is Stop,
                Scan::Fault => spec_subsystems(input@) is Fault,
            },
        decreases rem@.len(),
    {
        let ghost pre = seq_view(subs@);
        match read_subsystem_line(rem) {
            Ok((r2, ss)) => {
                proof {
                    lemma_subsystem_line_progress(rem@);
                }
                let ghost ssv = ss@;
                subs.push(ss);
                proof {
                    assert(seq_view(subs@) =~= pre + seq![ssv]);
                    assert forall|l2: Seq<SubsystemView>|
                        (pre + seq![ssv]) + l2 =~= pre + (seq![ssv] + l2) by {}
                }
                rem = r2;
            },
            Err(ParseError::BadField) => {
                return Err(ParseError::BadField);
            },
            Err(ParseError::Mismatch) => {
                let n = rem.unicode_len();
                if n > 0 && rem.get_char(0) == '#' {
                    match find_sub(rem, "\n", 0) {
                        Some(k) => {
                            rem = rem.substring_char(k + 1, n);
                        },
                        None => {
                            return Err(ParseError::Mismatch);
                        },
                    }
                } else {
                    proof {
                        assert(seq_view(subs@) + Seq::<SubsystemView>::empty() =~= seq_view(
                            subs@,
                        ));
                    }
                    return Ok((rem, subs));
                }
            },
        }
    }
}

/// Read one device line and the subsystem lines beneath it.
pub fn read_device<'a>(input: &'a str) -> (r: Result<(&'a str, Device), ParseError>)
    ensures
        match r {
            Ok((rest, d)) => spec_device(input@) == Scan::Found(rest@, d@),
            Err(ParseError::Mismatch) => spec_device(input@) is Stop,
            Err(ParseError::BadField) => spec_device(input@) is Fault,
        },
{
    proof {
        reveal_strlit("\n");
    }
    let n = input.unicode_len();
    if n < 7 {
        return Err(ParseError::Mismatch);
    }
    if input.get_char(0) != '\t' || input.get_char(5) != ' ' || input.get_char(6) != ' ' {
        return Err(ParseError::Mismatch);
    }
    match find_sub(input, "\n", 7) {
        None => Err(ParseError::Mismatch),
        Some(k) => {
            let tail = input.substring_char(k + 1, n);
            match read_subsystems(tail) {
                Ok((rest, subs)) => match parse_hex4(input, 1) {
                    Some(id) => {
                        let name = input.substring_char(7, k).to_owned();
                        let d = Device { id, name, subsystems: subs };
                        proof {
                            assert(Scan::Found(rest@, d@) =~= spec_device(input@));
                        }
                        Ok((rest, d))
                    },
                    None => Err(ParseError::BadField),
                },
                Err(e) => Err(e),
            }
        },
    }
}

/// Read device blocks until one does not match, skipping interleaved
/// comment lines.
fn read_devices<'a>(input: &'a str) -> (r: Result<(&'a str, Vec<Device>), ParseError>)
    ensures
        match r {
            Ok((rest, devs)) => spec_devices(input@) == Scan::Found(rest@, seq_view(devs@)),
            Err(ParseError::Mismatch) => spec_devices(input@) is Stop,
            Err(ParseError::BadField) => spec_devices(input@) is Fault,
        },
{
    proof {
        reveal_strlit("\n");
    }
    let mut devs: Vec<Device> = Vec::new();
    let mut rem: &str = input;
    proof {
        assert(seq_view(devs@) =~= Seq::<DeviceView>::empty());
    }
    loop
        invariant
            match spec_devices(rem@) {
                Scan::Found(r2, l) => spec_devices(input@) == Scan::Found(r2, seq_view(devs@) + l),
                Scan::Stop => spec_devices(input@) is Stop,
                Scan::Fault => spec_devices(input@) is Fault,
            },
        decreases rem@.len(),
    {
        let ghost pre = seq_view(devs@);
        match read_device(rem) {
            Ok((r2, d)) => {
                proof {
                    lemma_device_progress(rem@);
                }
                let ghost dv = d@;
                devs.push(d);
                proof {
                    assert(seq_view(devs@) =~= pre + seq![dv]);
                    assert forall|l2: Seq<DeviceView>|
                        (pre + seq![dv]) + l2 =~= pre + (seq![dv] + l2) by {}
                }
                rem = r2;
            },
            Err(ParseError::BadField) => {
                return Err(ParseError::BadField);
            },
            Err(ParseError::Mismatch) => {
                let n = rem.unicode_len();
                if n > 0 && rem.get_char(0) == '#' {
                    match find_sub(rem, "\n", 0) {
                        Some(k) => {
                            rem = rem.substring_char(k + 1, n);
                        },
                        None => {
                            return Err(ParseError::Mismatch);
                        },
                    }
                } else {
                    proof {
                        assert(seq_view(devs@) + Seq::<DeviceView>::empty() =~= seq_view(devs@));
                    }
                    return Ok((rem, devs));
                }
            },
        }
    }
}

fn first_device_pos(ds: &Vec<Device>, id: u16) -> (r: Option<usize>)
    ensures
        match r {
            Some(i) => i < ds@.len() && spec_first_device_idx(seq_view(ds@), id) == Some(i as int),
            None => spec_first_device_idx(seq_view(ds@), id) is None,
        },
{
    let len = ds.len();
    let mut i: usize = 0;
    proof {
        assert(seq_view(ds@).skip(0) =~= seq_view(ds@));
    }
    while i < len
        invariant
            0 <= i <= len,
            len == ds@.len(),
            match spec_first_device_idx(seq_view(ds@), id) {
                Some(j) => spec_first_device_idx(seq_view(ds@).skip(i as int), id) matches Some(j2)
                    && j == j2 + i,
                None => spec_first_device_idx(seq_view(ds@).skip(i as int), id) is None,
            },
        decreases len - i,
    {
        proof {
            let sv = seq_view(ds@).skip(i as int);
            assert(sv[0] == ds@[i as int]@);
            assert(sv.drop_first() =~= seq_view(ds@).skip(i + 1));
        }
        if ds[i].id == id {
            return Some(i);
        }
        i += 1;
    }
    proof {
        assert(seq_view(ds@).skip(len as int) =~= Seq::<DeviceView>::empty());
    }
    None
}

/// Fill a vendor's device list as a mapping keyed by id: a device whose id
/// is already present replaces the earlier record.
fn dedup_devices(raw: Vec<Device>) -> (r: Vec<Device>)
    ensures
        seq_view(r@) == spec_dedup_devices(seq_view(raw@)),
{
    let mut out: Vec<Device> = Vec::new();
    let len = raw.len();
    proof {
        assert(seq_view(raw@).subrange(0, 0) =~= Seq::<DeviceView>::empty());
        assert(seq_view(out@) =~= Seq::<DeviceView>::empty());
        assert(spec_dedup_devices(Seq::<DeviceView>::empty()) == Seq::<DeviceView>::empty());
    }
    let mut idx: usize = 0;
    while idx < len
        invariant
            0 <= idx <= len,
            len == raw@.len(),
            seq_view(out@) == spec_dedup_devices(seq_view(raw@).subrange(0, idx as int)),
        decreases len - idx,
    {
        let ghost pre_take = seq_view(raw@).subrange(0, idx as int);
        let ghost cur_take = seq_view(raw@).subrange(0, idx + 1);
        let d = clone_device(&raw[idx]);
        let ghost dv = d@;
        proof {
            assert(cur_take.drop_last() =~= pre_take);
            assert(cur_take.last() == seq_view(raw@)[idx as int]);
            assert(cur_take.last() == dv);
        }
        match first_device_pos(&out, d.id) {
            Some(k) => {
                let ghost pre_out = seq_view(out@);
                out.remove(k);
                let ghost mid_out = seq_view(out@);
                out.push(d);
                proof {
                    assert(mid_out =~= pre_out.remove(k as int));
                    assert(seq_view(out@) =~= pre_out.remove(k as int).push(dv));
                    assert(seq_view(out@) =~= spec_insert_device(pre_out, dv));
                    assert(seq_view(out@) == spec_dedup_devices(cur_take));
                }
            },
            None => {
                let ghost pre_out = seq_view(out@);
                out.push(d);
                proof {
                    assert(seq_view(out@) =~= pre_out.push(dv));
                    assert(seq_view(out@) =~= spec_insert_device(pre_out, dv));
                    assert(seq_view(out@) == spec_dedup_devices(cur_take));
                }
            },
        }
        idx += 1;
    }
    proof {
        assert(seq_view(raw@).subrange(0, len as int) =~= seq_view(raw@));
    }
    out
}

/// Read one vendor block and every device and subsystem beneath it; the
/// devices fill a mapping keyed by id, a later line replacing an earlier
/// one.
pub fn read_vendor<'a>(input: &'a str) -> (r: Result<(&'a str, Vendor), ParseError>)
    ensures
        match r {
            Ok((rest, v)) => spec_vendor(input@) == Scan::Found(rest@, v@),
            Err(ParseError::Mismatch) => spec_vendor(input@) is Stop,
            Err(ParseError::BadField) => spec_vendor(input@) is Fault,
        },
{
    proof {
        reveal_strlit("\n");
    }
    let n = input.unicode_len();
    if n < 6 {
        return Err(ParseError::Mismatch);
    }
    if input.get_char(4) != ' ' || input.get_char(5) != ' ' {
        return Err(ParseError::Mismatch);
    }
    match find_sub(input, "\n", 6) {
        None => Err(ParseError::Mismatch),
        Some(k) => {
            let tail = input.substring_char(k + 1, n);
            match read_devices(tail) {
                Ok((rest, devs)) => match parse_hex4(input, 0) {
                    Some(id) => {
                        let name = input.substring_char(6, k).to_owned();
                        let v = Vendor { id, name, devices: dedup_devices(devs) };
                        proof {
                            assert(Scan::Found(rest@, v@) =~= spec_vendor(input@));
                        }
                        Ok((rest, v))
                    },
                    None => Err(ParseError::BadField),
                },
                Err(e) => Err(e),
            }
        },
    }
}

/// Discard the commented header: everything before the first `0001 `.
pub fn read_header<'a>(input: &'a str) -> (r: Result<(&'a str, &'a str), ParseError>)
    ensures
        match r {
            Ok((rest, header)) => find_sub_at(input@, "0001 "@, 0) matches Some(i) && header@
                == input@.subrange(0, i) && rest@ == input@.subrange(i, input@.len() as int),
            Err(_) => find_sub_at(input@, "0001 "@, 0) is None,
        },
{
    proof {
        reveal_strlit("0001 ");
    }
    let n = input.unicode_len();
    match find_sub(input, "0001 ", 0) {
        Some(i) => Ok((input.substring_char(i, n), input.substring_char(0, i))),
        None => Err(ParseError::Mismatch),
    }
}

/// Parse the whole database text into its vendor blocks.
pub fn parse_pcie_db(input: &str) -> (r: Result<Vec<Vendor>, DbError>)
    ensures
        match r {
            Ok(vs) => spec_parse_pcie_db(input@) == Ok::<_, DbError>(seq_view(vs@)),
            Err(e) => spec_parse_pcie_db(input@) == Err::<Seq<VendorView>, _>(e),
        },
{
    proof {
        reveal_strlit("0001 ");
        reveal_strlit("\n");
    }
    let n = input.unicode_len();
    let start = match find_sub(input, "0001 ", 0) {
        Some(i) => i,
        None => {
            return Err(DbError::NoStart);
        },
    };
    let body = input.substring_char(start, n);
    let mut vendors: Vec<Vendor> = Vec::new();
    let mut rem: &str = body;
    proof {
        assert(seq_view(vendors@) =~= Seq::<VendorView>::empty());
    }
    loop
        invariant
            find_sub_at(input@, "0001 "@, 0) == Some(start as int),
            0 <= start <= input@.len(),
            body@ == input@.subrange(start as int, input@.len() as int),
            match spec_vendors(rem@) {
                Scan::Found(r2, l) => spec_vendors(body@) == Scan::Found(
                    r2,
                    seq_view(vendors@) + l,
                ),
                Scan::Stop => spec_vendors(body@) is Stop,
                Scan::Fault => spec_vendors(body@) is Fault,
            },
        decreases rem@.len(),
    {
        let ghost pre = seq_view(vendors@);
        match read_vendor(rem) {
            Ok((r2, v)) => {
                proof {
                    lemma_vendor_progress(rem@);
                }
                let ghost vv = v@;
                vendors.push(v);
                proof {
                    assert(seq_view(vendors@) =~= pre + seq![vv]);
                    assert forall|l2: Seq<VendorView>|
                        (pre + seq![vv]) + l2 =~= pre + (seq![vv] + l2) by {}
                }
                rem = r2;
            },
            Err(ParseError::BadField) => {
                return Err(DbError::BadField);
            },
            Err(ParseError::Mismatch) => {
                proof {
                    assert(seq_view(vendors@) + Seq::<VendorView>::empty() =~= seq_view(vendors@));
                }
                return Ok(vendors);
            },
        }
    }
}

// ---------- identifier grammar ----------

/// Why a PCI identifier string was rejected; the variant names the part of
/// the grammar that failed.
#[derive(Debug, PartialEq, Eq, Structural, Clone, Copy)]
pub enum PciIdError {
    /// `PCI\VEN_` followed by four characters and `&` is absent.
    VendorLiteral,
    /// `DEV_` followed by four characters is absent.
    DeviceLiteral,
    /// The text continues with `&SU` but not with a full `&SUBSYS_` field.
    SubsystemLiteral,
    /// The vendor id is not four hexadecimal digits.
    VendorHex,
    /// The device id is not four hexadecimal digits.
    DeviceHex,
    /// The subsystem id is not four hexadecimal digits.
    SubsystemHex,
}

/// The PCI identifier grammar:
/// `PCI\VEN_<4hex>&DEV_<4hex>[&SUBSYS_<4hex>...]...`; only the first four
/// hexadecimal digits after `SUBSYS_` are significant, and any trailing
/// segments (`&REV_`, `&CC_`, an instance path) are ignored.
pub open spec fn spec_parse_pci_id(s: Seq<char>) -> Result<(u16, u16, Option<u16>), PciIdError> {
    if !(s.len() >= 13 && match_at_spec(s, "PCI\\VEN_"@, 0) && s[12] == '&') {
        Err(PciIdError::VendorLiteral)
    } else if !(s.len() >= 21 && match_at_spec(s, "DEV_"@, 13)) {
        Err(PciIdError::DeviceLiteral)
    } else if match_at_spec(s, "&SU"@, 21) && !(s.len() >= 33 && match_at_spec(
        s,
        "&SUBSYS_"@,
        21,
    )) {
        Err(PciIdError::SubsystemLiteral)
    } else if !is_hex4(s.subrange(8, 12)) {
        Err(PciIdError::VendorHex)
    } else if !is_hex4(s.subrange(17, 21)) {
        Err(PciIdError::DeviceHex)
    } else if match_at_spec(s, "&SU"@, 21) && !is_hex4(s.subrange(29, 33)) {
        Err(PciIdError::SubsystemHex)
    } else {
        Ok(
            (
                hex4_val(s.subrange(8, 12)) as u16,
                hex4_val(s.subrange(17, 21)) as u16,
                if match_at_spec(s, "&SU"@, 21) {
                    Some(hex4_val(s.subrange(29, 33)) as u16)
                } else {
                    None
                },
            ),
        )
    }
}

/// Parse a PCI identifier string into `(vendor id, device id, subsystem id)`.
pub fn parse_device_identifier(input: &str) -> (r: Result<(u16, u16, Option<u16>), PciIdError>)
    ensures
        r == spec_parse_pci_id(input@),
{
    proof {
        reveal_strlit("PCI\\VEN_");
        reveal_strlit("DEV_");
        reveal_strlit("&SU");
        reveal_strlit("&SUBSYS_");
    }
    let n = input.unicode_len();
    if !(n >= 13 && match_at(input, 0, "PCI\\VEN_")) {
        return Err(PciIdError::VendorLiteral);
    }
    if input.get_char(12) != '&' {
        return Err(PciIdError::VendorLiteral);
    }
    if !(n >= 21 && match_at(input, 13, "DEV_")) {
        return Err(PciIdError::DeviceLiteral);
    }
    let sub_present = match_at(input, 21, "&SU");
    if sub_present && !(n >= 33 && match_at(input, 21, "&SUBSYS_")) {
        return Err(PciIdError::SubsystemLiteral);
    }
    let vid = match parse_hex4(input, 8) {
        Some(v) => v,
        None => {
            return Err(PciIdError::VendorHex);
        },
    };
    let did = match parse_hex4(input, 17) {
        Some(v) => v,
        None => {
            return Err(PciIdError::DeviceHex);
        },
    };
    if sub_present {
        match parse_hex4(input, 29) {
            Some(v) => Ok((vid, did, Some(v))),
            None => Err(PciIdError::SubsystemHex),
        }
    } else {
        Ok((vid, did, None))
    }
}

// ---------- laws of the identifier grammar ----------

/// For every identifier `PCI\VEN_<v>&DEV_<d>&SUBSYS_<s><anything>` whose
/// three fields are four hexadecimal digits each, parsing yields the
/// vendor id, the device id, and the subsystem id from those first four
/// digits, whatever text follows them.
pub proof fn lemma_pci_id_with_subsystem(
    ven: Seq<char>,
    dev: Seq<char>,
    sub: Seq<char>,
    tail: Seq<char>,
)
    requires
        is_hex4(ven),
        is_hex4(dev),
        is_hex4(sub),
    ensures
        spec_parse_pci_id("PCI\\VEN_"@ + ven + "&DEV_"@ + dev + "&SUBSYS_"@ + sub + tail) == Ok::<
            _,
            PciIdError,
        >((hex4_val(ven) as u16, hex4_val(dev) as u16, Some(hex4_val(sub) as u16))),
{
    reveal_strlit("PCI\\VEN_");
    reveal_strlit("&DEV_");
    reveal_strlit("DEV_");
    reveal_strlit("&SU");
    reveal_strlit("&SUBSYS_");
    let s = "PCI\\VEN_"@ + ven + "&DEV_"@ + dev + "&SUBSYS_"@ + sub + tail;
    assert(s.len() == 33 + tail.len());
    assert(s.subrange(0, 8) =~= "PCI\\VEN_"@);
    assert(s.subrange(8, 12) =~= ven);
    assert(s[12] == '&');
    assert(s.subrange(13, 17) =~= "DEV_"@);
    assert(s.subrange(17, 21) =~= dev);
    assert(s.subrange(21, 24) =~= "&SU"@);
    assert(s.subrange(21, 29) =~= "&SUBSYS_"@);
    assert(s.subrange(29, 33) =~= sub);
}

/// For every identifier `PCI\VEN_<v>&DEV_<d><anything>` whose two fields
/// are four hexadecimal digits each and whose trailing text does not open
/// a subsystem field, parsing yields the two ids and no subsystem id; in
/// particular trailing `&REV_` or `&CC_` segments never affect the result.
pub proof fn lemma_pci_id_without_subsystem(ven: Seq<char>, dev: Seq<char>, tail: Seq<char>)
    requires
        is_hex4(ven),
        is_hex4(dev),
        !(tail.len() >= 3 && tail.subrange(0, 3) == "&SU"@),
    ensures
        spec_parse_pci_id("PCI\\VEN_"@ + ven + "&DEV_"@ + dev + tail) == Ok::<_, PciIdError>(
            (hex4_val(ven) as u16, hex4_val(dev) as u16, None::<u16>),
        ),
{
    reveal_strlit("PCI\\VEN_");
    reveal_strlit("&DEV_");
    reveal_strlit("DEV_");
    reveal_strlit("&SU");
    let s = "PCI\\VEN_"@ + ven + "&DEV_"@ + dev + tail;
    assert(s.len() == 21 + tail.len());
    assert(s.subrange(0, 8) =~= "PCI\\VEN_"@);
    assert(s.subrange(8, 12) =~= ven);
    assert(s[12] == '&');
    assert(s.subrange(13, 17) =~= "DEV_"@);
    assert(s.subrange(17, 21) =~= dev);
    if tail.len() >= 3 {
        assert(s.subrange(21, 24) =~= tail.subrange(0, 3));
        assert(!match_at_spec(s, "&SU"@, 21));
    } else {
        assert(!match_at_spec(s, "&SU"@, 21));
    }
}

/// Round trip through the database: after parsing the database text, a
/// query built from a recorded vendor id and device id resolves to
/// exactly the vendor and device records the text holds, and to the first
/// recorded subsystem carrying the device id from the query.
pub proof fn lemma_db_lookup_roundtrip(
    db: Seq<char>,
    ven: Seq<char>,
    dev: Seq<char>,
    tail: Seq<char>,
)
    requires
        is_hex4(ven),
        is_hex4(dev),
        !(tail.len() >= 3 && tail.subrange(0, 3) == "&SU"@),
        spec_parse_pcie_db(db) is Ok,
    ensures
        ({
            let vendors = match spec_parse_pcie_db(db) {
                Ok(vs) => vs,
                Err(_) => Seq::empty(),
            };
            let id = "PCI\\VEN_"@ + ven + "&DEV_"@ + dev + tail;
            let vid = hex4_val(ven) as u16;
            let did = hex4_val(dev) as u16;
            match spec_lookup_vendor(vendors, vid) {
                Some(v) => match spec_lookup_device(v.devices, did) {
                    Some(d) => spec_pcie_find(vendors, id) == Ok::<_, PciIdError>(
                        (Some(v), Some(d), spec_first_subsystem(d.subsystems, did)),
                    ),
                    None => spec_pcie_find(vendors, id) == Ok::<_, PciIdError>(
                        (Some(v), None::<DeviceView>, None::<SubsystemView>),
                    ),
                },
                None => spec_pcie_find(vendors, id) == Ok::<_, PciIdError>(
                    (None::<VendorView>, None::<DeviceView>, None::<SubsystemView>),
                ),
            }
        }),
{
    lemma_pci_id_without_subsystem(ven, dev, tail);
}

// ---------- lookups ----------

/// The vendor stored under `id`: of all blocks with that id, the one parsed
/// last wins, as when the blocks fill a mapping in order.
pub open spec fn spec_lookup_vendor(vs: Seq<VendorView>, id: u16) -> Option<VendorView>
    decreases vs.len(),
{
    if vs.len() == 0 {
        None
    } else if vs.last().id == id {
        Some(vs.last())
    } else {
        spec_lookup_vendor(vs.drop_last(), id)
    }
}

/// The device stored under `id` beneath one vendor; the record parsed last
/// wins.
pub open spec fn spec_lookup_device(ds: Seq<DeviceView>, id: u16) -> Option<DeviceView>
    decreases ds.len(),
{
    if ds.len() == 0 {
        None
    } else if ds.last().id == id {
        Some(ds.last())
    } else {
        spec_lookup_device(ds.drop_last(), id)
    }
}

/// The first subsystem in list order whose id equals `id`.
pub open spec fn spec_first_subsystem(ss: Seq<SubsystemView>, id: u16) -> Option<SubsystemView>
    decreases ss.len(),
{
    if ss.len() == 0 {
        None
    } else if ss[0].id == id {
        Some(ss[0])
    } else {
        spec_first_subsystem(ss.drop_first(), id)
    }
}

/// What a lookup resolves an identifier string to: the parsed ids, each
/// looked up in turn, a missing level ending the deeper lookups; the
/// subsystem list is scanned for the device id taken from the query.
pub open spec fn spec_pcie_find(vendors: Seq<VendorView>, input: Seq<char>) -> Result<
    (Option<VendorView>, Option<DeviceView>, Option<SubsystemView>),
    PciIdError,
> {
    match spec_parse_pci_id(input) {
        Err(e) => Err(e),
        Ok((vid, did, sid)) => {
            let lv = spec_lookup_vendor(vendors, vid);
            let ld = match lv {
                Some(v) => spec_lookup_device(v.devices, did),
                None => None,
            };
            let ls = match ld {
                Some(d) => spec_first_subsystem(d.subsystems, did),
                None => None,
            };
            Ok((lv, ld, ls))
        },
    }
}

fn lookup_vendor_idx(vendors: &Vec<Vendor>, id: u16) -> (r: Option<usize>)
    ensures
        match r {
            Some(i) => i < vendors@.len() && spec_lookup_vendor(seq_view(vendors@), id) == Some(
                vendors@[i as int]@,
            ),
            None => spec_lookup_vendor(seq_view(vendors@), id) is None,
        },
{
    let mut i: usize = vendors.len();
    proof {
        assert(seq_view(vendors@).take(vendors@.len() as int) =~= seq_view(vendors@));
    }
    while i > 0
        invariant
            i <= vendors@.len(),
            spec_lookup_vendor(seq_view(vendors@), id) == spec_lookup_vendor(
                seq_view(vendors@).take(i as int),
                id,
            ),
        decreases i,
    {
        proof {
            let s = seq_view(vendors@).take(i as int);
            assert(s.last() == vendors@[i - 1]@);
            assert(s.drop_last() =~= seq_view(vendors@).take(i - 1));
        }
        if vendors[i - 1].id == id {
            return Some(i - 1);
        }
        i -= 1;
    }
    proof {
        assert(seq_view(vendors@).take(0) =~= Seq::<VendorView>::empty());
    }
    None
}

fn lookup_device_idx(devices: &Vec<Device>, id: u16) -> (r: Option<usize>)
    ensures
        match r {
            Some(i) => i < devices@.len() && spec_lookup_device(seq_view(devices@), id) == Some(
                devices@[i as int]@,
            ),
            None => spec_lookup_device(seq_view(devices@), id) is None,
        },
{
    let mut i: usize = devices.len();
    proof {
        assert(seq_view(devices@).take(devices@.len() as int) =~= seq_view(devices@));
    }
    while i > 0
        invariant
            i <= devices@.len(),
            spec_lookup_device(seq_view(devices@), id) == spec_lookup_device(
                seq_view(devices@).take(i as int),
                id,
            ),
        decreases i,
    {
        proof {
            let s = seq_view(devices@).take(i as int);
            assert(s.last() == devices@[i - 1]@);
            assert(s.drop_last() =~= seq_view(devices@).take(i - 1));
        }
        if devices[i - 1].id == id {
            return Some(i - 1);
        }
        i -= 1;
    }
    proof {
        assert(seq_view(devices@).take(0) =~= Seq::<DeviceView>::empty());
    }
    None
}

fn first_subsystem_idx(subs: &Vec<Subsystem>, id: u16) -> (r: Option<usize>)
    ensures
        match r {
            Some(i) => i < subs@.len() && spec_first_subsystem(seq_view(subs@), id) == Some(
                subs@[i as int]@,
            ),
            None => spec_first_subsystem(seq_view(subs@), id) is None,
        },
{
    let mut i: usize = 0;
    let len = subs.len();
    proof {
        assert(seq_view(subs@).skip(0) =~= seq_view(subs@));
    }
    while i < len
        invariant
            i <= len,
            len == subs@.len(),
            spec_first_subsystem(seq_view(subs@), id) == spec_first_subsystem(
                seq_view(subs@).skip(i as int),
                id,
            ),
        decreases len - i,
    {
        proof {
            let s = seq_view(subs@).skip(i as int);
            assert(s[0] == subs@[i as int]@);
            assert(s.drop_first() =~= seq_view(subs@).skip(i + 1));
        }
        if subs[i].id == id {
            return Some(i);
        }
        i += 1;
    }
    proof {
        assert(seq_view(subs@).skip(len as int) =~= Seq::<SubsystemView>::empty());
    }
    None
}

// ---------- deep copies ----------

fn clone_subsystem(s: &Subsystem) -> (r: Subsystem)
    ensures
        r@ == s@,
{
    let r = Subsystem { id: s.id, name: s.name.clone() };
    proof {
        assert(r@ =~= s@);
    }
    r
}

fn clone_subsystems(v: &Vec<Subsystem>) -> (r: Vec<Subsystem>)
    ensures
        seq_view(r@) == seq_view(v@),
{
    let mut out: Vec<Subsystem> = Vec::new();
    let len = v.len();
    let mut i: usize = 0;
    while i < len
        invariant
            i <= len,
            len == v@.len(),
            out@.len() == i,
            forall|k: int| 0 <= k < i ==> out@[k]@ == v@[k]@,
        decreases len - i,
    {
        out.push(clone_subsystem(&v[i]));
        i += 1;
    }
    proof {
        assert(seq_view(out@) =~= seq_view(v@));
    }
    out
}

fn clone_device(d: &Device) -> (r: Device)
    ensures
        r@ == d@,
{
    let r = Device { id: d.id, name: d.name.clone(), subsystems: clone_subsystems(&d.subsystems) };
    proof {
        assert(r@ =~= d@);
    }
    r
}

fn clone_devices(v: &Vec<Device>) -> (r: Vec<Device>)
    ensures
        seq_view(r@) == seq_view(v@),
{
    let mut out: Vec<Device> = Vec::new();
    let len = v.len();
    let mut i: usize = 0;
    while i < len
        invariant
            i <= len,
            len == v@.len(),
            out@.len() == i,
            forall|k: int| 0 <= k < i ==> out@[k]@ == v@[k]@,
        decreases len - i,
    {
        out.push(clone_device(&v[i]));
        i += 1;
    }
    proof {
        assert(seq_view(out@) =~= seq_view(v@));
    }
    out
}

fn clone_vendor(v: &Vendor) -> (r: Vendor)
    ensures
        r@ == v@,
{
    let r = Vendor { id: v.id, name: v.name.clone(), devices: clone_devices(&v.devices) };
    proof {
        assert(r@ =~= v@);
    }
    r
}

// ---------- the cache ----------

/// Owns the parsed PCI-ID database and answers identifier queries against
/// it.
pub struct PcieCache {
    vendors: Vec<Vendor>,
}

impl View for PcieCache {
    type V = Seq<VendorView>;

    closed spec fn view(&self) -> Seq<VendorView> {
        seq_view(self.vendors@)
    }
}

impl PcieCache {
    /// Parse the database text and keep the result for lookups. Fails only
    /// when the text fails to parse: no `0001 ` start marker, or a record
    /// whose id field is not hexadecimal.
    pub fn new(input: &str) -> (r: Result<PcieCache, DbError>)
        ensures
            match r {
                Ok(c) => spec_parse_pcie_db(input@) == Ok::<_, DbError>(c@),
                Err(e) => spec_parse_pcie_db(input@) == Err::<Seq<VendorView>, _>(e),
            },
    {
        match parse_pcie_db(input) {
            Ok(vendors) => Ok(PcieCache { vendors }),
            Err(e) => Err(e),
        }
    }

    /// Look an identifier string up. A malformed identifier is the only
    /// error; a missing vendor, device or subsystem gives `None` at that
    /// level, and each `None` ends the deeper lookups. The subsystem list
    /// is scanned for the device id taken from the query, which mirrors the
    /// behaviour this service has always had.
    pub fn find(&self, input: &str) -> (r: Result<
        (Option<Vendor>, Option<Device>, Option<Subsystem>),
        PciIdError,
    >)
        ensures
            match r {
                Ok((ov, od, os)) => spec_pcie_find(self@, input@) == Ok::<_, PciIdError>(
                    (opt_view(ov), opt_view(od), opt_view(os)),
                ),
                Err(e) => spec_pcie_find(self@, input@) == Err::<
                    (Option<VendorView>, Option<DeviceView>, Option<SubsystemView>),
                    _,
                >(e),
            },
    {
        let parsed = match parse_device_identifier(input) {
            Ok(p) => p,
            Err(e) => {
                return Err(e);
            },
        };
        let vi = match lookup_vendor_idx(&self.vendors, parsed.0) {
            Some(i) => i,
            None => {
                return Ok((None, None, None));
            },
        };
        let vendor = &self.vendors[vi];
        let di = match lookup_device_idx(&vendor.devices, parsed.1) {
            Some(i) => i,
            None => {
                return Ok((Some(clone_vendor(vendor)), None, None));
            },
        };
        let device = &vendor.devices[di];
        let subsystem = match first_subsystem_idx(&device.subsystems, parsed.1) {
            Some(i) => Some(clone_subsystem(&device.subsystems[i])),
            None => None,
        };
        Ok((Some(clone_vendor(vendor)), Some(clone_device(device)), subsystem))
    }
}

} // verus!
