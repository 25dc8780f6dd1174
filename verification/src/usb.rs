//! USB-ID database parser and exact-match device cache.
//!
//! The database is a flat text file: a commented header, then vendor blocks.
//! A vendor line is `<4-hex-id><2 spaces><name>`; device lines beneath it are
//! indented with one tab. Vendors own a plain ordered list of devices and
//! lookups take the first match, mirroring a linear scan.

use crate::text::{
    find_sub, find_sub_at, hex4_val, is_hex4, lemma_find_sub_at, match_at, match_at_spec, opt_view,
    parse_hex4, seq_view, DbError, ParseError, Scan,
};
use vstd::prelude::*;

verus! {

// ---------- data model ----------

/// A device entry beneath a vendor.
#[derive(Debug, PartialEq)]
pub struct Device {
    pub id: u16,
    pub name: String,
}

/// A vendor block and the devices recorded beneath it.
#[derive(Debug, PartialEq)]
pub struct Vendor {
    pub id: u16,
    pub name: String,
    pub devices: Vec<Device>,
}

#[verifier::ext_equal]
pub ghost struct DeviceView {
    pub id: u16,
    pub name: Seq<char>,
}

#[verifier::ext_equal]
pub ghost struct VendorView {
    pub id: u16,
    pub name: Seq<char>,
    pub devices: Seq<DeviceView>,
}

impl View for Device {
    type V = DeviceView;

    open spec fn view(&self) -> DeviceView {
        DeviceView { id: self.id, name: self.name@ }
    }
}

impl View for Vendor {
    type V = VendorView;

    open spec fn view(&self) -> VendorView {
        VendorView { id: self.id, name: self.name@, devices: seq_view(self.devices@) }
    }
}

// ---------- grammar ----------

/// One device line: a tab, the whole line up to the newline as content; the
/// content is the four-hex-digit device id, two skipped characters, then
/// the name.
pub open spec fn spec_device_line(s: Seq<char>) -> Scan<DeviceView> {
    if s.len() >= 1 && s[0] == '\t' {
        match find_sub_at(s, "\n"@, 1) {
            Some(k) => if k >= 7 {
                if is_hex4(s.subrange(1, 5)) {
                    Scan::Found(
                        s.subrange(k + 1, s.len() as int),
                        DeviceView { id: hex4_val(s.subrange(1, 5)) as u16, name: s.subrange(7, k) },
                    )
                } else {
                    Scan::Fault
                }
            } else {
                Scan::Stop
            },
            None => Scan::Stop,
        }
    } else {
        Scan::Stop
    }
}

/// Zero or more device lines; a comment line between them is skipped by
/// advancing to the next tab.
pub open spec fn spec_devices(s: Seq<char>) -> Scan<Seq<DeviceView>>
    decreases s.len(),
{
    match spec_device_line(s) {
        Scan::Found(rest, d) => if rest.len() < s.len() {
            match spec_devices(rest) {
                Scan::Found(r2, l) => Scan::Found(r2, seq![d] + l),
                Scan::Stop => Scan::Stop,
                Scan::Fault => Scan::Fault,
            }
        } else {
            Scan::Stop
        },
        Scan::Stop => if s.len() > 0 && s[0] == '#' {
            match find_sub_at(s, "\t"@, 0) {
                Some(t) => if 1 <= t && t <= s.len() {
                    spec_devices(s.subrange(t, s.len() as int))
                } else {
                    Scan::Stop
                },
                None => Scan::Stop,
            }
        } else {
            Scan::Found(s, Seq::empty())
        },
        Scan::Fault => Scan::Fault,
    }
}

/// One vendor line (four hexadecimal digits, two spaces, the name to end of
/// line) followed by its device lines.
pub open spec fn spec_vendor(s: Seq<char>) -> Scan<VendorView> {
    if s.len() >= 6 && s[4] == ' ' && s[5] == ' ' {
        match find_sub_at(s, "\n"@, 6) {
            Some(k) => if 0 <= k && k + 1 <= s.len() {
                match spec_devices(s.subrange(k + 1, s.len() as int)) {
                    Scan::Found(rest, devs) => if is_hex4(s.subrange(0, 4)) {
                        Scan::Found(
                            rest,
                            VendorView {
                                id: hex4_val(s.subrange(0, 4)) as u16,
                                name: s.subrange(6, k),
                                devices: devs,
                            },
                        )
                    } else {
                        Scan::Fault
                    },
                    Scan::Stop => Scan::Stop,
                    Scan::Fault => Scan::Fault,
                }
            } else {
                Scan::Stop
            },
            None => Scan::Stop,
        }
    } else {
        Scan::Stop
    }
}

/// Vendor blocks read one after another until one no longer matches.
pub open spec fn spec_vendors(s: Seq<char>) -> Scan<Seq<VendorView>>
    decreases s.len(),
{
    match spec_vendor(s) {
        Scan::Found(rest, v) => if rest.len() < s.len() {
            match spec_vendors(rest) {
                Scan::Found(r2, l) => Scan::Found(r2, seq![v] + l),
                Scan::Stop => Scan::Stop,
                Scan::Fault => Scan::Fault,
            }
        } else {
            Scan::Stop
        },
        Scan::Stop => Scan::Found(s, Seq::empty()),
        Scan::Fault => Scan::Fault,
    }
}

/// The whole database: everything before the first `0001` is header.
pub open spec fn spec_parse_usb_db(s: Seq<char>) -> Result<Seq<VendorView>, DbError> {
    match find_sub_at(s, "0001"@, 0) {
        Some(i) => if 0 <= i <= s.len() {
            match spec_vendors(s.subrange(i, s.len() as int)) {
                Scan::Found(r2, l) => Ok(l),
                _ => Err(DbError::BadField),
            }
        } else {
            Err(DbError::NoStart)
        },
        None => Err(DbError::NoStart),
    }
}

// ---------- progress lemmas ----------

proof fn lemma_device_line_progress(s: Seq<char>)
    ensures
        spec_device_line(s) matches Scan::Found(rest, d) ==> rest.len() < s.len(),
{
    if s.len() >= 1 && s[0] == '\t' {
        reveal_strlit("\n");
        lemma_find_sub_at(s, "\n"@, 1);
    }
}

proof fn lemma_devices_rest(s: Seq<char>)
    ensures
        spec_devices(s) matches Scan::Found(rest, l) ==> rest.len() <= s.len(),
    decreases s.len(),
{
    lemma_device_line_progress(s);
    match spec_device_line(s) {
        Scan::Found(rest, d) => {
            if rest.len() < s.len() {
                lemma_devices_rest(rest);
            }
        },
        Scan::Stop => {
            if s.len() > 0 && s[0] == '#' {
                match find_sub_at(s, "\t"@, 0) {
                    Some(t) => {
                        if 1 <= t && t <= s.len() {
                            lemma_devices_rest(s.subrange(t, s.len() as int));
                        }
                    },
                    None => {},
                }
            }
        },
        Scan::Fault => {},
    }
}

proof fn lemma_vendor_progress(s: Seq<char>)
    ensures
        spec_vendor(s) matches Scan::Found(rest, v) ==> rest.len() < s.len(),
{
    if s.len() >= 6 && s[4] == ' ' && s[5] == ' ' {
        reveal_strlit("\n");
        lemma_find_sub_at(s, "\n"@, 6);
        match find_sub_at(s, "\n"@, 6) {
            Some(k) => {
                if 0 <= k && k + 1 <= s.len() {
                    lemma_devices_rest(s.subrange(k + 1, s.len() as int));
                }
            },
            None => {},
        }
    }
}

// ---------- parsers ----------

/// Read one device line off the front of the input.
pub fn read_device_line<'a>(input: &'a str) -> (r: Result<(&'a str, Device), ParseError>)
    ensures
        match r {
            Ok((rest, d)) => spec_device_line(input@) == Scan::Found(rest@, d@),
            Err(ParseError::Mismatch) => spec_device_line(input@) is Stop,
            Err(ParseError::BadField) => spec_device_line(input@) is Fault,
        },
{
    proof {
        reveal_strlit("\n");
    }
    let n = input.unicode_len();
    if n < 1 || input.get_char(0) != '\t' {
        return Err(ParseError::Mismatch);
    }
    match find_sub(input, "\n", 1) {
        None => Err(ParseError::Mismatch),
        Some(k) => {
            if k < 7 {
                return Err(ParseError::Mismatch);
            }
            match parse_hex4(input, 1) {
                Some(id) => {
                    let name = input.substring_char(7, k).to_owned();
                    let rest = input.substring_char(k + 1, n);
                    let d = Device { id, name };
                    proof {
                        assert(Scan::Found(rest@, d@) =~= spec_device_line(input@));
                    }
                    Ok((rest, d))
                },
                None => Err(ParseError::BadField),
            }
        },
    }
}

/// Read device lines until one does not match, skipping a comment line by
/// advancing to the next tab.
fn read_devices<'a>(input: &'a str) -> (r: Result<(&'a str, Vec<Device>), ParseError>)
    ensures
        match r {
            Ok((rest, devs)) => spec_devices(input@) == Scan::Found(rest@, seq_view(devs@)),
            Err(ParseError::Mismatch) => spec_devices(input@) is Stop,
            Err(ParseError::BadField) => spec_devices(input@) is Fault,
        },
{
    proof {
        reveal_strlit("\t");
    }
    let mut devs: Vec<Device> = Vec::new();
    let mut rem: &str = input;
    proof {
        assert(seq_view(devs@) =~= Seq::<DeviceView>::empty());
    }
    loop
        invariant
            match spec_devices(rem@) {
                Scan::Found(r2, l) => spec_devices(input@) == Scan::Found(r2, seq_view(devs@) + l),
                Scan::Stop => spec_devices(input@) is Stop,
                Scan::Fault => spec_devices(input@) is Fault,
            },
        decreases rem@.len(),
    {
        let ghost pre = seq_view(devs@);
        match read_device_line(rem) {
            Ok((r2, d)) => {
                proof {
                    lemma_device_line_progress(rem@);
                }
                let ghost dv = d@;
                devs.push(d);
                proof {
                    assert(seq_view(devs@) =~= pre + seq![dv]);
                    assert forall|l2: Seq<DeviceView>|
                        (pre + seq![dv]) + l2 =~= pre + (seq![dv] + l2) by {}
                }
                rem = r2;
            },
            Err(ParseError::BadField) => {
                return Err(ParseError::BadField);
            },
            Err(ParseError::Mismatch) => {
                let n = rem.unicode_len();
                if n > 0 && rem.get_char(0) == '#' {
                    match find_sub(rem, "\t", 0) {
                        Some(t) => {
                            proof {
                                reveal_strlit("\t");
                                lemma_find_sub_at(rem@, "\t"@, 0);
                                assert(match_at_spec(rem@, "\t"@, t as int));
                                assert(rem@.subrange(t as int, t + "\t"@.len())[0] == rem@[t as int]);
                                assert(rem@[t as int] == '\t');
                                assert(t >= 1);
                            }
                            rem = rem.substring_char(t, n);
                        },
                        None => {
                            return Err(ParseError::Mismatch);
                        },
                    }
                } else {
                    proof {
                        assert(seq_view(devs@) + Seq::<DeviceView>::empty() =~= seq_view(devs@));
                    }
                    return Ok((rem, devs));
                }
            },
        }
    }
}

/// Read one vendor block and the device lines beneath it.
pub fn read_vendor<'a>(input: &'a str) -> (r: Result<(&'a str, Vendor), ParseError>)
    ensures
        match r {
            Ok((rest, v)) => spec_vendor(input@) == Scan::Found(rest@, v@),
            Err(ParseError::Mismatch) => spec_vendor(input@) is Stop,
            Err(ParseError::BadField) => spec_vendor(input@) is Fault,
        },
{
    proof {
        reveal_strlit("\n");
    }
    let n = input.unicode_len();
    if n < 6 {
        return Err(ParseError::Mismatch);
    }
    if input.get_char(4) != ' ' || input.get_char(5) != ' ' {
        return Err(ParseError::Mismatch);
    }
    match find_sub(input, "\n", 6) {
        None => Err(ParseError::Mismatch),
        Some(k) => {
            let tail = input.substring_char(k + 1, n);
            match read_devices(tail) {
                Ok((rest, devs)) => match parse_hex4(input, 0) {
                    Some(id) => {
                        let name = input.substring_char(6, k).to_owned();
                        let v = Vendor { id, name, devices: devs };
                        proof {
                            assert(Scan::Found(rest@, v@) =~= spec_vendor(input@));
                        }
                        Ok((rest, v))
                    },
                    None => Err(ParseError::BadField),
                },
                Err(e) => Err(e),
            }
        },
    }
}

/// Discard the commented header: everything before the first `0001`.
pub fn read_header<'a>(input: &'a str) -> (r: Result<(&'a str, &'a str), ParseError>)
    ensures
        match r {
            Ok((rest, header)) => find_sub_at(input@, "0001"@, 0) matches Some(i) && header@
                == input@.subrange(0, i) && rest@ == input@.subrange(i, input@.len() as int),
            Err(_) => find_sub_at(input@, "0001"@, 0) is None,
        },
{
    proof {
        reveal_strlit("0001");
    }
    let n = input.unicode_len();
    match find_sub(input, "0001", 0) {
        Some(i) => Ok((input.substring_char(i, n), input.substring_char(0, i))),
        None => Err(ParseError::Mismatch),
    }
}

/// Parse the whole database text into its vendor blocks.
pub fn parse_usb_db(input: &str) -> (r: Result<Vec<Vendor>, DbError>)
    ensures
        match r {
            Ok(vs) => spec_parse_usb_db(input@) == Ok::<_, DbError>(seq_view(vs@)),
            Err(e) => spec_parse_usb_db(input@) == Err::<Seq<VendorView>, _>(e),
        },
{
    proof {
        reveal_strlit("0001");
    }
    let n = input.unicode_len();
    let start = match find_sub(input, "0001", 0) {
        Some(i) => i,
        None => {
            return Err(DbError::NoStart);
        },
    };
    let body = input.substring_char(start, n);
    let mut vendors: Vec<Vendor> = Vec::new();
    let mut rem: &str = body;
    proof {
        assert(seq_view(vendors@) =~= Seq::<VendorView>::empty());
    }
    loop
        invariant
            find_sub_at(input@, "0001"@, 0) == Some(start as int),
            0 <= start <= input@.len(),
            body@ == input@.subrange(start as int, input@.len() as int),
            match spec_vendors(rem@) {
                Scan::Found(r2, l) => spec_vendors(body@) == Scan::Found(
                    r2,
                    seq_view(vendors@) + l,
                ),
                Scan::Stop => spec_vendors(body@) is Stop,
                Scan::Fault => spec_vendors(body@) is Fault,
            },
        decreases rem@.len(),
    {
        let ghost pre = seq_view(vendors@);
        match read_vendor(rem) {
            Ok((r2, v)) => {
                proof {
                    lemma_vendor_progress(rem@);
                }
                let ghost vv = v@;
                vendors.push(v);
                proof {
                    assert(seq_view(vendors@) =~= pre + seq![vv]);
                    assert forall|l2: Seq<VendorView>|
                        (pre + seq![vv]) + l2 =~= pre + (seq![vv] + l2) by {}
                }
                rem = r2;
            },
            Err(ParseError::BadField) => {
                return Err(DbError::BadField);
            },
            Err(ParseError::Mismatch) => {
                proof {
                    assert(seq_view(vendors@) + Seq::<VendorView>::empty() =~= seq_view(vendors@));
                }
                return Ok(vendors);
            },
        }
    }
}

// ---------- identifier grammar ----------

/// Why a USB identifier string was rejected; the variant names the part of
/// the grammar that failed.
#[derive(Debug, PartialEq, Eq, Structural, Clone, Copy)]
pub enum UsbIdError {
    /// `USB\VID_` followed by four characters and one separator is absent.
    VidLiteral,
    /// `PID_` followed by four characters is absent.
    PidLiteral,
    /// The vendor id is not four hexadecimal digits.
    VidHex,
    /// The product id is not four hexadecimal digits.
    PidHex,
}

/// The USB identifier grammar: `USB\VID_<4hex>&PID_<4hex>...`; the single
/// character between the vendor id and `PID_` and everything after the
/// product id are ignored.
pub open spec fn spec_parse_usb_id(s: Seq<char>) -> Result<(u16, u16), UsbIdError> {
    if !(s.len() >= 13 && match_at_spec(s, "USB\\VID_"@, 0)) {
        Err(UsbIdError::VidLiteral)
    } else if !(s.len() >= 21 && match_at_spec(s, "PID_"@, 13)) {
        Err(UsbIdError::PidLiteral)
    } else if !is_hex4(s.subrange(8, 12)) {
        Err(UsbIdError::VidHex)
    } else if !is_hex4(s.subrange(17, 21)) {
        Err(UsbIdError::PidHex)
    } else {
        Ok((hex4_val(s.subrange(8, 12)) as u16, hex4_val(s.subrange(17, 21)) as u16))
    }
}

/// Parse a USB identifier string into `(vendor id, product id)`.
pub fn parse_device_identifier(input: &str) -> (r: Result<(u16, u16), UsbIdError>)
    ensures
        r == spec_parse_usb_id(input@),
{
    proof {
        reveal_strlit("USB\\VID_");
        reveal_strlit("PID_");
    }
    let n = input.unicode_len();
    if !(n >= 13 && match_at(input, 0, "USB\\VID_")) {
        return Err(UsbIdError::VidLiteral);
    }
    if !(n >= 21 && match_at(input, 13, "PID_")) {
        return Err(UsbIdError::PidLiteral);
    }
    let vid = match parse_hex4(input, 8) {
        Some(v) => v,
        None => {
            return Err(UsbIdError::VidHex);
        },
    };
    match parse_hex4(input, 17) {
        Some(pid) => Ok((vid, pid)),
        None => Err(UsbIdError::PidHex),
    }
}

// ---------- laws of the identifier grammar ----------

/// For every identifier `USB\VID_<v>&PID_<p><anything>` whose two fields
/// are four hexadecimal digits each — with any single character in place
/// of the `&` — parsing yields the vendor and product ids, whatever
/// trailing serial or instance text follows.
pub proof fn lemma_usb_id_grammar(vid: Seq<char>, sep: Seq<char>, pid: Seq<char>, tail: Seq<char>)
    requires
        is_hex4(vid),
        is_hex4(pid),
        sep.len() == 1,
    ensures
        spec_parse_usb_id("USB\\VID_"@ + vid + sep + "PID_"@ + pid + tail) == Ok::<_, UsbIdError>(
            (hex4_val(vid) as u16, hex4_val(pid) as u16),
        ),
{
    reveal_strlit("USB\\VID_");
    reveal_strlit("PID_");
    let s = "USB\\VID_"@ + vid + sep + "PID_"@ + pid + tail;
    assert(s.len() == 21 + tail.len());
    assert(s.subrange(0, 8) =~= "USB\\VID_"@);
    assert(s.subrange(8, 12) =~= vid);
    assert(s.subrange(13, 17) =~= "PID_"@);
    assert(s.subrange(17, 21) =~= pid);
}

// ---------- lookups ----------

/// The first vendor in parse order whose id equals `id`.
pub open spec fn spec_first_vendor(vs: Seq<VendorView>, id: u16) -> Option<VendorView>
    decreases vs.len(),
{
    if vs.len() == 0 {
        None
    } else if vs[0].id == id {
        Some(vs[0])
    } else {
        spec_first_vendor(vs.drop_first(), id)
    }
}

/// The first device in list order whose id equals `id`.
pub open spec fn spec_first_device(ds: Seq<DeviceView>, id: u16) -> Option<DeviceView>
    decreases ds.len(),
{
    if ds.len() == 0 {
        None
    } else if ds[0].id == id {
        Some(ds[0])
    } else {
        spec_first_device(ds.drop_first(), id)
    }
}

/// What a lookup resolves an identifier string to: the parsed ids, each
/// looked up in turn, a missing vendor ending the device lookup.
pub open spec fn spec_usb_find(vendors: Seq<VendorView>, input: Seq<char>) -> Result<
    (Option<VendorView>, Option<DeviceView>),
    UsbIdError,
> {
    match spec_parse_usb_id(input) {
        Err(e) => Err(e),
        Ok((vid, pid)) => {
            let lv = spec_first_vendor(vendors, vid);
            let ld = match lv {
                Some(v) => spec_first_device(v.devices, pid),
                None => None,
            };
            Ok((lv, ld))
        },
    }
}

fn first_vendor_idx(vendors: &Vec<Vendor>, id: u16) -> (r: Option<usize>)
    ensures
        match r {
            Some(i) => i < vendors@.len() && spec_first_vendor(seq_view(vendors@), id) == Some(
                vendors@[i as int]@,
            ),
            None => spec_first_vendor(seq_view(vendors@), id) is None,
        },
{
    let mut i: usize = 0;
    let len = vendors.len();
    proof {
        assert(seq_view(vendors@).skip(0) =~= seq_view(vendors@));
    }
    while i < len
        invariant
            i <= len,
            len == vendors@.len(),
            spec_first_vendor(seq_view(vendors@), id) == spec_first_vendor(
                seq_view(vendors@).skip(i as int),
                id,
            ),
        decreases len - i,
    {
        proof {
            let s = seq_view(vendors@).skip(i as int);
            assert(s[0] == vendors@[i as int]@);
            assert(s.drop_first() =~= seq_view(vendors@).skip(i + 1));
        }
        if vendors[i].id == id {
            return Some(i);
        }
        i += 1;
    }
    proof {
        assert(seq_view(vendors@).skip(len as int) =~= Seq::<VendorView>::empty());
    }
    None
}

fn first_device_idx(devices: &Vec<Device>, id: u16) -> (r: Option<usize>)
    ensures
        match r {
            Some(i) => i < devices@.len() && spec_first_device(seq_view(devices@), id) == Some(
                devices@[i as int]@,
            ),
            None => spec_first_device(seq_view(devices@), id) is None,
        },
{
    let mut i: usize = 0;
    let len = devices.len();
    proof {
        assert(seq_view(devices@).skip(0) =~= seq_view(devices@));
    }
    while i < len
        invariant
            i <= len,
            len == devices@.len(),
            spec_first_device(seq_view(devices@), id) == spec_first_device(
                seq_view(devices@).skip(i as int),
                id,
            ),
        decreases len - i,
    {
        proof {
            let s = seq_view(devices@).skip(i as int);
            assert(s[0] == devices@[i as int]@);
            assert(s.drop_first() =~= seq_view(devices@).skip(i + 1));
        }
        if devices[i].id == id {
            return Some(i);
        }
        i += 1;
    }
    proof {
        assert(seq_view(devices@).skip(len as int) =~= Seq::<DeviceView>::empty());
    }
    None
}

// ---------- deep copies ----------

fn clone_device(d: &Device) -> (r: Device)
    ensures
        r@ == d@,
{
    let r = Device { id: d.id, name: d.name.clone() };
    proof {
        assert(r@ =~= d@);
    }
    r
}

fn clone_devices(v: &Vec<Device>) -> (r: Vec<Device>)
    ensures
        seq_view(r@) == seq_view(v@),
{
    let mut out: Vec<Device> = Vec::new();
    let len = v.len();
    let mut i: usize = 0;
    while i < len
        invariant
            i <= len,
            len == v@.len(),
            out@.len() == i,
            forall|k: int| 0 <= k < i ==> out@[k]@ == v@[k]@,
        decreases len - i,
    {
        out.push(clone_device(&v[i]));
        i += 1;
    }
    proof {
        assert(seq_view(out@) =~= seq_view(v@));
    }
    out
}

fn clone_vendor(v: &Vendor) -> (r: Vendor)
    ensures
        r@ == v@,
{
    let r = Vendor { id: v.id, name: v.name.clone(), devices: clone_devices(&v.devices) };
    proof {
        assert(r@ =~= v@);
    }
    r
}

// ---------- the cache ----------

/// Owns the parsed USB-ID database and answers identifier queries against
/// it.
pub struct UsbCache {
    vendors: Vec<Vendor>,
}

impl View for UsbCache {
    type V = Seq<VendorView>;

    closed spec fn view(&self) -> Seq<VendorView> {
        seq_view(self.vendors@)
    }
}

impl UsbCache {
    /// Parse the database text and keep the result for lookups. Fails only
    /// when the text fails to parse: no `0001` start marker, or a record
    /// whose id field is not hexadecimal.
    pub fn new(input: &str) -> (r: Result<UsbCache, DbError>)
        ensures
            match r {
                Ok(c) => spec_parse_usb_db(input@) == Ok::<_, DbError>(c@),
                Err(e) => spec_parse_usb_db(input@) == Err::<Seq<VendorView>, _>(e),
            },
    {
        match parse_usb_db(input) {
            Ok(vendors) => Ok(UsbCache { vendors }),
            Err(e) => Err(e),
        }
    }

    /// Look an identifier string up. A malformed identifier is the only
    /// error; a missing vendor or device gives `None` at that level, and a
    /// missing vendor ends the device lookup.
    pub fn find(&self, input: &str) -> (r: Result<(Option<Vendor>, Option<Device>), UsbIdError>)
        ensures
            match r {
                Ok((ov, od)) => spec_usb_find(self@, input@) == Ok::<_, UsbIdError>(
                    (opt_view(ov), opt_view(od)),
                ),
                Err(e) => spec_usb_find(self@, input@) == Err::<
                    (Option<VendorView>, Option<DeviceView>),
                    _,
                >(e),
            },
    {
        let parsed = match parse_device_identifier(input) {
            Ok(p) => p,
            Err(e) => {
                return Err(e);
            },
        };
        let vi = match first_vendor_idx(&self.vendors, parsed.0) {
            Some(i) => i,
            None => {
                return Ok((None, None));
            },
        };
        let vendor = &self.vendors[vi];
        let device = match first_device_idx(&vendor.devices, parsed.1) {
            Some(i) => Some(clone_device(&vendor.devices[i])),
            None => None,
        };
        Ok((Some(clone_vendor(vendor)), device))
    }
}

} // verus!
