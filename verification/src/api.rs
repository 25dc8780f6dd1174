//! Query and response shapes of the lookup service, and the pure steps
//! that build a response from a cache result. The surrounding transport —
//! routing, serialization, status codes — lives outside this crate and
//! hands plain values in and out.

use crate::pcie;
use crate::usb;
use crate::text::opt_view;
use vstd::prelude::*;

verus! {

/// Query string of a USB lookup request.
#[derive(Debug, PartialEq)]
pub struct UsbQuery {
    pub identifier: String,
}

/// What a USB lookup answers: the vendor and device names found.
#[derive(Debug, PartialEq)]
pub struct UsbResponse {
    pub vendor: Option<String>,
    pub device: Option<String>,
}

/// Query string of a PCI lookup request.
#[derive(Debug, PartialEq)]
pub struct GetPcieQuery {
    pub identifier: String,
}

/// What a PCI lookup answers: the vendor, device and subsystem names
/// found.
#[derive(Debug, PartialEq)]
pub struct PcieResponse {
    pub vendor: Option<String>,
    pub device: Option<String>,
    pub subsystem: Option<String>,
}

/// Query string of a CPU lookup request.
#[derive(Debug, PartialEq)]
pub struct CpuQuery {
    pub name: String,
}

/// Query of a bugcheck lookup request.
#[derive(Debug, PartialEq)]
pub struct GetBugCheckQuery {
    pub code: u64,
}

/// What a bugcheck lookup answers: the code, its name, and its
/// documentation URL.
#[derive(Debug, PartialEq)]
pub struct BugCheckResponse {
    pub code: u64,
    pub name: String,
    pub url: String,
}

/// Keep the names of what a USB lookup found, dropping the rest of the
/// records.
pub fn usb_response(found: (Option<usb::Vendor>, Option<usb::Device>)) -> (r: UsbResponse)
    ensures
        ({
            let (ov, od) = found;
            (match opt_view(ov) {
                Some(v) => r.vendor matches Some(n) && n@ == v.name,
                None => r.vendor is None,
            }) && (match opt_view(od) {
                Some(d) => r.device matches Some(n) && n@ == d.name,
                None => r.device is None,
            })
        }),
{
    let (ov, od) = found;
    UsbResponse {
        vendor: match ov {
            Some(v) => Some(v.name),
            None => None,
        },
        device: match od {
            Some(d) => Some(d.name),
            None => None,
        },
    }
}

/// Keep the names of what a PCI lookup found, dropping the rest of the
/// records.
pub fn pcie_response(
    found: (Option<pcie::Vendor>, Option<pcie::Device>, Option<pcie::Subsystem>),
) -> (r: PcieResponse)
    ensures
        ({
            let (ov, od, os) = found;
            (match opt_view(ov) {
                Some(v) => r.vendor matches Some(n) && n@ == v.name,
                None => r.vendor is None,
            }) && (match opt_view(od) {
                Some(d) => r.device matches Some(n) && n@ == d.name,
                None => r.device is None,
            }) && (match opt_view(os) {
                Some(s) => r.subsystem matches Some(n) && n@ == s.name,
                None => r.subsystem is None,
            })
        }),
{
    let (ov, od, os) = found;
    PcieResponse {
        vendor: match ov {
            Some(v) => Some(v.name),
            None => None,
        },
        device: match od {
            Some(d) => Some(d.name),
            None => None,
        },
        subsystem: match os {
            Some(s) => Some(s.name),
            None => None,
        },
    }
}

/// Pair a bugcheck code with the name and URL its lookup found.
pub fn bugcheck_response(code: u64, found: (String, String)) -> (r: BugCheckResponse)
    ensures
        r.code == code,
        r.name@ == found.0@,
        r.url@ == found.1@,
{
    BugCheckResponse { code, name: found.0, url: found.1 }
}

} // verus!
