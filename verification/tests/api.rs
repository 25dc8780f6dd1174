use hwapi::api::{bugcheck_response, pcie_response, usb_response};
use hwapi::pcie;
use hwapi::usb;

#[test]
fn usb_response_keeps_names() {
    let found = (
        Some(usb::Vendor {
            id: 1,
            name: "ven".to_string(),
            devices: vec![],
        }),
        Some(usb::Device {
            id: 2,
            name: "dev".to_string(),
        }),
    );
    let r = usb_response(found);
    assert_eq!(r.vendor, Some("ven".to_string()));
    assert_eq!(r.device, Some("dev".to_string()));
    let empty = usb_response((None, None));
    assert_eq!(empty.vendor, None);
    assert_eq!(empty.device, None);
}

#[test]
fn pcie_response_keeps_names() {
    let found = (
        Some(pcie::Vendor {
            id: 1,
            name: "ven".to_string(),
            devices: vec![],
        }),
        Some(pcie::Device {
            id: 2,
            name: "dev".to_string(),
            subsystems: vec![],
        }),
        None,
    );
    let r = pcie_response(found);
    assert_eq!(r.vendor, Some("ven".to_string()));
    assert_eq!(r.device, Some("dev".to_string()));
    assert_eq!(r.subsystem, None);
}

#[test]
fn bugcheck_response_carries_all_fields() {
    let r = bugcheck_response(7, ("NAME".to_string(), "https://u".to_string()));
    assert_eq!(r.code, 7);
    assert_eq!(r.name, "NAME");
    assert_eq!(r.url, "https://u");
}
