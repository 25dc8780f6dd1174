use hwapi::text::DbError;
use hwapi::usb::{
    parse_device_identifier, parse_usb_db, read_device_line, read_header, read_vendor, Device,
    UsbCache, UsbIdError, Vendor,
};

#[test]
fn basic_parse_device_string() {
    let mock_device_string = "USB\\VID_1234&PID_5678\\9479493";
    assert_eq!(
        parse_device_identifier(mock_device_string),
        Ok((0x1234, 0x5678))
    );
}

#[test]
fn mod_basic_read_header() {
    let mock_header = "#\tinterface  interface_name\t\t<-- two tabs\n\n0001";
    assert_eq!(
        read_header(mock_header),
        Ok(("0001", "#\tinterface  interface_name\t\t<-- two tabs\n\n"))
    );
}

#[test]
fn mod_basic_read_vendor() {
    let mock_section = "1234  vendor_name\n\t5678  device_name\n9123";
    let expected_output = Vendor {
        id: 0x1234,
        name: String::from("vendor_name"),
        devices: vec![Device {
            id: 0x5678,
            name: String::from("device_name"),
        }],
    };
    assert_eq!(read_vendor(mock_section), Ok(("9123", expected_output)));
}

#[test]
fn read_section_no_devices() {
    let mock_section = "1234  vendor_name\n5678";
    let expected_output = Vendor {
        id: 0x1234,
        name: String::from("vendor_name"),
        devices: vec![],
    };
    assert_eq!(read_vendor(mock_section), Ok(("5678", expected_output)));
    // first make sure we can read a normal device without issue
    let mock_device_entry = "\t1234  foo bar\n4567";
    assert_eq!(
        read_device_line(mock_device_entry),
        Ok((
            "4567",
            Device {
                id: 0x1234,
                name: String::from("foo bar")
            }
        ))
    );
}

#[test]
fn basic_parse_usbs() {
    let db = "# usb vendors\n\n0001  Fry's Electronics\n\t7778  Counterfeit flash drive\n0002  Ingram\n";
    let vendors = parse_usb_db(db).unwrap();
    assert_eq!(vendors.len(), 2);
    assert_eq!(vendors[0].devices[0].name, "Counterfeit flash drive");
}

#[test]
fn usb_find_and_errors() {
    let db = "0001  Fry's Electronics\n\t7778  Counterfeit flash drive\n";
    let cache = UsbCache::new(db).unwrap();
    let (v, d) = cache.find("USB\\VID_0001&PID_7778\\5&3753427&0").unwrap();
    assert_eq!(v.map(|x| x.name), Some(String::from("Fry's Electronics")));
    assert_eq!(
        d.map(|x| x.name),
        Some(String::from("Counterfeit flash drive"))
    );
    // unknown ids resolve to nothing, not an error
    assert_eq!(cache.find("USB\\VID_0001&PID_0000").unwrap().1, None);
    assert_eq!(cache.find("USB\\VID_9999&PID_0000").unwrap().0, None);
    // identifier errors, one per variant
    assert_eq!(
        cache.find("USX\\VID_0001&PID_7778"),
        Err(UsbIdError::VidLiteral)
    );
    assert_eq!(
        cache.find("USB\\VID_0001&PIX_7778"),
        Err(UsbIdError::PidLiteral)
    );
    assert_eq!(
        cache.find("USB\\VID_zzzz&PID_7778"),
        Err(UsbIdError::VidHex)
    );
    assert_eq!(
        cache.find("USB\\VID_0001&PID_zzzz"),
        Err(UsbIdError::PidHex)
    );
}

#[test]
fn usb_db_error_variants() {
    assert!(matches!(UsbCache::new("nothing to see"), Err(DbError::NoStart)));
    assert!(matches!(
        parse_usb_db("0001  vendor\n\tzzzz  device longer\n"),
        Err(DbError::BadField)
    ));
}
