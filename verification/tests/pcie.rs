use hwapi::pcie::{
    parse_device_identifier, parse_pcie_db, read_device, read_header, read_subsystem_line,
    read_vendor, Device, PcieCache, PciIdError, Subsystem, Vendor,
};
use hwapi::text::DbError;

#[test]
fn basic_read_header() {
    let mock_header = "# blah blah\n# foo bar\n\n0001 Safenet";
    assert_eq!(
        read_header(mock_header),
        Ok(("0001 Safenet", "# blah blah\n# foo bar\n\n"))
    )
}

#[test]
fn basic_read_subsystem_line() {
    let mock_subsystem_line = "\t\tabcd 0001  foo bar\nbat";
    assert_eq!(
        read_subsystem_line(mock_subsystem_line),
        Ok((
            "bat",
            Subsystem {
                id: 0x0001,
                name: String::from("foo bar")
            }
        ))
    );
}

#[test]
fn basic_read_device() {
    let mock_device_no_subsys = "\t0001  foo bar\n\t0002";
    assert_eq!(
        read_device(mock_device_no_subsys),
        Ok((
            "\t0002",
            Device {
                id: 0x0001,
                name: String::from("foo bar"),
                subsystems: vec![]
            }
        ))
    );

    let mock_device_w_subsys = "\t0001  foo bar\n\t\t000a 8008  subsys\n0002";
    assert_eq!(
        read_device(mock_device_w_subsys),
        Ok((
            "0002",
            Device {
                id: 0x0001,
                name: String::from("foo bar"),
                subsystems: vec![Subsystem {
                    id: 0x8008,
                    name: String::from("subsys")
                }],
            }
        ))
    );

    let mock_device_w_comment = "\t0001  foo bar\n# bat\n\t\t000a 8008  subsys\n0002";
    assert_eq!(
        read_device(mock_device_w_comment),
        Ok((
            "0002",
            Device {
                id: 0x0001,
                name: String::from("foo bar"),
                subsystems: vec![Subsystem {
                    id: 0x8008,
                    name: String::from("subsys")
                }],
            }
        ))
    );
}

#[test]
fn basic_read_vendor() {
    let mock_vendor = "0001  foo\n\t000a  bar\n0002";
    let mock_devices = vec![Device {
        id: 0x000a,
        name: String::from("bar"),
        subsystems: vec![],
    }];
    assert_eq!(
        read_vendor(mock_vendor),
        Ok((
            "0002",
            Vendor {
                id: 0x0001,
                name: String::from("foo"),
                devices: mock_devices
            }
        ))
    )
}

#[test]
fn basic_parse_db() {
    // make sure a well-formed database parses without an error
    let db = "# comments up top\n\n0001  First vendor\n\t0001  dev\n\t\t000a 0002  subsys\n0002  Second vendor\n";
    let vendors = parse_pcie_db(db).unwrap();
    assert_eq!(vendors.len(), 2);
    assert_eq!(vendors[0].devices[0].subsystems[0].id, 0x0002);
}

#[test]
fn basic_parse_device_identifier() {
    assert_eq!(
        parse_device_identifier("PCI\\VEN_1234&DEV_5678&SUBSYS_91230000&REV_00"),
        Ok((0x1234, 0x5678, Some(0x9123)))
    );
    assert_eq!(
        parse_device_identifier("PCI\\VEN_1234&DEV_5678&SUBSYS_91230000"),
        Ok((0x1234, 0x5678, Some(0x9123)))
    );
    assert_eq!(
        parse_device_identifier("PCI\\VEN_1234&DEV_5678&REV_00"),
        Ok((0x1234, 0x5678, None))
    );
    assert_eq!(
        parse_device_identifier("PCI\\VEN_1234&DEV_5678"),
        Ok((0x1234, 0x5678, None))
    );
    assert_eq!(
        parse_device_identifier("PCI\\VEN_1234&DEV_5678&CC_112200"),
        Ok((0x1234, 0x5678, None))
    );
    assert_eq!(
        parse_device_identifier("PCI\\VEN_1234&DEV_5678&CC_1122"),
        Ok((0x1234, 0x5678, None))
    );
}

#[test]
fn basic_find_device() {
    let db = "0001  Dummy vendor\n1022  Advanced Micro Devices, Inc. [AMD]\n\t1633  Renoir PCIe GPP Bridge\n";
    let cache = PcieCache::new(db).unwrap();
    assert_eq!(
        cache
            .find("PCI\\VEN_1022&DEV_1633&SUBSYS_14531022&REV_00\\3&2411E6FE&1&09")
            .map(|t| t.1)
            .unwrap(),
        Some(Device {
            id: 5683,
            name: String::from("Renoir PCIe GPP Bridge"),
            subsystems: vec![],
        },),
    );
}

#[test]
fn identifier_error_variants() {
    assert_eq!(
        parse_device_identifier("PCX\\VEN_1234&DEV_5678"),
        Err(PciIdError::VendorLiteral)
    );
    assert_eq!(
        parse_device_identifier("PCI\\VEN_1234"),
        Err(PciIdError::VendorLiteral)
    );
    assert_eq!(
        parse_device_identifier("PCI\\VEN_1234&DEX_5678"),
        Err(PciIdError::DeviceLiteral)
    );
    assert_eq!(
        parse_device_identifier("PCI\\VEN_1234&DEV_5678&SUPER"),
        Err(PciIdError::SubsystemLiteral)
    );
    assert_eq!(
        parse_device_identifier("PCI\\VEN_zzzz&DEV_5678"),
        Err(PciIdError::VendorHex)
    );
    assert_eq!(
        parse_device_identifier("PCI\\VEN_1234&DEV_zzzz"),
        Err(PciIdError::DeviceHex)
    );
    assert_eq!(
        parse_device_identifier("PCI\\VEN_1234&DEV_5678&SUBSYS_zzzz0000"),
        Err(PciIdError::SubsystemHex)
    );
}

#[test]
fn db_error_variants() {
    assert!(matches!(
        PcieCache::new("no start marker here"),
        Err(DbError::NoStart)
    ));
    // a device line whose id is not hexadecimal poisons the parse
    assert_eq!(
        parse_pcie_db("0001  vendor\n\tzzzz  device\n"),
        Err(DbError::BadField)
    );
}

#[test]
fn duplicate_device_lines_fill_a_mapping() {
    // a later device line with the same id replaces the earlier record
    let v = read_vendor("0001  ven\n\t000a  first\n\t000a  second\n0002")
        .unwrap()
        .1;
    assert_eq!(
        v.devices,
        vec![Device {
            id: 0x000a,
            name: String::from("second"),
            subsystems: vec![]
        }]
    );
}

#[test]
fn find_missing_levels() {
    let db = "0001  First vendor\n\t000a  dev\n";
    let cache = PcieCache::new(db).unwrap();
    // unknown vendor: every level missing
    assert_eq!(
        cache.find("PCI\\VEN_9999&DEV_000A").unwrap(),
        (None, None, None)
    );
    // known vendor, unknown device
    let (v, d, s) = cache.find("PCI\\VEN_0001&DEV_0099").unwrap();
    assert_eq!(v.as_ref().map(|x| x.name.as_str()), Some("First vendor"));
    assert_eq!(d, None);
    assert_eq!(s, None);
}
