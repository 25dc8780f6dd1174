use hwapi::amd::{get_amd_cpus, process_json, AmdError, AmdValue};

#[test]
fn basic_process_json() {
    let mut rec: Vec<(String, AmdValue)> = Vec::new();
    rec.push(("0".to_string(), AmdValue::Text("on".to_string())));
    rec.push(("".to_string(), AmdValue::Text("0".to_string())));
    rec.push((
        "Model".to_string(),
        AmdValue::Text("MOS Systems 6502".to_string()),
    ));
    rec.push(("foo".to_string(), AmdValue::Text("bar".to_string())));

    let output = process_json(&vec![rec]).unwrap();
    assert_eq!(output.len(), 1);
    assert_eq!(output[0].name, "MOS Systems 6502".to_string());
}

#[test]
fn process_json_skips_and_keeps_cells() {
    let rec: Vec<(String, AmdValue)> = vec![
        ("Model".to_string(), AmdValue::Num("6502".to_string())),
        ("Cores".to_string(), AmdValue::Num("8".to_string())),
        ("Family".to_string(), AmdValue::Text("".to_string())),
        ("Line".to_string(), AmdValue::Text("Ryzen".to_string())),
    ];
    let output = process_json(&vec![rec]).unwrap();
    assert_eq!(output[0].name, "6502");
    // the empty Family cell is skipped; Model feeds the name only
    assert_eq!(
        output[0].attributes,
        vec![
            ("Cores".to_string(), "8".to_string()),
            ("Line".to_string(), "Ryzen".to_string()),
        ]
    );
}

#[test]
fn process_json_error_variants() {
    let no_model: Vec<(String, AmdValue)> =
        vec![("foo".to_string(), AmdValue::Text("bar".to_string()))];
    assert_eq!(process_json(&vec![no_model]), Err(AmdError::ModelMissing));

    let bad_model: Vec<(String, AmdValue)> = vec![("Model".to_string(), AmdValue::Other)];
    assert_eq!(process_json(&vec![bad_model]), Err(AmdError::ModelType));

    let bad_attr: Vec<(String, AmdValue)> = vec![
        ("Model".to_string(), AmdValue::Text("m".to_string())),
        ("weird".to_string(), AmdValue::Other),
    ];
    assert_eq!(process_json(&vec![bad_attr]), Err(AmdError::AttrType));
}

#[test]
fn get_amd_cpus_parses_an_export() {
    let json = "{\"data\":[{\"Model\":\"AMD Ryzen 5 3600\",\"# of CPU Cores\":6,\"Family\":\"Ryzen\",\"\":\"junk\",\"0\":\"junk\"}]}";
    let cpus = get_amd_cpus(json).unwrap();
    assert_eq!(cpus.len(), 1);
    assert_eq!(cpus[0].name, "AMD Ryzen 5 3600");
    // numeric cells keep their printed form; stray keys are dropped
    assert!(cpus[0]
        .attributes
        .contains(&("# of CPU Cores".to_string(), "6".to_string())));
    assert!(cpus[0]
        .attributes
        .contains(&("Family".to_string(), "Ryzen".to_string())));
    assert_eq!(cpus[0].attributes.len(), 2);
}

#[test]
fn get_amd_cpus_numeric_model() {
    let json = "{\"data\":[{\"Model\":6502}]}";
    let cpus = get_amd_cpus(json).unwrap();
    assert_eq!(cpus[0].name, "6502");
}

#[test]
fn get_amd_cpus_error_variants() {
    assert_eq!(get_amd_cpus("not json at all"), Err(AmdError::Json));
    assert_eq!(get_amd_cpus("{}"), Err(AmdError::Shape));
    assert_eq!(get_amd_cpus("{\"data\":17}"), Err(AmdError::Shape));
    assert_eq!(get_amd_cpus("{\"data\":[17]}"), Err(AmdError::Shape));
    assert_eq!(get_amd_cpus("{\"data\":[{}]}"), Err(AmdError::ModelMissing));
    assert_eq!(
        get_amd_cpus("{\"data\":[{\"Model\":[1,2]}]}"),
        Err(AmdError::ModelType)
    );
    assert_eq!(
        get_amd_cpus("{\"data\":[{\"Model\":\"m\",\"x\":null}]}"),
        Err(AmdError::AttrType)
    );
}
