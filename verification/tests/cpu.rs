use hwapi::cpu::{calculate_model_score, find_model, Cpu, CpuCache, CpuFindError};

fn entry(name: &str) -> Cpu {
    Cpu {
        name: name.to_string(),
        attributes: Vec::new(),
    }
}

fn test_cache() -> CpuCache {
    let intel = vec![
        entry("Intel® Core™ i3-9100F Processor"),
        entry("Intel® Core™ i9-9900K Processor"),
        entry("Intel® Core™ i7 processor 14700K"),
        entry("Intel® Core™ i7-620M Processor"),
    ];
    let amd = vec![
        entry("AMD Ryzen™ 5 3400G with Radeon™ RX Vega 11 Graphics"),
        entry("AMD Ryzen™ 5 PRO 4650G"),
        entry("AMD Ryzen™ 5 5600"),
        entry("AMD Ryzen™ 5 2600"),
        entry("AMD Ryzen™ 5 7600"),
        entry("AMD Ryzen™ 5 7530U"),
    ];
    CpuCache::new(intel, amd)
}

#[test]
fn search_resilience() {
    let mut cache = test_cache();
    // on the left is the name stored in the cache, on the right is the name collected from WMI data
    let pairings = [
        (
            "AMD Ryzen™ 5 3400G with Radeon™ RX Vega 11 Graphics",
            "AMD Ryzen 5 3400G with Radeon Vega Graphics",
        ),
        (
            "AMD Ryzen™ 5 PRO 4650G",
            "AMD Ryzen 5 PRO 4650G with Radeon Graphics",
        ),
        (
            "Intel® Core™ i3-9100F Processor",
            "Intel(R) Core(TM) i3-9100F CPU @ 3.60GHz",
        ),
        ("AMD Ryzen™ 5 5600", "AMD Ryzen 5 5600 6-Core Processor"),
        ("AMD Ryzen™ 5 2600", "AMD Ryzen 5 2600 Six-Core Processor"),
        ("AMD Ryzen™ 5 7600", "AMD Ryzen 5 7600 6-Core Processor"),
        (
            "AMD Ryzen™ 5 7530U",
            "AMD Ryzen 5 7530U with Radeon Graphics",
        ),
        (
            "Intel® Core™ i9-9900K Processor",
            "Intel(R) Core(TM) i9-9900K CPU @ 3.60GHz",
        ),
        (
            "Intel® Core™ i7 processor 14700K",
            "Intel(R) Core(TM) i7-14700K",
        ),
        (
            "Intel® Core™ i7-620M Processor",
            "Intel(R) Core(TM) i7 CPU M 620 @ 2.67Ghz",
        ),
    ];

    for pairing in pairings {
        let found_cpu = cache.find(pairing.1).unwrap();
        assert_eq!(found_cpu.name, pairing.0, "With an input of {:?}, a database result of {:?} was expected, while {:?} was returned instead.", pairing.1, pairing.0, found_cpu.name);
    }
}

#[test]
fn model_scoring() {
    // two points per digit, minus four per dot or parenthesis
    assert_eq!(calculate_model_score("i5-9400F"), 10);
    assert_eq!(calculate_model_score("Intel(R)"), -8);
    assert!(calculate_model_score("i5-9400F") > calculate_model_score("Intel(R)"));
    assert_eq!(calculate_model_score(""), 0);
    assert_eq!(calculate_model_score("3.60GHz"), 2);
}

#[test]
fn model_extraction() {
    assert_eq!(
        find_model("AMD Ryzen 5 3400G with Radeon Vega Graphics"),
        "3400G"
    );
    // the rewrites glue split family markers back together
    assert_eq!(find_model("Intel(R) Core(TM) i7-14700K"), "i7-14700K");
    assert_eq!(find_model("Intel® Core™ i7 processor 14700K"), "i7-14700K");
    assert_eq!(
        find_model("AMD Ryzen 5 PRO 4650G with Radeon Graphics"),
        "PRO 4650G"
    );
    assert_eq!(
        find_model("Intel(R) Core(TM) i7 CPU M 620 @ 2.67Ghz"),
        "i7-620M"
    );
}

#[test]
fn resolution_is_deterministic() {
    // two calls with the same input on an unmodified cache agree
    let mut cache = test_cache();
    let first = cache.find("AMD Ryzen 5 5600 6-Core Processor").unwrap();
    let second = cache.find("AMD Ryzen 5 5600 6-Core Processor").unwrap();
    assert_eq!(first, second);
}

#[test]
fn unknown_model_is_an_error() {
    let mut cache = test_cache();
    // no catalog entry shares these model numbers, so resolution fails
    // rather than handing back a placeholder record
    assert_eq!(
        cache.find("Intel(R) Weird(TM) x99-123456Q"),
        Err(CpuFindError::NoCloseMatches)
    );
    assert_eq!(
        cache.find("AMD Ryzen 5 9999"),
        Err(CpuFindError::NoCloseMatches)
    );
}

#[test]
fn materialized_copy_keeps_attributes() {
    let mut intel = vec![entry("Intel® Core™ i9-9900K Processor")];
    intel[0]
        .attributes
        .push(("Total Cores".to_string(), "8".to_string()));
    let mut cache = CpuCache::new(intel, Vec::new());
    let found = cache.find("Intel(R) Core(TM) i9-9900K CPU @ 3.60GHz").unwrap();
    assert_eq!(
        found.attributes,
        vec![("Total Cores".to_string(), "8".to_string())]
    );
}
