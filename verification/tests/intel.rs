use hwapi::intel::get_intel_cpus;
use hwapi::intel::lexer::{
    lex_csv, read_cpu_record, read_file_header, read_record, read_section, LexError,
};
use hwapi::intel::parser::parse_csv;

fn sample_csv() -> String {
    let mut s = String::from("\u{feff}ARK | Intel® Product Specification Comparison\n");
    s.push_str("01/14/2024 01:06:53 PM\n");
    s.push_str(" ,Intel® Core™ i9-9900K Processor ,Intel® Core™ i7-620M Processor \n");
    s.push_str("Essentials\n");
    s.push_str("Status,Launched,Launched\n");
    s.push_str("Total Cores,8,4\n");
    s.push_str("\n");
    s.push_str("Performance\n");
    s.push_str("Cache,16 MB,4 MB\n");
    s.push_str("Bus Speed,8 GT,2 GT\n");
    s.push_str("\n\n");
    s
}

#[test]
fn lexer_basic_read_header() {
    let mock_header = "\u{feff}ARK | Intel® Product Specification Comparison\n01/14/2024 01:06:53 PM\n ,Intel® Xeon® D-1823NT Processor";
    let output = read_file_header(mock_header).unwrap();
    assert_eq!(output.1, "01/14/2024 01:06:53 PM");
}

#[test]
fn basic_read_cpu_record() {
    let mock_cpu_record = "ab ,cd ,ef \nfoo";
    let output = read_cpu_record(mock_cpu_record);
    assert_eq!(output, Ok(("foo", vec!["ab".to_string(), "cd".to_string(), "ef".to_string()])));
}

#[test]
fn basic_read_record() {
    let mock_record = "ab,,cd\nef";
    let output = read_record(mock_record);
    assert_eq!(output, Ok(("ef", vec!["ab".to_string(), "".to_string(), "cd".to_string()])));
}

#[test]
fn basic_read_section() {
    let mock_section = "heading\nab\ncd\n\notherheading";
    let output = read_section(mock_section);
    assert_eq!(output, ("otherheading", "ab\ncd\n"));
}

#[test]
fn it_work() {
    parse_csv(sample_csv().as_str()).unwrap();
}

#[test]
fn mod_it_work() {
    get_intel_cpus(&vec![sample_csv(), sample_csv()]).unwrap();
}

#[test]
fn it_works() {
    get_intel_cpus(&vec![sample_csv()]).unwrap();
}

#[test]
fn lexer_collects_rows_and_cpus() {
    let out = lex_csv(sample_csv().as_str()).unwrap();
    assert_eq!(out.timestamp, "01/14/2024 01:06:53 PM");
    assert_eq!(
        out.cpus,
        vec![
            "Intel® Core™ i9-9900K Processor".to_string(),
            "Intel® Core™ i7-620M Processor".to_string()
        ]
    );
    // every row of every section is kept, in order
    assert_eq!(
        out.records,
        vec![
            vec!["Status".to_string(), "Launched".to_string(), "Launched".to_string()],
            vec!["Total Cores".to_string(), "8".to_string(), "4".to_string()],
            vec!["Cache".to_string(), "16 MB".to_string(), "4 MB".to_string()],
            vec!["Bus Speed".to_string(), "8 GT".to_string(), "2 GT".to_string()],
        ]
    );
}

#[test]
fn parser_builds_one_cpu_per_column() {
    let cpus = parse_csv(sample_csv().as_str()).unwrap();
    assert_eq!(cpus.len(), 2);
    assert_eq!(cpus[0].name, "Intel® Core™ i9-9900K Processor");
    assert_eq!(
        cpus[0].attributes,
        vec![
            ("Status".to_string(), "Launched".to_string()),
            ("Total Cores".to_string(), "8".to_string()),
            ("Cache".to_string(), "16 MB".to_string()),
            ("Bus Speed".to_string(), "8 GT".to_string()),
        ]
    );
    assert_eq!(cpus[1].attributes[2], ("Cache".to_string(), "4 MB".to_string()));
}

#[test]
fn empty_cells_are_skipped() {
    let mut csv = String::from("\u{feff}ARK | Intel® Product Specification Comparison\n");
    csv.push_str("01/14/2024 01:06:53 PM\n ,A ,B \nS\nK,,v\nL,w,\n\nx\n");
    let cpus = parse_csv(csv.as_str()).unwrap();
    // the cell for A under K and the cell for B under L are empty and
    // never inserted
    assert_eq!(cpus[0].attributes, vec![("L".to_string(), "w".to_string())]);
    assert_eq!(cpus[1].attributes, vec![("K".to_string(), "v".to_string())]);
}

#[test]
fn lex_error_variants() {
    assert!(matches!(lex_csv("not an export"), Err(LexError::Header)));
    let no_cpu_row = "\u{feff}ARK | Intel® Product Specification Comparison\nts\n ,names without the marker";
    assert!(matches!(lex_csv(no_cpu_row), Err(LexError::Cpus)));
}
