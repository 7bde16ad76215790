use conflate::entity::{Address, Name, Network, Props};

fn base_addr() -> Address {
    Address {
        id: None,
        number: "100".to_string(),
        names: vec![Name { text: "Main St".to_string(), tag: "display".to_string() }],
        source: Some("2020-05".to_string()),
        output: true,
        interpolate: true,
        props: Props::new(),
        geom: (1.0f64.to_bits(), 2.0f64.to_bits()),
    }
}

#[test]
fn address_row_layout_is_exact() {
    let row = base_addr().to_tsv();
    assert_eq!(
        row,
        "[{\"text\":\"Main St\",\"tag\":\"display\"}]\t100\t2020-05\t{}\t0101000020E6100000000000000000F03F0000000000000040\n"
    );
}

#[test]
fn missing_source_is_empty_column() {
    let mut a = base_addr();
    a.source = None;
    let row = a.to_tsv();
    assert!(row.contains("}]\t100\t\t{}\t"));
}

#[test]
fn props_serialize_in_insertion_order() {
    let mut a = base_addr();
    a.props = Props {
        entries: vec![
            ("b".to_string(), "1".to_string()),
            ("a".to_string(), "\"x\"".to_string()),
        ],
    };
    let row = a.to_tsv();
    assert!(row.contains("\t{\"b\":1,\"a\":\"x\"}\t"));
}

#[test]
fn delimiters_inside_fields_are_escaped() {
    let mut a = base_addr();
    a.number = "10\t0".to_string();
    a.names[0].text = "Main\nSt".to_string();
    let row = a.to_tsv();
    // exactly the four column separators survive
    assert_eq!(row.matches('\t').count(), 4);
    // exactly the terminating newline survives
    assert_eq!(row.matches('\n').count(), 1);
    assert!(row.ends_with('\n'));
    // the number column carries the escape sequence instead
    assert!(row.contains("10\\t0"));
    // the name text is JSON-escaped, then its backslash is doubled for
    // the bulk format
    assert!(row.contains("Main\\\\nSt"));
}

#[test]
fn quotes_and_backslashes_round_the_two_escaping_layers() {
    let mut a = base_addr();
    a.names[0].text = "a\"b\\c".to_string();
    let row = a.to_tsv();
    // JSON makes a\"b\\c into a\"b\\c (escaped), the bulk layer then
    // doubles each backslash
    assert!(row.contains("a\\\\\"b\\\\\\\\c"));
}

#[test]
fn row_bytes_matches_to_tsv() {
    let a = base_addr();
    let bytes = a.row_bytes();
    let row = base_addr().to_tsv();
    assert_eq!(String::from_utf8(bytes).unwrap(), row);
}

#[test]
fn network_row_layout_is_exact() {
    let n = Network {
        id: None,
        names: vec![Name { text: "Main St".to_string(), tag: String::new() }],
        source: None,
        props: Props::new(),
        geom: vec![vec![(1.0f64.to_bits(), 2.0f64.to_bits())]],
    };
    let row = n.to_tsv();
    assert_eq!(
        row,
        "[{\"text\":\"Main St\",\"tag\":\"\"}]\t\t{}\t0105000020E610000001000000010200000001000000000000000000F03F0000000000000040\n"
    );
}
