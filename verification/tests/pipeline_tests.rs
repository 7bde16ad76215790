use conflate::config::{ConflateArgs, MapArgs};
use conflate::conflate::{ConflateConfig, ConflateError};
use conflate::entity::{Address, Context, Name, Network, Props};
use conflate::loader::{load_addresses, load_networks};
use conflate::pipeline::{conflate as run_conflation, Incoming, Store};

fn name(text: &str) -> Name {
    Name { text: text.to_string(), tag: String::new() }
}

fn addr(number: &str, lon: f64, lat: f64, names: Vec<&str>) -> Address {
    Address {
        id: None,
        number: number.to_string(),
        names: names.into_iter().map(name).collect(),
        source: None,
        output: true,
        interpolate: true,
        props: Props::new(),
        geom: (lon.to_bits(), lat.to_bits()),
    }
}

fn plain_ctx() -> Context {
    Context { locale: "en".to_string(), region: None, tokens: Vec::new() }
}

#[test]
fn create_against_empty_store() {
    let ctx = plain_ctx();
    let cfg = ConflateConfig::new();
    let mut store = Store::new();
    let incoming = vec![Incoming::Feature(addr("100", -71.05, 42.36, vec!["Main St"]))];
    let s = run_conflation(&incoming, &mut store, &ctx, &cfg);
    assert_eq!(s.created, 1);
    assert_eq!(s.errors, 0);
    assert_eq!(store.records.len(), 1);
    assert_eq!(store.records[0].id, Some(1));
    assert_eq!(store.records[0].number, "100");
}

#[test]
fn rerun_is_idempotent() {
    let ctx = plain_ctx();
    let cfg = ConflateConfig::new();
    let mut store = Store::new();
    let incoming = vec![
        Incoming::Feature(addr("100", -71.05, 42.36, vec!["Main St"])),
        Incoming::Feature(addr("200", -71.06, 42.37, vec!["Oak Ave"])),
    ];
    let first = run_conflation(&incoming, &mut store, &ctx, &cfg);
    assert_eq!(first.created, 2);
    let before: Vec<Option<i64>> = store.records.iter().map(|r| r.id).collect();

    let second = run_conflation(&incoming, &mut store, &ctx, &cfg);
    assert_eq!(second.unchanged, 2);
    assert_eq!(second.created + second.updated + second.merged, 0);
    assert_eq!(second.errors, 0);
    let after: Vec<Option<i64>> = store.records.iter().map(|r| r.id).collect();
    assert_eq!(before, after);
    assert_eq!(store.records.len(), 2);
}

#[test]
fn malformed_record_is_isolated() {
    let ctx = plain_ctx();
    let cfg = ConflateConfig::new();
    let mut store = Store::new();
    let incoming = vec![
        Incoming::Feature(addr("100", -71.05, 42.36, vec!["Main St"])),
        Incoming::Malformed("not a feature".to_string()),
        Incoming::Feature(addr("200", -71.06, 42.37, vec!["Oak Ave"])),
    ];
    let s = run_conflation(&incoming, &mut store, &ctx, &cfg);
    assert_eq!(s.created, 2);
    assert_eq!(s.errors, 1);
    assert_eq!(s.created + s.updated + s.merged + s.unchanged + s.errors, 3);
    assert_eq!(store.records.len(), 2);
}

#[test]
fn update_revises_in_place() {
    let ctx = plain_ctx();
    let cfg = ConflateConfig::new();
    let mut store = Store::new();
    let incoming = vec![Incoming::Feature(addr("100", -71.05, 42.36, vec!["Main St"]))];
    run_conflation(&incoming, &mut store, &ctx, &cfg);

    // the same house, observed a street-width away
    let moved = vec![Incoming::Feature(addr("100", -71.0501, 42.3601, vec!["Main St"]))];
    let s = run_conflation(&moved, &mut store, &ctx, &cfg);
    assert_eq!(s.updated, 1);
    assert_eq!(store.records.len(), 1);
    assert_eq!(store.records[0].id, Some(1));
    assert_eq!(
        store.records[0].geom,
        ((-71.0501f64).to_bits(), 42.3601f64.to_bits())
    );
}

#[test]
fn loader_streams_and_routes_bad_records() {
    let good1 = addr("100", -71.05, 42.36, vec!["Main St"]);
    let bad = addr("", -71.06, 42.37, vec!["Oak Ave"]);
    let good2 = addr("200", f64::from_bits(good_bits()), 42.38, vec!["Elm St"]);
    let batch = vec![good1, bad, good2];
    let mut out: Vec<u8> = Vec::new();
    let mut errors: Vec<usize> = Vec::new();
    load_addresses(&batch, &mut out, &mut errors);
    assert_eq!(errors, vec![1]);
    let text = String::from_utf8(out).unwrap();
    assert_eq!(text.lines().count(), 2);
    assert!(text.contains("Main St"));
    assert!(text.contains("Elm St"));
    assert!(!text.contains("Oak Ave"));
}

fn good_bits() -> u64 {
    (-71.07f64).to_bits()
}

#[test]
fn loader_rejects_nonfinite_geometry() {
    let mut bad = addr("100", -71.05, 42.36, vec!["Main St"]);
    bad.geom.0 = f64::NAN.to_bits();
    let mut out: Vec<u8> = Vec::new();
    let mut errors: Vec<usize> = Vec::new();
    load_addresses(&vec![bad], &mut out, &mut errors);
    assert_eq!(errors, vec![0]);
    assert!(out.is_empty());
}

#[test]
fn network_loader_writes_rows() {
    let net = Network {
        id: None,
        names: vec![name("Main St")],
        source: Some("2020".to_string()),
        props: Props::new(),
        geom: vec![vec![
            ((-71.05f64).to_bits(), 42.36f64.to_bits()),
            ((-71.06f64).to_bits(), 42.37f64.to_bits()),
        ]],
    };
    let mut out: Vec<u8> = Vec::new();
    let mut errors: Vec<usize> = Vec::new();
    load_networks(&vec![net], &mut out, &mut errors);
    assert!(errors.is_empty());
    let text = String::from_utf8(out).unwrap();
    assert_eq!(text.lines().count(), 1);
    assert!(text.starts_with("[{\"text\":\"Main St\",\"tag\":\"\"}]\t2020\t{}\t"));
    assert!(text.contains("0105000020E6100000"));
}

#[test]
fn conflate_args_defaults_and_validation() {
    let mut args = ConflateArgs::new();
    assert_eq!(args.db, "dedupe");
    assert!(args.in_address.is_none());
    assert!(matches!(
        args.validate(),
        Err(ConflateError::Configuration(_))
    ));
    args.in_persistent = Some("persistent.geojson".to_string());
    assert!(matches!(
        args.validate(),
        Err(ConflateError::Configuration(_))
    ));
    args.in_address = Some("addresses.geojson".to_string());
    assert!(args.validate().is_ok());
}

#[test]
fn map_args_defaults() {
    let args = MapArgs::new();
    assert_eq!(args.db, "map");
    assert!(args.input.is_none());
    assert!(args.errors.is_none());
}
