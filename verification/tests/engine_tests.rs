use conflate::conflate::{compare, Action, ConflateConfig, ConflateError};
use conflate::entity::{Address, Context, Name, Props};
use conflate::geomath::{coord_fixed, COORD_CAP};
use conflate::retrieve::find_candidates;

fn name(text: &str) -> Name {
    Name { text: text.to_string(), tag: String::new() }
}

fn addr(id: Option<i64>, number: &str, lon: f64, lat: f64, names: Vec<&str>) -> Address {
    Address {
        id,
        number: number.to_string(),
        names: names.into_iter().map(name).collect(),
        source: None,
        output: true,
        interpolate: true,
        props: Props::new(),
        geom: (lon.to_bits(), lat.to_bits()),
    }
}

fn ctx_with_st() -> Context {
    Context {
        locale: "en".to_string(),
        region: None,
        tokens: vec![("st".to_string(), "street".to_string())],
    }
}

#[test]
fn coord_fixed_values() {
    assert_eq!(coord_fixed(1.0f64.to_bits()), 10_000_000);
    assert_eq!(coord_fixed(0.25f64.to_bits()), 2_500_000);
    assert_eq!(coord_fixed((-71.05f64).to_bits()), -710_499_999);
    assert_eq!(coord_fixed(42.36f64.to_bits()), 423_599_999);
    assert_eq!(coord_fixed(0.0f64.to_bits()), 0);
    assert_eq!(coord_fixed((-0.0f64).to_bits()), 0);
    assert_eq!(coord_fixed(0.02f64.to_bits()), 200_000);
    assert_eq!(coord_fixed(f64::MAX.to_bits()), COORD_CAP);
    assert_eq!(coord_fixed(f64::NEG_INFINITY.to_bits()), -COORD_CAP);
}

#[test]
fn empty_candidates_create() {
    let ctx = ctx_with_st();
    let cfg = ConflateConfig::new();
    let inc = addr(None, "100", -71.05, 42.36, vec!["Main St"]);
    let r = compare(&inc, &Vec::new(), &ctx, &cfg);
    assert!(matches!(r, Ok(Action::Create)));
}

#[test]
fn identical_candidate_is_noop() {
    let ctx = ctx_with_st();
    let cfg = ConflateConfig::new();
    let inc = addr(None, "100", -71.05, 42.36, vec!["Main St"]);
    let cand = addr(Some(7), "100", -71.05, 42.36, vec!["Main Street"]);
    let r = compare(&inc, &vec![cand], &ctx, &cfg);
    assert!(matches!(r, Ok(Action::NoAction)));
}

#[test]
fn near_candidate_updates_with_id() {
    let ctx = ctx_with_st();
    let cfg = ConflateConfig::new();
    let inc = addr(None, "100", -71.05, 42.36, vec!["Main St"]);
    let cand = addr(Some(7), "100", -71.0501, 42.3601, vec!["Main Street"]);
    let r = compare(&inc, &vec![cand], &ctx, &cfg);
    match r {
        Ok(Action::Update(id)) => assert_eq!(id, 7),
        other => panic!("expected update, got {:?}", describe(&other)),
    }
}

#[test]
fn number_compares_case_normalized() {
    let ctx = ctx_with_st();
    let cfg = ConflateConfig::new();
    let inc = addr(None, "100A", -71.05, 42.36, vec!["Main St"]);
    let cand = addr(Some(3), "100a", -71.05, 42.36, vec!["Main Street"]);
    let r = compare(&inc, &vec![cand], &ctx, &cfg);
    assert!(matches!(r, Ok(Action::NoAction)));
}

#[test]
fn consistent_candidates_merge() {
    let ctx = ctx_with_st();
    let cfg = ConflateConfig::new();
    let inc = addr(None, "100", -71.05, 42.36, vec!["Main St"]);
    let c1 = addr(Some(4), "100", -71.0501, 42.3601, vec!["Main Street"]);
    let c2 = addr(Some(2), "100", -71.0502, 42.3602, vec!["Main St"]);
    let r = compare(&inc, &vec![c1, c2], &ctx, &cfg);
    match r {
        Ok(Action::Merge { ids, merged }) => {
            assert_eq!(ids, vec![4, 2]);
            assert_eq!(merged.id, Some(2));
            assert_eq!(merged.number, "100");
            // union of names: the incoming spelling, then no duplicate of
            // an equivalent candidate name
            let texts: Vec<String> = merged.names.iter().map(|n| n.text.clone()).collect();
            assert_eq!(texts, vec!["Main St".to_string()]);
            assert_eq!(merged.geom, ((-71.05f64).to_bits(), 42.36f64.to_bits()));
        },
        other => panic!("expected merge, got {:?}", describe(&other)),
    }
}

#[test]
fn merge_keeps_union_of_distinct_names_and_latest_source() {
    let ctx = ctx_with_st();
    let cfg = ConflateConfig::new();
    let mut inc = addr(None, "100", -71.05, 42.36, vec!["Main St"]);
    inc.source = Some("2019-01".to_string());
    let mut c1 = addr(Some(4), "100", -71.0501, 42.3601, vec!["Main Street", "Rte 9"]);
    c1.source = Some("2020-05".to_string());
    let mut c2 = addr(Some(2), "100", -71.0502, 42.3602, vec!["Main St"]);
    c2.source = Some("2018-03".to_string());
    let r = compare(&inc, &vec![c1, c2], &ctx, &cfg);
    match r {
        Ok(Action::Merge { ids, merged }) => {
            assert_eq!(ids, vec![4, 2]);
            let texts: Vec<String> = merged.names.iter().map(|n| n.text.clone()).collect();
            assert_eq!(texts, vec!["Main St".to_string(), "Rte 9".to_string()]);
            assert_eq!(merged.source, Some("2020-05".to_string()));
        },
        other => panic!("expected merge, got {:?}", describe(&other)),
    }
}

#[test]
fn inconsistent_candidates_are_ambiguous() {
    let ctx = ctx_with_st();
    let cfg = ConflateConfig::new();
    let inc = addr(None, "100", -71.05, 42.36, vec!["Main St"]);
    let c1 = addr(Some(4), "100", -71.0501, 42.3601, vec!["Main Street"]);
    let c2 = addr(Some(2), "100", -71.0502, 42.3602, vec!["Oak Ave"]);
    let r = compare(&inc, &vec![c1, c2], &ctx, &cfg);
    assert!(matches!(r, Err(ConflateError::Ambiguous)));
}

#[test]
fn threshold_boundary_is_inclusive() {
    let inc = addr(None, "1", 0.0, 0.0, vec!["Main St"]);
    // exactly at a 0.25-degree bound: included
    let at = addr(Some(1), "1", 0.25, 0.0, vec!["Main St"]);
    // strictly beyond: excluded
    let beyond = addr(Some(2), "1", 0.5, 0.0, vec!["Main St"]);
    let store = vec![at, beyond];
    let found = find_candidates(&inc, &store, 2_500_000);
    assert_eq!(found.len(), 1);
    assert_eq!(found[0].id, Some(1));
}

#[test]
fn default_threshold_both_sides() {
    let inc = addr(None, "1", 0.0, 0.0, vec!["Main St"]);
    let near = addr(Some(1), "1", 0.02, 0.0, vec!["Main St"]);
    let far = addr(Some(2), "1", 0.0201, 0.0, vec!["Main St"]);
    let other_number = addr(Some(3), "2", 0.0, 0.0, vec!["Main St"]);
    let store = vec![near, far, other_number];
    let found = find_candidates(&inc, &store, 200_000);
    assert_eq!(found.len(), 1);
    assert_eq!(found[0].id, Some(1));
}

#[test]
fn identity_threshold_boundary_is_inclusive() {
    let ctx = ctx_with_st();
    // exactly at a 0.25-degree identity bound: already represented
    let mut cfg = ConflateConfig::new();
    cfg.match_dist = 3_000_000;
    cfg.ident_dist = 2_500_000;
    let inc = addr(None, "100", 0.0, 0.0, vec!["Main St"]);
    let cand = addr(Some(5), "100", 0.25, 0.0, vec!["Main St"]);
    let r = compare(&inc, &vec![cand], &ctx, &cfg);
    assert!(matches!(r, Ok(Action::NoAction)));

    // one unit tighter: the same candidate is a revision instead
    let mut tight = ConflateConfig::new();
    tight.match_dist = 3_000_000;
    tight.ident_dist = 2_499_999;
    let cand2 = addr(Some(5), "100", 0.25, 0.0, vec!["Main St"]);
    let r2 = compare(&inc, &vec![cand2], &ctx, &tight);
    assert!(matches!(r2, Ok(Action::Update(5))));
}

fn describe(r: &Result<Action, ConflateError>) -> String {
    match r {
        Ok(Action::Create) => "create".to_string(),
        Ok(Action::Update(id)) => format!("update {}", id),
        Ok(Action::Merge { ids, .. }) => format!("merge {:?}", ids),
        Ok(Action::NoAction) => "none".to_string(),
        Err(ConflateError::Ambiguous) => "ambiguous".to_string(),
        Err(_) => "error".to_string(),
    }
}
