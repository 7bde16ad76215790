use conflate::hexcodec::{
    decode_multiline_hex, decode_point_hex, decode_point_str, encode_multiline_hex,
    encode_point_hex, hex_vec, unhex_vec,
};
use postgis::ewkb::{AsEwkbMultiLineString, AsEwkbPoint, EwkbWrite};

fn hex_string(v: &Vec<u8>) -> String {
    String::from_utf8(v.clone()).unwrap()
}

#[test]
fn point_encoding_is_canonical() {
    let lon = 1.0f64.to_bits();
    let lat = 2.0f64.to_bits();
    let hex = encode_point_hex(lon, lat);
    assert_eq!(
        hex_string(&hex),
        "0101000020E6100000000000000000F03F0000000000000040"
    );
}

#[test]
fn point_encoding_matches_postgis() {
    let cases = vec![
        (1.0f64, 2.0f64),
        (-71.05f64, 42.36f64),
        (0.0f64, 0.0f64),
        (179.999999f64, -89.999999f64),
    ];
    for (x, y) in cases {
        let expected = postgis::ewkb::Point::new(x, y, Some(4326))
            .as_ewkb()
            .to_hex_ewkb();
        let ours = hex_string(&encode_point_hex(x.to_bits(), y.to_bits()));
        assert_eq!(ours, expected);
    }
}

#[test]
fn multiline_encoding_matches_postgis() {
    let mut ml = postgis::ewkb::MultiLineString::new();
    ml.srid = Some(4326);
    let mut l1 = postgis::ewkb::LineString::new();
    l1.points.push(postgis::ewkb::Point::new(1.0, 2.0, None));
    l1.points.push(postgis::ewkb::Point::new(3.0, 4.0, None));
    let mut l2 = postgis::ewkb::LineString::new();
    l2.points.push(postgis::ewkb::Point::new(-5.5, 6.25, None));
    ml.lines.push(l1);
    ml.lines.push(l2);
    let expected = ml.as_ewkb().to_hex_ewkb();

    let lines: Vec<Vec<(u64, u64)>> = vec![
        vec![
            (1.0f64.to_bits(), 2.0f64.to_bits()),
            (3.0f64.to_bits(), 4.0f64.to_bits()),
        ],
        vec![((-5.5f64).to_bits(), 6.25f64.to_bits())],
    ];
    let ours = hex_string(&encode_multiline_hex(&lines));
    assert_eq!(ours, expected);
}

#[test]
fn point_round_trip() {
    let cases = vec![
        (1.0f64, 2.0f64),
        (-71.05f64, 42.36f64),
        (0.0f64, -0.0f64),
        (f64::MIN_POSITIVE, f64::MAX),
    ];
    for (x, y) in cases {
        let hex = encode_point_hex(x.to_bits(), y.to_bits());
        let back = decode_point_hex(&hex).expect("canonical encoding must decode");
        assert_eq!(back, (x.to_bits(), y.to_bits()));
    }
}

#[test]
fn multiline_round_trip() {
    let lines: Vec<Vec<(u64, u64)>> = vec![
        vec![
            ((-71.05f64).to_bits(), 42.36f64.to_bits()),
            ((-71.06f64).to_bits(), 42.37f64.to_bits()),
        ],
        vec![(1.5f64.to_bits(), 2.5f64.to_bits())],
    ];
    let hex = encode_multiline_hex(&lines);
    let back = decode_multiline_hex(&hex).expect("canonical encoding must decode");
    assert_eq!(back, lines);
}

#[test]
fn empty_multiline_round_trips() {
    let lines: Vec<Vec<(u64, u64)>> = vec![];
    let hex = encode_multiline_hex(&lines);
    assert_eq!(hex_string(&hex), "0105000020E610000000000000");
    let back = decode_multiline_hex(&hex).expect("empty geometry is representable");
    assert!(back.is_empty());
}

#[test]
fn decode_rejects_noise() {
    assert_eq!(decode_point_str("zz"), None);
    assert_eq!(decode_point_str(""), None);
    // odd length
    assert_eq!(decode_point_str("0101000020E"), None);
    // lowercase is not the canonical form the encoder emits
    assert_eq!(
        decode_point_str("0101000020e6100000000000000000f03f0000000000000040"),
        None
    );
    // wrong geometry type code for a point
    assert_eq!(
        decode_point_str("0105000020E6100000000000000000F03F0000000000000040"),
        None
    );
    // truncated payload
    assert_eq!(decode_point_str("0101000020E6100000000000000000F03F"), None);
}

#[test]
fn decode_point_accepts_exact_string() {
    let lon = (-71.05f64).to_bits();
    let lat = 42.36f64.to_bits();
    let hex = encode_point_hex(lon, lat);
    let s = hex_string(&hex);
    assert_eq!(decode_point_str(&s), Some((lon, lat)));
}

#[test]
fn hex_layer_round_trips() {
    let raw: Vec<u8> = vec![0x00, 0x01, 0x7F, 0xFF, 0xAB];
    let hex = hex_vec(&raw);
    assert_eq!(hex_string(&hex), "00017FFFAB");
    assert_eq!(unhex_vec(&hex), Some(raw));
    let odd: Vec<u8> = vec![0x30, 0x31, 0x32];
    assert_eq!(unhex_vec(&odd), None);
}
