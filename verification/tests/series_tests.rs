use termchart::series::{
    compute_bounds, load_from_body, series_from_points, FetchError, PricePoint,
};

fn body(text: &str) -> Vec<u8> {
    text.as_bytes().to_vec()
}

// A response missing the `prices` member is a parse failure.
#[test]
fn missing_prices_is_parse_error() {
    let r = load_from_body(&body("{\"market_caps\": [[0, 1.0]]}"));
    assert!(matches!(r, Err(FetchError::Parse)));
}

// A present but empty `prices` array is the empty-series failure.
#[test]
fn empty_prices_is_empty_error() {
    let r = load_from_body(&body("{\"prices\": []}"));
    assert!(matches!(r, Err(FetchError::Empty)));
}

// Malformed bodies of several shapes are parse failures, as are
// numbers whose milli value cannot fit a signed 64-bit word.
#[test]
fn malformed_bodies_are_parse_errors() {
    for text in [
        "",
        "[]",
        "{\"prices\": [[1, 2.0]",
        "{\"prices\": [[1; 2.0]]}",
        "{\"prices\": [[1, 2.]]}",
        "{\"prices\": [[1, 2e]]}",
        "{\"prices\": [[1, 2e+]]}",
        "{\"prices\" [[1, 2.0]]}",
        "{\"prices\": [[1e19, 2.0]]}",
        "{\"prices\": [[1, 98765432109876543210]]}",
        "{\"prices\": [[1, 9223372036854775.808]]}",
        "{\"prices\": [[1, 2.0e99999999999999999999999]]}",
    ] {
        let r = load_from_body(&body(text));
        assert!(matches!(r, Err(FetchError::Parse)), "accepted: {}", text);
    }
}

// Every JSON number form is read: exponents fold into the fixed-point
// value, digit runs of any length are taken as long as the milli value
// fits, and timestamps may be negative (truncated toward zero).
#[test]
fn json_number_forms() {
    let m = load_from_body(&body(
        "{\"prices\": [[1e3, 2.0], [2.0e3, 1.5e0], [3E3, 2.5e-1], [4e3, 1e-30], [5e3, 0.0e99999999999999999999999]]}",
    ))
    .unwrap();
    let expect = [
        (1000, 2000),
        (2000, 1500),
        (3000, 250),
        (4000, 0),
        (5000, 0),
    ];
    for (p, e) in m.points.iter().zip(expect.iter()) {
        assert_eq!((p.time, p.usd), *e);
    }
}

// Long digit runs and signed values at the representation's edge.
#[test]
fn number_extremes() {
    let m = load_from_body(&body(
        "{\"prices\": [[12345678901234, 2.0], [-5500, -9223372036854775.808]]}",
    ))
    .unwrap();
    assert_eq!(m.points[0], PricePoint { time: 12345678901234, usd: 2000 });
    assert_eq!(m.points[1], PricePoint { time: -5500, usd: i64::MIN });
}

// The synthetic series (0,0.0) (1,1.0) (2,0.5) (3,1.5), delivered as
// millisecond timestamps 0,1000,2000,3000, must normalize to
// min_time=0s, max_time=3s, min_usd=0.0, max_usd=1.5 (milli-units).
#[test]
fn synthetic_series_bounds() {
    let r = load_from_body(&body(
        "{\"prices\": [[0, 0.0], [1000, 1.0], [2000, 0.5], [3000, 1.5]]}",
    ));
    let m = r.unwrap();
    assert_eq!(
        m.points,
        vec![
            PricePoint { time: 0, usd: 0 },
            PricePoint { time: 1000, usd: 1000 },
            PricePoint { time: 2000, usd: 500 },
            PricePoint { time: 3000, usd: 1500 },
        ]
    );
    assert_eq!(m.bounds.min_time, 0);
    assert_eq!(m.bounds.max_time, 3000);
    assert_eq!(m.bounds.min_usd, 0);
    assert_eq!(m.bounds.max_usd, 1500);
}

// The same bounds hold when the points are packed directly.
#[test]
fn series_from_points_bounds() {
    let pts = vec![
        PricePoint { time: 0, usd: 0 },
        PricePoint { time: 1000, usd: 1000 },
        PricePoint { time: 2000, usd: 500 },
        PricePoint { time: 3000, usd: 1500 },
    ];
    let m = series_from_points(pts).unwrap();
    assert_eq!(
        (m.bounds.min_time, m.bounds.max_time, m.bounds.min_usd, m.bounds.max_usd),
        (0, 3000, 0, 1500)
    );
}

// An empty point list cannot be packed: bounds would be undefined.
#[test]
fn series_from_no_points_is_empty_error() {
    assert!(matches!(series_from_points(Vec::new()), Err(FetchError::Empty)));
}

// compute_bounds against an independent reference scan on random-ish data.
#[test]
fn bounds_match_reference_scan() {
    let pts: Vec<PricePoint> = (0..97)
        .map(|i: i64| PricePoint {
            time: (i * 37) % 71 - 20,
            usd: (i * 91) % 103 - 50,
        })
        .collect();
    let b = compute_bounds(&pts);
    let min_time = pts.iter().map(|p| p.time).min().unwrap();
    let max_time = pts.iter().map(|p| p.time).max().unwrap();
    let min_usd = pts.iter().map(|p| p.usd).min().unwrap();
    let max_usd = pts.iter().map(|p| p.usd).max().unwrap();
    assert_eq!((b.min_time, b.max_time, b.min_usd, b.max_usd), (min_time, max_time, min_usd, max_usd));
}

// Wire realism: other members (nested arrays, strings with escapes,
// numbers) are skipped; fractional prices keep three digits; timestamps
// in milliseconds come out in milli-seconds (divided by 1000).
#[test]
fn realistic_body_parses() {
    let text = "{\n \"market_caps\": [[1640995200000, 123456789.0]],\n \
        \"note\": \"quoted \\\"prices\\\": [] inside a string\",\n \
        \"prices\": [[1640995200000, 57000.123456], [1640995260500, 56999.9]],\n \
        \"total_volumes\": [[1640995200000, 42.0]]\n}";
    let m = load_from_body(&body(text)).unwrap();
    assert_eq!(m.points.len(), 2);
    assert_eq!(m.points[0], PricePoint { time: 1640995200000, usd: 57000123 });
    assert_eq!(m.points[1], PricePoint { time: 1640995260500, usd: 56999900 });
    assert_eq!(m.bounds.min_usd, 56999900);
    assert_eq!(m.bounds.max_usd, 57000123);
}

// A negative price is representable; a price in whole dollars needs no
// fraction; milli-values agree with the f64 reading scaled by 1000.
#[test]
fn number_forms() {
    let m = load_from_body(&body("{\"prices\": [[5000, -1.5], [6000, 3]]}")).unwrap();
    assert_eq!(m.points[0], PricePoint { time: 5000, usd: -1500 });
    assert_eq!(m.points[1], PricePoint { time: 6000, usd: 3000 });
    let expected: f64 = -1.5 * 1000.0;
    assert_eq!(m.points[0].usd as f64, expected);
}

// The error taxonomy is complete: the transport failure variant exists
// for callers even though parsing alone never produces it.
#[test]
fn error_variants_distinct() {
    assert_ne!(FetchError::Network, FetchError::Parse);
    assert_ne!(FetchError::Parse, FetchError::Empty);
    assert_ne!(FetchError::Network, FetchError::Empty);
}
