use postal_lookup::index::{load_index, lookup_postal_code, PostalIndex, Location};
use postal_lookup::response::get_location;

fn sample_csv() -> Vec<u8> {
    let mut v = Vec::new();
    v.extend_from_slice(b"h0,h1,h2,h3,h4,h5,h6,h7,h8\n");
    v.extend_from_slice(b"a,b,c,d,94103,e,f,San Francisco,CA\n");
    v.extend_from_slice(b"a,b,c,d,10001,e,f,New York,NY\n");
    v
}

#[test]
fn present_key_returns_location() {
    let index = load_index(&sample_csv());
    let loc = lookup_postal_code(&index, b"94103").expect("94103 should be present");
    assert_eq!(loc.city, b"San Francisco".to_vec());
    assert_eq!(loc.state, b"CA".to_vec());
    let loc2 = lookup_postal_code(&index, b"10001").expect("10001 should be present");
    assert_eq!(loc2.city, b"New York".to_vec());
    assert_eq!(loc2.state, b"NY".to_vec());
}

#[test]
fn scenario_hit_reply() {
    let index = load_index(&sample_csv());
    let reply = get_location(&index, b"94103");
    assert_eq!(reply.status, 200);
    assert_eq!(reply.body, b"{\"city\":\"San Francisco\",\"state\":\"CA\"}".to_vec());
    assert_eq!(reply.etag, Some(b"\"94103\"".to_vec()));
    assert_eq!(reply.cache_control, Some(b"public, max-age=86400".to_vec()));
}

#[test]
fn scenario_miss_reply() {
    let index = load_index(&sample_csv());
    assert!(lookup_postal_code(&index, b"00000").is_none());
    let reply = get_location(&index, b"00000");
    assert_eq!(reply.status, 404);
    assert_eq!(reply.body, b"\"Postal code not found\"".to_vec());
    assert_eq!(reply.etag, None);
    assert_eq!(reply.cache_control, None);
}

#[test]
fn lookup_is_verbatim() {
    let index = load_index(&sample_csv());
    assert!(lookup_postal_code(&index, b"94103 ").is_none());
    assert!(lookup_postal_code(&index, b" 94103").is_none());
    assert!(lookup_postal_code(&index, b"9410").is_none());
    assert!(lookup_postal_code(&index, b"941030").is_none());
}

#[test]
fn short_row_is_skipped() {
    let mut v = Vec::new();
    v.extend_from_slice(b"h0,h1,h2,h3,h4,h5,h6,h7,h8\n");
    v.extend_from_slice(b"a,b,c,d,12345\n");
    v.extend_from_slice(b"a,b,c,d,94103,e,f,San Francisco,CA\n");
    let index = load_index(&v);
    assert!(lookup_postal_code(&index, b"12345").is_none());
    assert!(lookup_postal_code(&index, b"94103").is_some());
}

#[test]
fn duplicate_code_last_row_wins() {
    let mut v = Vec::new();
    v.extend_from_slice(b"h0,h1,h2,h3,h4,h5,h6,h7,h8\n");
    v.extend_from_slice(b"a,b,c,d,94103,e,f,Old City,XX\n");
    v.extend_from_slice(b"a,b,c,d,94103,e,f,San Francisco,CA\n");
    let index = load_index(&v);
    let loc = lookup_postal_code(&index, b"94103").expect("94103 should be present");
    assert_eq!(loc.city, b"San Francisco".to_vec());
    assert_eq!(loc.state, b"CA".to_vec());
}

#[test]
fn load_is_deterministic() {
    let data = sample_csv();
    let a = load_index(&data);
    let b = load_index(&data);
    for key in [&b"94103"[..], b"10001", b"00000", b"", b"h4"] {
        let ra = lookup_postal_code(&a, key);
        let rb = lookup_postal_code(&b, key);
        match (ra, rb) {
            (None, None) => {}
            (Some(la), Some(lb)) => {
                assert_eq!(la.city, lb.city);
                assert_eq!(la.state, lb.state);
            }
            _ => panic!("the two loads disagree"),
        }
    }
}

#[test]
fn header_row_is_not_indexed() {
    let index = load_index(&sample_csv());
    assert!(lookup_postal_code(&index, b"h4").is_none());
}

#[test]
fn carriage_returns_are_stripped() {
    let mut v = Vec::new();
    v.extend_from_slice(b"h0,h1,h2,h3,h4,h5,h6,h7,h8\r\n");
    v.extend_from_slice(b"a,b,c,d,94103,e,f,San Francisco,CA\r\n");
    let index = load_index(&v);
    let loc = lookup_postal_code(&index, b"94103").expect("94103 should be present");
    assert_eq!(loc.city, b"San Francisco".to_vec());
    assert_eq!(loc.state, b"CA".to_vec());
}

#[test]
fn last_row_without_newline_loads() {
    let mut v = Vec::new();
    v.extend_from_slice(b"h0,h1,h2,h3,h4,h5,h6,h7,h8\n");
    v.extend_from_slice(b"a,b,c,d,94103,e,f,San Francisco,CA");
    let index = load_index(&v);
    assert!(lookup_postal_code(&index, b"94103").is_some());
}

#[test]
fn empty_file_loads_empty_index() {
    let index = load_index(b"");
    assert!(lookup_postal_code(&index, b"94103").is_none());
    assert!(lookup_postal_code(&index, b"").is_none());
}

#[test]
fn header_only_file_loads_empty_index() {
    let index = load_index(b"h0,h1,h2,h3,h4,h5,h6,h7,h8\n");
    assert!(lookup_postal_code(&index, b"h4").is_none());
    assert!(lookup_postal_code(&index, b"").is_none());
}

#[test]
fn empty_fields_are_present_fields() {
    // Nine commas make ten fields, all empty: the row has every consumed
    // position, so it is indexed under the empty code.
    let mut v = Vec::new();
    v.extend_from_slice(b"h0,h1,h2,h3,h4,h5,h6,h7,h8\n");
    v.extend_from_slice(b",,,,,,,,,\n");
    let index = load_index(&v);
    let loc = lookup_postal_code(&index, b"").expect("empty code should be present");
    assert_eq!(loc.city, b"".to_vec());
    assert_eq!(loc.state, b"".to_vec());
}

#[test]
fn blank_lines_are_skipped() {
    let mut v = Vec::new();
    v.extend_from_slice(b"h0,h1,h2,h3,h4,h5,h6,h7,h8\n");
    v.extend_from_slice(b"\n");
    v.extend_from_slice(b"a,b,c,d,94103,e,f,San Francisco,CA\n");
    let index = load_index(&v);
    assert!(lookup_postal_code(&index, b"94103").is_some());
    assert!(lookup_postal_code(&index, b"").is_none());
}

#[test]
fn body_escapes_json_characters() {
    let mut v = Vec::new();
    v.extend_from_slice(b"h0,h1,h2,h3,h4,h5,h6,h7,h8\n");
    v.extend_from_slice(b"a,b,c,d,94103,e,f,Sa\"n \\Fr\x01an,CA\n");
    let index = load_index(&v);
    let reply = get_location(&index, b"94103");
    assert_eq!(reply.status, 200);
    assert_eq!(
        reply.body,
        b"{\"city\":\"Sa\\\"n \\\\Fr\\u0001an\",\"state\":\"CA\"}".to_vec()
    );
}

#[test]
fn body_escapes_control_shorthand() {
    let mut index = PostalIndex::new();
    index.insert(
        b"1".to_vec(),
        Location { city: b"a\x08b\x09c\x0cd\x0de\x1f".to_vec(), state: b"s".to_vec() },
    );
    let reply = get_location(&index, b"1");
    assert_eq!(
        reply.body,
        b"{\"city\":\"a\\bb\\tc\\fd\\re\\u001f\",\"state\":\"s\"}".to_vec()
    );
}

#[test]
fn insert_overwrites_existing_code() {
    let mut index = PostalIndex::new();
    index.insert(
        b"94103".to_vec(),
        Location { city: b"Old City".to_vec(), state: b"XX".to_vec() },
    );
    index.insert(
        b"94103".to_vec(),
        Location { city: b"San Francisco".to_vec(), state: b"CA".to_vec() },
    );
    let loc = lookup_postal_code(&index, b"94103").expect("94103 should be present");
    assert_eq!(loc.city, b"San Francisco".to_vec());
    assert_eq!(loc.state, b"CA".to_vec());
}

#[test]
fn etag_depends_only_on_key() {
    let index = load_index(&sample_csv());
    let r1 = get_location(&index, b"94103");
    let r2 = get_location(&index, b"94103");
    assert_eq!(r1.etag, r2.etag);
    let r3 = get_location(&index, b"10001");
    assert_eq!(r3.etag, Some(b"\"10001\"".to_vec()));
}

#[test]
fn repeated_lookups_agree() {
    let index = load_index(&sample_csv());
    for _ in 0..3 {
        let loc = lookup_postal_code(&index, b"94103").expect("94103 should be present");
        assert_eq!(loc.city, b"San Francisco".to_vec());
        assert_eq!(loc.state, b"CA".to_vec());
    }
}
