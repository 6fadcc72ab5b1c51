use eyes::ports::parse_ports;

fn resolve(s: &str) -> Vec<u16> {
    parse_ports(String::from(s))
}

fn default_ports() -> Vec<u16> {
    (1u16..=1024).collect()
}

#[test]
fn single_port_tokens_resolve_to_themselves() {
    assert_eq!(resolve("0"), vec![0]);
    assert_eq!(resolve("1"), vec![1]);
    assert_eq!(resolve("22"), vec![22]);
    assert_eq!(resolve("1024"), vec![1024]);
    assert_eq!(resolve("9001"), vec![9001]);
    assert_eq!(resolve("65535"), vec![65535]);
}

#[test]
fn single_port_accepts_leading_zeros() {
    assert_eq!(resolve("007"), vec![7]);
    assert_eq!(resolve("00000065535"), vec![65535]);
}

#[test]
fn ranges_expand_ascending_inclusive() {
    assert_eq!(resolve("8000-8002"), vec![8000, 8001, 8002]);
    assert_eq!(resolve("5-5"), vec![5]);
    assert_eq!(resolve("0-3"), vec![0, 1, 2, 3]);
    assert_eq!(resolve("0-0"), vec![0]);
    assert_eq!(resolve("1-1024"), default_ports());
    assert_eq!(resolve("65533-65535"), vec![65533, 65534, 65535]);
}

#[test]
fn mixed_list_appends_in_token_order() {
    assert_eq!(resolve("22,80,8000-8002"), vec![22, 80, 8000, 8001, 8002]);
}

#[test]
fn list_keeps_duplicates_and_overlaps() {
    assert_eq!(resolve("5,5,5"), vec![5, 5, 5]);
    assert_eq!(resolve("1-3,2-4"), vec![1, 2, 3, 2, 3, 4]);
    assert_eq!(resolve("80,1-3,80"), vec![80, 1, 2, 3, 80]);
}

#[test]
fn unparseable_specs_fall_back_to_default_range() {
    assert_eq!(resolve(""), default_ports());
    assert_eq!(resolve("not-a-port"), default_ports());
    assert_eq!(resolve("abc"), default_ports());
    assert_eq!(resolve("1-2-3"), default_ports());
    assert_eq!(resolve("1-"), default_ports());
    assert_eq!(resolve("-5"), default_ports());
}

#[test]
fn out_of_domain_port_does_not_wrap() {
    // 70000 is outside the 16-bit domain; it must neither crash nor wrap
    // to 70000 mod 65536. Standing alone it makes the spec unparseable,
    // which falls back to the default range.
    let r = resolve("70000");
    assert_eq!(r, default_ports());
    assert!(!r.contains(&((70000u32 % 65536) as u16)));
    assert_eq!(resolve("65536"), default_ports());
}

#[test]
fn out_of_domain_token_contributes_nothing_in_a_list() {
    assert_eq!(resolve("22,70000,80"), vec![22, 80]);
    assert_eq!(resolve("22,65536"), vec![22]);
}

#[test]
fn malformed_list_tokens_are_skipped() {
    assert_eq!(resolve("22,a-b"), vec![22]);
    assert_eq!(resolve("9,1-2-3"), vec![9]);
    assert_eq!(resolve("22,,80"), vec![22, 80]);
    assert_eq!(resolve(","), vec![]);
    assert_eq!(resolve("x,y"), vec![]);
    assert_eq!(resolve("5,1-70000"), vec![5]);
}

#[test]
fn reversed_ranges_are_rejected() {
    assert_eq!(resolve("80-22"), vec![]);
    assert_eq!(resolve("22,80-22,90"), vec![22, 90]);
}

#[test]
fn resolving_twice_yields_identical_sequences() {
    for s in ["22,80,8000-8002", "", "not-a-port", "1-1024", "70000"] {
        assert_eq!(resolve(s), resolve(s));
    }
}
