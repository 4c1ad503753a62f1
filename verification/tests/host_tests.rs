use dnsfront::host::validate_host;

#[test]
fn vhost() {
    assert_eq!(validate_host(".o"), false);
    assert_eq!(validate_host("..o"), false);
    assert_eq!(validate_host("-asd.o"), false);
    assert_eq!(validate_host("--asd.o"), false);
    assert_eq!(validate_host("asd."), false);
    assert_eq!(validate_host("asd.o."), false);
    assert_eq!(validate_host("asd-"), false);
    assert_eq!(validate_host("asd.o-"), false);
    assert_eq!(validate_host("asd"), false);
    assert_eq!(validate_host("asd-.o"), false);
    assert_eq!(validate_host("asd.-o"), false);
    assert_eq!(validate_host("asd..o"), false);
    assert_eq!(validate_host("asd--o"), false);
    assert_eq!(validate_host("-.o"), false);
    assert_eq!(validate_host(".-o"), false);
    assert_eq!(validate_host("asd--asd.o"), true);
}

#[test]
fn host_length_bounds() {
    assert_eq!(validate_host(""), false);
    assert_eq!(validate_host("a"), false);
    assert_eq!(validate_host("a."), false);
    // 255 characters: the longest acceptable hostname.
    let mut long = String::new();
    for _ in 0..253 {
        long.push('a');
    }
    long.push('.');
    long.push('o');
    assert_eq!(long.len(), 255);
    assert_eq!(validate_host(long.as_str()), true);
    // One more character crosses the bound.
    let mut too_long = String::from("a");
    too_long.push_str(long.as_str());
    assert_eq!(too_long.len(), 256);
    assert_eq!(validate_host(too_long.as_str()), false);
}

#[test]
fn host_shortest_valid() {
    assert_eq!(validate_host("a.b"), true);
    assert_eq!(validate_host("a.b.c"), true);
    assert_eq!(validate_host("1.2"), true);
}

#[test]
fn host_alnum_only_rejected() {
    assert_eq!(validate_host("abc123"), false);
    assert_eq!(validate_host("localhost"), false);
}

#[test]
fn host_other_characters_rejected() {
    assert_eq!(validate_host("a_b.c"), false);
    assert_eq!(validate_host("a b.c"), false);
    assert_eq!(validate_host("päd.c"), false);
}
