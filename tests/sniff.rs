use siren::sniff::{classify, is_ss, is_tr, is_vl, is_vm, Protocol};

fn prefix(first: u8, len: usize) -> Vec<u8> {
    let mut v = vec![7u8; len];
    if len > 0 {
        v[0] = first;
    }
    v
}

#[test]
fn sentinel_zero_is_vless_whatever_follows() {
    for fill in [0u8, 1, 3, 4, 13, 255] {
        let mut v = vec![fill; 62];
        v[0] = 0;
        assert_eq!(classify(&v), Protocol::Vless);
    }
    assert_eq!(classify(&[0u8]), Protocol::Vless);
}

#[test]
fn ipv4_zero_port_is_not_shadowsocks() {
    let mut v = prefix(1, 40);
    v[5] = 0;
    v[6] = 0;
    assert!(!is_ss(&v));
    assert_ne!(classify(&v), Protocol::Shadowsocks);
    v[6] = 80;
    assert_eq!(classify(&v), Protocol::Shadowsocks);
}

#[test]
fn ipv4_short_header_is_not_shadowsocks() {
    let v = vec![1u8, 1, 1, 1, 1, 1];
    assert!(!is_ss(&v));
    assert_eq!(classify(&v), Protocol::Vmess);
}

#[test]
fn domain_needs_full_header() {
    // type 3, length 10: needs 2 + 10 + 2 = 14 bytes
    let mut v = vec![3u8, 10];
    v.extend_from_slice(&[b'x'; 10]);
    v.push(1);
    assert_eq!(v.len(), 13);
    assert!(!is_ss(&v));
    v.push(187);
    assert!(is_ss(&v));
    assert!(!is_ss(&[3u8]));
}

#[test]
fn ipv6_header() {
    let mut v = prefix(4, 19);
    v[17] = 0;
    v[18] = 0;
    assert!(!is_ss(&v));
    v[17] = 1;
    assert!(is_ss(&v));
    assert!(!is_ss(&prefix(4, 18)));
}

#[test]
fn trojan_markers() {
    let mut v = prefix(9, 62);
    v[56] = 13;
    v[57] = 10;
    assert!(is_tr(&v));
    assert_eq!(classify(&v), Protocol::Trojan);
    assert!(!is_tr(&v[..57]));
    v[57] = 11;
    assert_eq!(classify(&v), Protocol::Vmess);
}

#[test]
fn vless_wins_over_trojan() {
    let mut v = prefix(0, 62);
    v[56] = 13;
    v[57] = 10;
    assert!(is_vl(&v) && is_tr(&v));
    assert_eq!(classify(&v), Protocol::Vless);
}

#[test]
fn fallback_and_empty() {
    assert!(is_vm(&[200u8]));
    assert!(!is_vm(&[]));
    assert_eq!(classify(&[200u8, 1, 2]), Protocol::Vmess);
    assert_eq!(classify(&[]), Protocol::Unrecognized);
    assert!(!is_vl(&[]));
}
