use vstd::prelude::*;

verus! {

/// The tunnel protocol families that the classifier can recognise, in the
/// order in which they are tried.
#[derive(Clone, Copy, Debug, PartialEq, Eq, Structural)]
pub enum Protocol {
    Vless,
    Shadowsocks,
    Trojan,
    Vmess,
    Unrecognized,
}

/// The big-endian 16-bit value of `b[i]` and `b[i + 1]`.
pub open spec fn port_at(b: Seq<u8>, i: int) -> int {
    b[i] as int * 256 + b[i + 1] as int
}

/// First byte is the sentinel zero.
pub open spec fn vless_matches(b: Seq<u8>) -> bool {
    b.len() > 0 && b[0] == 0
}

/// An address-type code (1: IPv4, 3: domain, 4: IPv6) whose header fits in
/// `b` and whose port field is not zero.
pub open spec fn shadowsocks_matches(b: Seq<u8>) -> bool {
    &&& b.len() > 0
    &&& if b[0] == 1 {
        b.len() >= 7 && port_at(b, 5) != 0
    } else if b[0] == 3 {
        b.len() >= 2 && b.len() >= 2 + b[1] + 2 && port_at(b, 2 + b[1]) != 0
    } else if b[0] == 4 {
        b.len() >= 19 && port_at(b, 17) != 0
    } else {
        false
    }
}

/// CR and LF at offsets 56 and 57.
pub open spec fn trojan_matches(b: Seq<u8>) -> bool {
    b.len() > 57 && b[56] == 13 && b[57] == 10
}

/// The fallback: any non-empty prefix.
pub open spec fn vmess_matches(b: Seq<u8>) -> bool {
    b.len() > 0
}

/// First match wins, in the order of the variants of `Protocol`.
pub open spec fn classify_spec(b: Seq<u8>) -> Protocol {
    if vless_matches(b) {
        Protocol::Vless
    } else if shadowsocks_matches(b) {
        Protocol::Shadowsocks
    } else if trojan_matches(b) {
        Protocol::Trojan
    } else if vmess_matches(b) {
        Protocol::Vmess
    } else {
        Protocol::Unrecognized
    }
}

fn port_nonzero(hi: u8, lo: u8) -> (r: bool)
    ensures
        r == (hi as int * 256 + lo as int != 0),
{
    let port: u16 = (hi as u16) * 256 + lo as u16;
    port != 0
}

pub fn is_vl(buffer: &[u8]) -> (r: bool)
    ensures
        r == vless_matches(buffer@),
{
    buffer.len() > 0 && buffer[0] == 0
}

pub fn is_ss(buffer: &[u8]) -> (r: bool)
    ensures
        r == shadowsocks_matches(buffer@),
{
    if buffer.len() == 0 {
        return false;
    }
    match buffer[0] {
        1 => {
            if buffer.len() < 7 {
                return false;
            }
            port_nonzero(buffer[5], buffer[6])
        },
        3 => {
            if buffer.len() < 2 {
                return false;
            }
            let domain_len = buffer[1] as usize;
            if buffer.len() < 2 + domain_len + 2 {
                return false;
            }
            port_nonzero(buffer[2 + domain_len], buffer[2 + domain_len + 1])
        },
        4 => {
            if buffer.len() < 19 {
                return false;
            }
            port_nonzero(buffer[17], buffer[18])
        },
        _ => false,
    }
}

pub fn is_tr(buffer: &[u8]) -> (r: bool)
    ensures
        r == trojan_matches(buffer@),
{
    buffer.len() > 57 && buffer[56] == 13 && buffer[57] == 10
}

pub fn is_vm(buffer: &[u8]) -> (r: bool)
    ensures
        r == vmess_matches(buffer@),
{
    buffer.len() > 0
}

/// Picks the protocol of a session from its first bytes.
pub fn classify(buffer: &[u8]) -> (r: Protocol)
    ensures
        r == classify_spec(buffer@),
{
    if is_vl(buffer) {
        Protocol::Vless
    } else if is_ss(buffer) {
        Protocol::Shadowsocks
    } else if is_tr(buffer) {
        Protocol::Trojan
    } else if is_vm(buffer) {
        Protocol::Vmess
    } else {
        Protocol::Unrecognized
    }
}

/// A prefix that starts with the sentinel zero is VLESS, whatever follows.
pub proof fn lemma_sentinel_is_vless(b: Seq<u8>)
    requires
        b.len() > 0,
        b[0] == 0,
    ensures
        classify_spec(b) == Protocol::Vless,
{
}

/// An IPv4 Shadowsocks header whose port field is zero is never taken for
/// Shadowsocks.
pub proof fn lemma_ipv4_zero_port_not_shadowsocks(b: Seq<u8>)
    requires
        b.len() >= 7,
        b[0] == 1,
        b[5] == 0,
        b[6] == 0,
    ensures
        classify_spec(b) != Protocol::Shadowsocks,
{
}

/// A domain header that declares `L` name bytes needs at least `2 + L + 2`
/// bytes to be taken for Shadowsocks.
pub proof fn lemma_short_domain_not_shadowsocks(b: Seq<u8>)
    requires
        b.len() >= 2,
        b[0] == 3,
        b.len() < 2 + b[1] + 2,
    ensures
        classify_spec(b) != Protocol::Shadowsocks,
{
}

/// A prefix that matches both the VLESS and the Trojan test is VLESS.
pub proof fn lemma_vless_before_trojan(b: Seq<u8>)
    requires
        vless_matches(b),
        trojan_matches(b),
    ensures
        classify_spec(b) == Protocol::Vless,
{
}

/// A prefix that matches one of the first three tests never falls through to
/// the fallback, and only the empty prefix is unrecognised.
pub proof fn lemma_fallback_is_last(b: Seq<u8>)
    ensures
        vless_matches(b) || shadowsocks_matches(b) || trojan_matches(b) ==> classify_spec(b)
            != Protocol::Vmess,
        classify_spec(b) == Protocol::Unrecognized <==> b.len() == 0,
{
}

} // verus!
