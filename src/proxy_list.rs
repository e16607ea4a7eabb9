//! The cached proxy list: a JSON object from upper-case country codes to
//! lists of addresses, and the random choice of one address in it.
use std::collections::HashMap;

use vstd::prelude::*;
use vstd::string::StringSliceAdditionalSpecFns;
use vstd::utf8::encode_utf8;

use crate::route::{country_list_spec, pick_country};

verus! {

#[verifier::external_type_specification]
#[verifier::external_body]
pub struct ExJsonError(serde_json::Error);

/// Why no address could be chosen from the proxy list.
#[derive(Clone, Copy, Debug, PartialEq, Eq, Structural)]
pub enum ProxyListError {
    /// The list is not a JSON object of string lists.
    Malformed,
    /// The list has no entry for the chosen code.
    UnknownCode,
    /// The entry for the chosen code is empty.
    EmptyList,
}

pub open spec fn ascii_upper(b: u8) -> u8 {
    if 97 <= b <= 122 {
        (b - 32) as u8
    } else {
        b
    }
}

/// The key of the country code chosen by `code_rand` in the list `codes`.
pub open spec fn chosen_key(codes: Seq<u8>, code_rand: u8) -> Seq<u8> {
    let start = 3 * (code_rand as int % ((codes.len() + 1) / 3) as int);
    seq![ascii_upper(codes[start]), ascii_upper(codes[start + 1])]
}

/// The UTF-8 bytes of an entry's key.
pub open spec fn key_bytes(e: (String, Vec<String>)) -> Seq<u8> {
    encode_utf8(e.0@)
}

pub open spec fn key_is(e: (String, Vec<String>), key: Seq<u8>) -> bool {
    key_bytes(e) == key
}

/// The addresses of an entry, as strings.
pub open spec fn addresses(e: (String, Vec<String>)) -> Seq<Seq<char>> {
    e.1@.map_values(|s: String| s@)
}

/// What choosing from `entries` yields: the first entry under the chosen
/// key, and in it the address at `addr_rand` modulo its length.
pub open spec fn chosen(
    entries: Seq<(String, Vec<String>)>,
    codes: Seq<u8>,
    code_rand: u8,
    addr_rand: u8,
    r: Result<String, ProxyListError>,
) -> bool {
    let key = chosen_key(codes, code_rand);
    &&& (r == Err::<String, ProxyListError>(ProxyListError::UnknownCode)) <==> (forall|i: int|
        0 <= i < entries.len() ==> !key_is(#[trigger] entries[i], key))
    &&& r != Err::<String, ProxyListError>(ProxyListError::UnknownCode) ==> exists|i: int|
        {
            &&& 0 <= i < entries.len()
            &&& key_is(#[trigger] entries[i], key)
            &&& forall|j: int| 0 <= j < i ==> !key_is(#[trigger] entries[j], key)
            &&& if entries[i].1@.len() == 0 {
                r == Err::<String, ProxyListError>(ProxyListError::EmptyList)
            } else {
                &&& r is Ok
                &&& r->Ok_0@ == entries[i].1@[addr_rand as int % entries[i].1@.len() as int]@
            }
        }
}

/// The proxy list that a JSON text holds, keyed by the UTF-8 bytes of each
/// country code; `None` when the text is not an object of string lists.
pub uninterp spec fn proxy_kv_of(text: Seq<char>) -> Option<Map<Seq<u8>, Seq<Seq<char>>>>;

/// The choice made in a parsed proxy list.
pub open spec fn map_choice(
    m: Map<Seq<u8>, Seq<Seq<char>>>,
    codes: Seq<u8>,
    code_rand: u8,
    addr_rand: u8,
) -> Result<Seq<char>, ProxyListError> {
    let key = chosen_key(codes, code_rand);
    if !m.contains_key(key) {
        Err(ProxyListError::UnknownCode)
    } else if m[key].len() == 0 {
        Err(ProxyListError::EmptyList)
    } else {
        Ok(m[key][addr_rand as int % m[key].len() as int])
    }
}

/// `entries` lists the map `m`: each key once, with its addresses.
pub open spec fn lists_map(entries: Seq<(String, Vec<String>)>, m: Map<Seq<u8>, Seq<Seq<char>>>) -> bool {
    &&& forall|i: int|
        0 <= i < entries.len() ==> m.contains_key(#[trigger] key_bytes(entries[i])) && m[key_bytes(
            entries[i],
        )] == addresses(entries[i])
    &&& forall|k: Seq<u8>|
        #[trigger] m.contains_key(k) ==> exists|i: int| 0 <= i < entries.len() && key_bytes(#[trigger] entries[i]) == k
    &&& forall|i: int, j: int|
        0 <= i < j < entries.len() ==> #[trigger] key_bytes(entries[i]) != #[trigger] key_bytes(
            entries[j],
        )
}

/// Relies on `serde_json::from_str` into a `HashMap<String, Vec<String>>`:
/// it succeeds exactly on a JSON object of string lists, and the entries are
/// that object's, each key once, in the map's own order.
#[verifier::external_body]
fn parse_proxy_kv(text: &str) -> (r: Result<Vec<(String, Vec<String>)>, serde_json::Error>)
    ensures
        r is Ok <==> proxy_kv_of(text@) is Some,
        r is Ok ==> lists_map(r->Ok_0@, proxy_kv_of(text@)->0),
{
    serde_json::from_str::<HashMap<String, Vec<String>>>(text).map(|m| m.into_iter().collect())
}

fn upper(b: u8) -> (r: u8)
    ensures
        r == ascii_upper(b),
{
    if 97 <= b && b <= 122 {
        b - 32
    } else {
        b
    }
}

/// Chooses an address from the parsed proxy list: the country code that
/// `code_rand` picks in `codes`, then the address that `addr_rand` picks in
/// that code's list.
pub fn select_proxy(
    entries: &Vec<(String, Vec<String>)>,
    codes: &str,
    code_rand: u8,
    addr_rand: u8,
) -> (r: Result<String, ProxyListError>)
    requires
        country_list_spec(codes.spec_bytes()),
    ensures
        chosen(entries@, codes.spec_bytes(), code_rand, addr_rand, r),
{
    let start = pick_country(codes, code_rand);
    let cb = codes.as_bytes();
    let k0 = upper(cb[start]);
    let k1 = upper(cb[start + 1]);
    let ghost key = chosen_key(codes.spec_bytes(), code_rand);
    assert(key == seq![k0, k1]);
    let mut i: usize = 0;
    while i < entries.len()
        invariant
            i <= entries@.len(),
            key == seq![k0, k1],
            key == chosen_key(codes.spec_bytes(), code_rand),
            forall|j: int| 0 <= j < i ==> !key_is(#[trigger] entries@[j], key),
        decreases entries.len() - i,
    {
        let kb = entries[i].0.as_str().as_bytes();
        assert(kb@ == encode_utf8(entries@[i as int].0@));
        if kb.len() == 2 && kb[0] == k0 && kb[1] == k1 {
            assert(kb@ =~= key);
            let list = &entries[i].1;
            if list.len() == 0 {
                return Err(ProxyListError::EmptyList);
            }
            let index = addr_rand as usize % list.len();
            let r = Ok(list[index].clone());
            assert(chosen(entries@, codes.spec_bytes(), code_rand, addr_rand, r)) by {
                assert(key_is(entries@[i as int], key));
            }
            return r;
        }
        proof {
            if key_is(entries@[i as int], key) {
                assert(kb@ == key);
                assert(kb@.len() == 2);
                assert(kb@[0] == k0 && kb@[1] == k1);
            }
        }
        i = i + 1;
    }
    Err(ProxyListError::UnknownCode)
}

/// A choice over entries that list a map is the choice over that map.
proof fn lemma_chosen_is_map_choice(
    entries: Seq<(String, Vec<String>)>,
    m: Map<Seq<u8>, Seq<Seq<char>>>,
    codes: Seq<u8>,
    code_rand: u8,
    addr_rand: u8,
    r: Result<String, ProxyListError>,
)
    requires
        lists_map(entries, m),
        chosen(entries, codes, code_rand, addr_rand, r),
    ensures
        match map_choice(m, codes, code_rand, addr_rand) {
            Ok(s) => r is Ok && r->Ok_0@ == s,
            Err(e) => r == Err::<String, ProxyListError>(e),
        },
{
    let key = chosen_key(codes, code_rand);
    if r == Err::<String, ProxyListError>(ProxyListError::UnknownCode) {
        if m.contains_key(key) {
            let i = choose|i: int| 0 <= i < entries.len() && key_bytes(#[trigger] entries[i]) == key;
            assert(key_is(entries[i], key));
        }
    } else {
        let i = choose|i: int|
            {
                &&& 0 <= i < entries.len()
                &&& key_is(#[trigger] entries[i], key)
                &&& forall|j: int| 0 <= j < i ==> !key_is(#[trigger] entries[j], key)
                &&& if entries[i].1@.len() == 0 {
                    r == Err::<String, ProxyListError>(ProxyListError::EmptyList)
                } else {
                    &&& r is Ok
                    &&& r->Ok_0@ == entries[i].1@[addr_rand as int % entries[i].1@.len() as int]@
                }
            };
        assert(m.contains_key(key_bytes(entries[i])));
        assert(m[key] == addresses(entries[i]));
        assert(m[key].len() == entries[i].1@.len());
    }
}

/// Parses the proxy list `text` and chooses an address from it: `Malformed`
/// exactly when the text is not an object of string lists; otherwise the
/// choice over the parsed list.
pub fn select_from_json(text: &str, codes: &str, code_rand: u8, addr_rand: u8) -> (r: Result<
    String,
    ProxyListError,
>)
    requires
        country_list_spec(codes.spec_bytes()),
    ensures
        (r == Err::<String, ProxyListError>(ProxyListError::Malformed)) <==> proxy_kv_of(
            text@,
        ) is None,
        proxy_kv_of(text@) is Some ==> match map_choice(
            proxy_kv_of(text@)->0,
            codes.spec_bytes(),
            code_rand,
            addr_rand,
        ) {
            Ok(s) => r is Ok && r->Ok_0@ == s,
            Err(e) => r == Err::<String, ProxyListError>(e),
        },
{
    match parse_proxy_kv(text) {
        Ok(entries) => {
            let r = select_proxy(&entries, codes, code_rand, addr_rand);
            proof {
                lemma_chosen_is_map_choice(
                    entries@,
                    proxy_kv_of(text@)->0,
                    codes.spec_bytes(),
                    code_rand,
                    addr_rand,
                    r,
                );
            }
            r
        },
        Err(_) => Err(ProxyListError::Malformed),
    }
}

} // verus!
