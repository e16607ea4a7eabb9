//! The routing token of a tunnel request: either a list of two-letter
//! country codes (`us,de`) or a direct `host` + `:`/`=`/`-` + port.
use vstd::prelude::*;
use vstd::string::StringSliceAdditionalSpecFns;

verus! {

pub open spec fn is_ascii_letter(b: u8) -> bool {
    (65 <= b <= 90) || (97 <= b <= 122)
}

pub open spec fn is_ascii_digit(b: u8) -> bool {
    48 <= b <= 57
}

/// `:`, `=` or `-`.
pub open spec fn is_separator(b: u8) -> bool {
    b == 58 || b == 61 || b == 45
}

/// Two letters, then any number of `,` and two letters.
pub open spec fn country_list_spec(s: Seq<u8>) -> bool {
    &&& s.len() % 3 == 2
    &&& forall|i: int|
        0 <= i < s.len() ==> if i % 3 == 2 {
            s[i] == 44
        } else {
            is_ascii_letter(#[trigger] s[i])
        }
}

/// The number of ASCII digits at the end of `s`.
pub open spec fn trailing_digits(s: Seq<u8>) -> nat
    decreases s.len(),
{
    if s.len() > 0 && is_ascii_digit(s.last()) {
        1 + trailing_digits(s.drop_last())
    } else {
        0
    }
}

/// The decimal value of a run of ASCII digits.
pub open spec fn digits_value(s: Seq<u8>) -> nat
    decreases s.len(),
{
    if s.len() == 0 {
        0
    } else {
        digits_value(s.drop_last()) * 10 + (s.last() - 48) as nat
    }
}

/// Where the separator of a direct address stands: just before the
/// trailing digits.
pub open spec fn separator_index(s: Seq<u8>) -> int {
    s.len() - 1 - trailing_digits(s)
}

/// A non-empty host without line feeds, a separator, and one to five
/// ASCII digits at the end. Only ASCII digits count: a token that ends in
/// other decimal digits is no direct address.
pub open spec fn direct_address_spec(s: Seq<u8>) -> bool {
    let j = separator_index(s);
    &&& 1 <= trailing_digits(s) <= 5
    &&& j >= 1
    &&& is_separator(s[j])
    &&& forall|i: int| 0 <= i < j ==> #[trigger] s[i] != 10
}

/// The port digits of a direct address.
pub open spec fn port_digits(s: Seq<u8>) -> Seq<u8> {
    s.skip(separator_index(s) + 1)
}

/// Why a routing token gave no direct address.
#[derive(Clone, Copy, Debug, PartialEq, Eq, Structural)]
pub enum ProxyIpError {
    /// The token is not of the form host, separator, digits.
    NoMatch,
    /// The digits give 0, or exceed 65535: a port lies in 1 to 65535.
    InvalidPort,
}

/// Whether `token` is a comma-separated list of two-letter country codes.
pub fn is_country_list(token: &str) -> (r: bool)
    ensures
        r == country_list_spec(token.spec_bytes()),
{
    let b = token.as_bytes();
    if b.len() % 3 != 2 {
        return false;
    }
    let mut i: usize = 0;
    while i < b.len()
        invariant
            b@ == token.spec_bytes(),
            i <= b.len(),
            forall|k: int|
                0 <= k < i ==> if k % 3 == 2 {
                    b@[k] == 44
                } else {
                    is_ascii_letter(#[trigger] b@[k])
                },
        decreases b.len() - i,
    {
        let c = b[i];
        if i % 3 == 2 {
            if c != 44 {
                return false;
            }
        } else if !((65 <= c && c <= 90) || (97 <= c && c <= 122)) {
            return false;
        }
        i = i + 1;
    }
    true
}

/// Where the code chosen by the random byte `rand` starts in a country
/// list: the codes are counted from zero, and code `rand % count` is taken.
pub fn pick_country(token: &str, rand: u8) -> (r: usize)
    requires
        country_list_spec(token.spec_bytes()),
    ensures
        r == 3 * (rand as int % ((token.spec_bytes().len() + 1) / 3) as int),
        r + 2 <= token.spec_bytes().len(),
{
    let count = (token.as_bytes().len() + 1) / 3;
    let k = rand as usize % count;
    assert(k < count);
    assert(3 * k + 2 <= 3 * count - 1) by (nonlinear_arith)
        requires
            k < count,
    ;
    3 * k
}

/// The digits of `s` after index `j` are all digits and `s[j]` is not one.
proof fn lemma_trailing_digits_at(s: Seq<u8>, j: int)
    requires
        -1 <= j < s.len(),
        forall|k: int| j < k < s.len() ==> is_ascii_digit(#[trigger] s[k]),
        j >= 0 ==> !is_ascii_digit(s[j]),
    ensures
        trailing_digits(s) == s.len() - 1 - j,
    decreases s.len(),
{
    if s.len() > 0 && j < s.len() - 1 {
        let t = s.drop_last();
        assert forall|k: int| j < k < t.len() implies is_ascii_digit(#[trigger] t[k]) by {
            assert(t[k] == s[k]);
        }
        if j >= 0 {
            assert(t[j] == s[j]);
        }
        lemma_trailing_digits_at(t, j);
    }
}

/// Splits a direct address `host` + separator + port: the length in bytes
/// of the host, and the port, which must lie in 1 to 65535.
pub fn parse_proxy_ip(token: &str) -> (r: Result<(usize, u16), ProxyIpError>)
    ensures
        !direct_address_spec(token.spec_bytes()) ==> r == Err::<(usize, u16), _>(
            ProxyIpError::NoMatch,
        ),
        direct_address_spec(token.spec_bytes()) ==> {
            let s = token.spec_bytes();
            if digits_value(port_digits(s)) == 0 || digits_value(port_digits(s)) > 65535 {
                r == Err::<(usize, u16), _>(ProxyIpError::InvalidPort)
            } else {
                &&& r is Ok
                &&& r->Ok_0.0 == separator_index(s)
                &&& r->Ok_0.1 == digits_value(port_digits(s))
            }
        },
{
    let b = token.as_bytes();
    let ghost s = token.spec_bytes();
    let n = b.len();
    // find the last byte that is not a digit
    let mut j: usize = n;
    while j > 0 && 48 <= b[j - 1] && b[j - 1] <= 57
        invariant
            s == token.spec_bytes(),
            b@ == s,
            n == s.len(),
            j <= n,
            forall|k: int| j <= k < n ==> is_ascii_digit(#[trigger] s[k]),
        decreases j,
    {
        j = j - 1;
    }
    if j == 0 {
        proof {
            lemma_trailing_digits_at(s, -1);
        }
        return Err(ProxyIpError::NoMatch);
    }
    let sep = j - 1;
    proof {
        lemma_trailing_digits_at(s, sep as int);
    }
    let digits = n - j;
    if digits < 1 || digits > 5 || sep < 1 || !(b[sep] == 58 || b[sep] == 61 || b[sep] == 45) {
        return Err(ProxyIpError::NoMatch);
    }
    let mut i: usize = 0;
    while i < sep
        invariant
            s == token.spec_bytes(),
            b@ == s,
            n == s.len(),
            sep < n,
            i <= sep,
            separator_index(s) == sep,
            forall|k: int| 0 <= k < i ==> #[trigger] s[k] != 10,
        decreases sep - i,
    {
        if b[i] == 10 {
            assert(s[i as int] == 10);
            return Err(ProxyIpError::NoMatch);
        }
        i = i + 1;
    }
    let ghost ds = s.skip(j as int);
    let mut value: u32 = 0;
    let mut k: usize = j;
    while k < n
        invariant
            s == token.spec_bytes(),
            b@ == s,
            n == s.len(),
            j <= k <= n,
            n - j <= 5,
            ds == s.skip(j as int),
            forall|q: int| j <= q < n ==> is_ascii_digit(#[trigger] s[q]),
            value == digits_value(ds.take(k - j)),
            value < 100000,
        decreases n - k,
    {
        assert(ds.take(k - j + 1).drop_last() =~= ds.take(k - j));
        assert(ds[k - j] == s[k as int]);
        assert(k - j < 5);
        proof {
            let done = ds.take(k - j);
            assert forall|q: int| 0 <= q < done.len() implies is_ascii_digit(#[trigger] done[q]) by {
                assert(done[q] == s[j + q]);
            }
            lemma_digits_value_bound(done);
            lemma_pow10_small((k - j) as nat);
        }
        value = value * 10 + (b[k] - 48) as u32;
        k = k + 1;
    }
    assert(ds.take(n - j) =~= ds);
    if value == 0 || value > 65535 {
        return Err(ProxyIpError::InvalidPort);
    }
    Ok((sep, value as u16))
}

proof fn lemma_digits_value_bound(s: Seq<u8>)
    requires
        forall|q: int| 0 <= q < s.len() ==> is_ascii_digit(#[trigger] s[q]),
    ensures
        digits_value(s) < pow10(s.len()),
    decreases s.len(),
{
    if s.len() > 0 {
        lemma_digits_value_bound(s.drop_last());
    }
}

proof fn lemma_pow10_small(m: nat)
    requires
        m <= 4,
    ensures
        pow10(m) <= 10000,
{
    reveal_with_fuel(pow10, 5);
}

pub open spec fn pow10(n: nat) -> nat
    decreases n,
{
    if n == 0 {
        1
    } else {
        10 * pow10((n - 1) as nat)
    }
}

} // verus!
