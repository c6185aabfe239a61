//! IPv4 parsing and the network address of an address under a prefix length,
//! together with the flat record describing one network interface.

use vstd::prelude::*;
use vstd::string::*;
use vstd::arithmetic::power2::pow2;
use crate::dec::{is_dec_digit, all_dec_digits, dec_value, dec_rep, dec_string_u32,
    lemma_dec_value_bounds};

verus! {

/// First index at or after `i` that does not hold a decimal digit.
pub open spec fn digit_run_end(s: Seq<char>, i: int) -> int
    decreases s.len() - i,
{
    if i < 0 || i >= s.len() {
        i
    } else if !is_dec_digit(s[i]) {
        i
    } else {
        digit_run_end(s, i + 1)
    }
}

proof fn lemma_digit_run_end(s: Seq<char>, i: int, j: int)
    requires
        0 <= i <= j <= s.len(),
        forall|k: int| i <= k < j ==> is_dec_digit(#[trigger] s[k]),
        j == s.len() || !is_dec_digit(s[j]),
    ensures
        digit_run_end(s, i) == j,
    decreases j - i,
{
    if i < j {
        lemma_digit_run_end(s, i + 1, j);
    }
}

/// One dotted-quad part: one to three digits, no leading zero, at most 255.
pub open spec fn valid_octet(p: Seq<char>) -> bool {
    &&& 1 <= p.len() <= 3
    &&& all_dec_digits(p)
    &&& (p.len() > 1 ==> p[0] != '0')
    &&& dec_value(p) <= 255
}

/// The octet values of the dot-separated decimal parts of `s` from index `i`
/// to the end, or `None` where that text is not a run of valid octets.
pub open spec fn spec_octets_from(s: Seq<char>, i: int) -> Option<Seq<int>>
    decreases s.len() - i,
{
    if !(0 <= i <= s.len()) {
        None
    } else {
        let j = digit_run_end(s, i);
        if !(i < j && j <= s.len()) {
            None
        } else {
            let p = s.subrange(i, j);
            if !valid_octet(p) {
                None
            } else if j == s.len() {
                Some(seq![dec_value(p)])
            } else if s[j] == '.' {
                match spec_octets_from(s, j + 1) {
                    Some(rest) => Some(seq![dec_value(p)] + rest),
                    None => None,
                }
            } else {
                None
            }
        }
    }
}

/// A valid IPv4 address: exactly four dot-separated valid octets.
pub open spec fn valid_ipv4(s: Seq<char>) -> bool {
    match spec_octets_from(s, 0) {
        Some(parts) => parts.len() == 4,
        None => false,
    }
}

pub open spec fn ipv4_octets(s: Seq<char>) -> Seq<int> {
    spec_octets_from(s, 0).unwrap()
}

fn is_digit_char(c: char) -> (r: bool)
    ensures
        r == is_dec_digit(c),
{
    c >= '0' && c <= '9'
}

fn parse_octets_from(s: &str, i: usize) -> (r: Option<Vec<u8>>)
    requires
        i <= s@.len(),
    ensures
        match r {
            Some(v) => spec_octets_from(s@, i as int) == Some(v@.map_values(|x: u8| x as int)),
            None => spec_octets_from(s@, i as int) is None,
        },
    decreases s@.len() - i,
{
    let n: usize = s.unicode_len();
    let mut j: usize = i;
    while j < n
        invariant
            n == s@.len(),
            i <= j <= n,
            forall|k: int| i <= k < j ==> is_dec_digit(#[trigger] s@[k]),
        ensures
            n == s@.len(),
            i <= j <= n,
            forall|k: int| i <= k < j ==> is_dec_digit(#[trigger] s@[k]),
            j == n || !is_dec_digit(s@[j as int]),
        decreases n - j,
    {
        if !is_digit_char(s.get_char(j)) {
            break;
        }
        j = j + 1;
    }
    proof {
        lemma_digit_run_end(s@, i as int, j as int);
    }
    if j == i {
        return None;
    }
    if j - i > 3 {
        return None;
    }
    if j - i > 1 && s.get_char(i) == '0' {
        return None;
    }
    let ghost p = s@.subrange(i as int, j as int);
    proof {
        assert(all_dec_digits(p));
        lemma_dec_value_bounds(p);
    }
    // accumulate the value of the digit run
    let mut val: u32 = 0;
    let mut k: usize = i;
    while k < j
        invariant
            n == s@.len(),
            i <= k <= j <= n,
            j - i <= 3,
            forall|m: int| i <= m < j ==> is_dec_digit(#[trigger] s@[m]),
            val == dec_value(s@.subrange(i as int, k as int)),
            val <= 999,
        decreases j - k,
    {
        let c: char = s.get_char(k);
        let d: u32 = (c as u32) - ('0' as u32);
        proof {
            let q = s@.subrange(i as int, k as int);
            assert(all_dec_digits(q));
            lemma_dec_value_bounds(q);
            assert(q.len() <= 2);
            assert(s@.subrange(i as int, k + 1).drop_last() =~= q);
            assert(s@.subrange(i as int, k + 1).last() == c);
        }
        val = val * 10 + d;
        k = k + 1;
    }
    proof {
        assert(s@.subrange(i as int, j as int) == p);
    }
    if val > 255 {
        return None;
    }
    proof {
        assert(valid_octet(p));
    }
    if j == n {
        let mut v: Vec<u8> = Vec::new();
        v.push(val as u8);
        proof {
            assert(v@.map_values(|x: u8| x as int) =~= seq![dec_value(p)]);
        }
        return Some(v);
    }
    let c: char = s.get_char(j);
    if c != '.' {
        return None;
    }
    match parse_octets_from(s, j + 1) {
        None => None,
        Some(mut rest) => {
            rest.insert(0, val as u8);
            proof {
                let tail = spec_octets_from(s@, j + 1).unwrap();
                assert(rest@.map_values(|x: u8| x as int) =~= seq![dec_value(p)] + tail);
            }
            Some(rest)
        },
    }
}

/// Parses a dotted-quad IPv4 address; `None` exactly when the text is not one.
pub fn parse_ipv4(s: &str) -> (r: Option<(u8, u8, u8, u8)>)
    ensures
        r is Some <==> valid_ipv4(s@),
        r matches Some(q) ==> {
            &&& q.0 as int == ipv4_octets(s@)[0]
            &&& q.1 as int == ipv4_octets(s@)[1]
            &&& q.2 as int == ipv4_octets(s@)[2]
            &&& q.3 as int == ipv4_octets(s@)[3]
        },
{
    match parse_octets_from(s, 0) {
        None => None,
        Some(v) => {
            if v.len() == 4 {
                Some((v[0], v[1], v[2], v[3]))
            } else {
                None
            }
        },
    }
}

/// How many of an octet's eight bits lie inside a prefix of length `cidr`,
/// for the octet at position `k` (0 to 3) of the address.
pub open spec fn octet_prefix(cidr: int, k: int) -> int {
    if cidr <= 8 * k {
        0
    } else if cidr >= 8 * k + 8 {
        8
    } else {
        cidr - 8 * k
    }
}

/// The octet with all bits after the first `p` cleared.
pub open spec fn masked_octet(o: int, p: int) -> int {
    (o / pow2((8 - p) as nat) as int) * pow2((8 - p) as nat) as int
}

fn mask_octet(o: u8, p: u8) -> (r: u8)
    requires
        p <= 8,
    ensures
        r as int == masked_octet(o as int, p as int),
{
    proof {
        vstd::arithmetic::power2::lemma2_to64();
    }
    if p == 0 {
        assert((o as int / 256) * 256 == 0);
        0
    } else if p == 8 {
        assert((o as int / 1) * 1 == o as int);
        o
    } else {
        let k: u8 = 8 - p;
        let r: u8 = (o >> k) << k;
        proof {
            if k == 1 {
                assert(((o >> 1u8) << 1u8) == ((o / 2) * 2)) by (bit_vector);
            } else if k == 2 {
                assert(((o >> 2u8) << 2u8) == ((o / 4) * 4)) by (bit_vector);
            } else if k == 3 {
                assert(((o >> 3u8) << 3u8) == ((o / 8) * 8)) by (bit_vector);
            } else if k == 4 {
                assert(((o >> 4u8) << 4u8) == ((o / 16) * 16)) by (bit_vector);
            } else if k == 5 {
                assert(((o >> 5u8) << 5u8) == ((o / 32) * 32)) by (bit_vector);
            } else if k == 6 {
                assert(((o >> 6u8) << 6u8) == ((o / 64) * 64)) by (bit_vector);
            } else {
                assert(((o >> 7u8) << 7u8) == ((o / 128) * 128)) by (bit_vector);
            }
        }
        r
    }
}

/// The dotted-quad text of four octet values.
pub open spec fn ipv4_rep(a: int, b: int, c: int, d: int) -> Seq<char> {
    dec_rep(a as nat) + "."@ + dec_rep(b as nat) + "."@ + dec_rep(c as nat) + "."@ + dec_rep(d as nat)
}

pub fn format_ipv4(a: u8, b: u8, c: u8, d: u8) -> (r: String)
    ensures
        r@ == ipv4_rep(a as int, b as int, c as int, d as int),
{
    let mut s: String = dec_string_u32(a as u32);
    s.append(".");
    let sb: String = dec_string_u32(b as u32);
    s.append(sb.as_str());
    s.append(".");
    let sc: String = dec_string_u32(c as u32);
    s.append(sc.as_str());
    s.append(".");
    let sd: String = dec_string_u32(d as u32);
    s.append(sd.as_str());
    s
}

/// The dotted-quad text of the network address of `ip` under a prefix of
/// `cidr` bits: each octet keeps its share of the prefix and loses the rest.
pub open spec fn network_address_rep(ip: Seq<char>, cidr: int) -> Seq<char> {
    ipv4_rep(
        masked_octet(ipv4_octets(ip)[0], octet_prefix(cidr, 0)),
        masked_octet(ipv4_octets(ip)[1], octet_prefix(cidr, 1)),
        masked_octet(ipv4_octets(ip)[2], octet_prefix(cidr, 2)),
        masked_octet(ipv4_octets(ip)[3], octet_prefix(cidr, 3)),
    )
}

/// The network address of `ip` under a prefix of `cidr` bits, as dotted-quad
/// text; `None` exactly when `ip` is not a valid IPv4 address.
pub fn calculate_network_address(ip: &str, cidr: u8) -> (r: Option<String>)
    requires
        cidr <= 32,
    ensures
        r is Some <==> valid_ipv4(ip@),
        r matches Some(t) ==> t@ == network_address_rep(ip@, cidr as int),
{
    match parse_ipv4(ip) {
        None => None,
        Some((a, b, c, d)) => {
            let pa: u8 = prefix_part(cidr, 0);
            let pb: u8 = prefix_part(cidr, 1);
            let pc: u8 = prefix_part(cidr, 2);
            let pd: u8 = prefix_part(cidr, 3);
            let na: u8 = mask_octet(a, pa);
            let nb: u8 = mask_octet(b, pb);
            let nc: u8 = mask_octet(c, pc);
            let nd: u8 = mask_octet(d, pd);
            Some(format_ipv4(na, nb, nc, nd))
        },
    }
}

/// The flat record for one discovered network interface: name, address and
/// mask as handed in, the prefix length as decimal text, and the network
/// address, blank where the IP does not parse as IPv4.
pub struct NetworkInterface {
    pub name: String,
    pub ip_address: String,
    pub netmask: String,
    pub cidr: String,
    pub network_address: String,
}

pub fn build_interface(name: String, ip_address: String, netmask: String, prefixlen: u8) -> (r:
    NetworkInterface)
    requires
        prefixlen <= 32,
    ensures
        r.name == name,
        r.ip_address == ip_address,
        r.netmask == netmask,
        r.cidr@ == dec_rep(prefixlen as nat),
        valid_ipv4(ip_address@) ==> r.network_address@ == network_address_rep(
            ip_address@,
            prefixlen as int,
        ),
        !valid_ipv4(ip_address@) ==> r.network_address@ == Seq::<char>::empty(),
{
    let network_address: String = match calculate_network_address(ip_address.as_str(), prefixlen) {
        Some(v) => v,
        None => String::new(),
    };
    let cidr: String = dec_string_u32(prefixlen as u32);
    NetworkInterface { name, ip_address, netmask, cidr, network_address }
}

fn prefix_part(cidr: u8, k: u8) -> (r: u8)
    requires
        cidr <= 32,
        k <= 3,
    ensures
        r as int == octet_prefix(cidr as int, k as int),
        r <= 8,
{
    if cidr <= 8 * k {
        0
    } else if cidr >= 8 * k + 8 {
        8
    } else {
        cidr - 8 * k
    }
}

} // verus!
