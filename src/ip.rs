//! IP rules: exact text, dotted-decimal prefixes, CIDR networks and address
//! ranges, OR-combined.
use vstd::prelude::*;
use vstd::arithmetic::power2::pow2;
use vstd::utf8::{decode_utf8, encode_utf8, valid_utf8};
use core::str::FromStr;
use crate::field::{field_at, first_sep, lemma_first_sep, nth_field};
use crate::text::{DIGIT_ZERO, DOT, bytes_eq, has_prefix, is_prefix, split_once_char, trim_of, trim_str};

verus! {

/// An IP address as plain integers. IPv4 orders before IPv6, and addresses
/// of one family order by value.
#[derive(Clone, Copy, Debug, PartialEq, Eq, Structural)]
pub enum Addr {
    V4(u32),
    V6(u128),
}

/// `a <= b` in address order.
pub open spec fn addr_le(a: Addr, b: Addr) -> bool {
    match (a, b) {
        (Addr::V4(x), Addr::V4(y)) => x <= y,
        (Addr::V6(x), Addr::V6(y)) => x <= y,
        (Addr::V4(_), Addr::V6(_)) => true,
        (Addr::V6(_), Addr::V4(_)) => false,
    }
}

/// The network of address `net` and prefix length `len` holds `a`: both are
/// of one family and agree on their first `len` bits.
pub open spec fn net_contains(net: Addr, len: u8, a: Addr) -> bool {
    match (net, a) {
        (Addr::V4(n), Addr::V4(x)) => len <= 32 && x as nat / pow2((32 - len) as nat) == n as nat
            / pow2((32 - len) as nat),
        (Addr::V6(n), Addr::V6(x)) => len <= 128 && x as nat / pow2((128 - len) as nat) == n as nat
            / pow2((128 - len) as nat),
        _ => false,
    }
}

/// What the address parser of std reads from the text `s`: `None` unless
/// `s` is the text of an IPv4 or IPv6 address.
pub uninterp spec fn ip_text_of(s: Seq<char>) -> Option<Addr>;

/// What cidr's `IpCidr::from_str` reads from `s`: a network address and its
/// prefix length.
pub uninterp spec fn cidr_of(s: Seq<char>) -> Option<(Addr, u8)>;

/// Relies on `str::from_utf8`: the text that `b` encodes, or `None` when `b`
/// is not valid UTF-8.
#[verifier::external_body]
fn utf8_text(b: &[u8]) -> (r: Option<&str>)
    ensures
        match r {
            Some(t) => valid_utf8(b@) && t@ == decode_utf8(b@),
            None => !valid_utf8(b@),
        },
{
    core::str::from_utf8(b).ok()
}

/// Relies on std's `FromStr for IpAddr`, reached through `str::parse`; cidr's
/// `IpCidr::new_host` only carries the family and the bits of the parsed
/// address over.
#[verifier::external_body]
fn parse_ip_text(s: &str) -> (r: Option<Addr>)
    ensures
        r == ip_text_of(s@),
{
    let a = s.parse().ok()?;
    Some(match cidr::IpCidr::new_host(a) {
        cidr::IpCidr::V4(c) => Addr::V4(u32::from(c.first_address())),
        cidr::IpCidr::V6(c) => Addr::V6(u128::from(c.first_address())),
    })
}

/// Relies on `cidr::IpCidr::from_str`, its `first_address` and its
/// `network_length`.
#[verifier::external_body]
fn parse_cidr(s: &str) -> (r: Option<(Addr, u8)>)
    ensures
        r == cidr_of(s@),
{
    match cidr::IpCidr::from_str(s) {
        Ok(cidr::IpCidr::V4(c)) => Some((Addr::V4(u32::from(c.first_address())), c.network_length())),
        Ok(cidr::IpCidr::V6(c)) => Some((Addr::V6(u128::from(c.first_address())), c.network_length())),
        Err(_) => None,
    }
}

/// A decimal digit byte.
pub open spec fn is_digit(b: u8) -> bool {
    DIGIT_ZERO <= b <= DIGIT_ZERO + 9
}

/// The value of a string of decimal digits.
pub open spec fn decimal_value(f: Seq<u8>) -> int
    decreases f.len(),
{
    if f.len() == 0 {
        0
    } else {
        decimal_value(f.drop_last()) * 10 + (f.last() - DIGIT_ZERO)
    }
}

/// One octet of a dotted quad: one to three digits with a value up to 255.
pub open spec fn octet_of(f: Seq<u8>) -> Option<int> {
    if 1 <= f.len() <= 3 && (forall|i: int| 0 <= i < f.len() ==> is_digit(#[trigger] f[i]))
        && decimal_value(f) <= 255 {
        Some(decimal_value(f))
    } else {
        None
    }
}

/// The IPv4 address that `b` spells as exactly four dot-separated octets.
pub open spec fn dotted_quad(b: Seq<u8>) -> Option<u32> {
    match (
        field_at(b, DOT, 0),
        field_at(b, DOT, 1),
        field_at(b, DOT, 2),
        field_at(b, DOT, 3),
    ) {
        (Some(f0), Some(f1), Some(f2), Some(f3)) => match (
            octet_of(f0),
            octet_of(f1),
            octet_of(f2),
            octet_of(f3),
        ) {
            (Some(o0), Some(o1), Some(o2), Some(o3)) => if field_at(b, DOT, 4) is None {
                Some((o0 * 16777216 + o1 * 65536 + o2 * 256 + o3) as u32)
            } else {
                None
            },
            _ => None,
        },
        _ => None,
    }
}

/// `b` can only be dotted-decimal text: at most 15 bytes, all digits or dots.
pub open spec fn fast_path_applies(b: Seq<u8>) -> bool {
    b.len() <= 15 && forall|i: int| 0 <= i < b.len() ==> is_digit(#[trigger] b[i]) || b[i] == DOT
}

/// The address that a candidate field denotes: read inline as a dotted quad
/// where only that form can apply, by the general parser otherwise (which
/// reads nothing from bytes that are not UTF-8).
pub open spec fn candidate_addr(b: Seq<u8>) -> Option<Addr> {
    if fast_path_applies(b) {
        match dotted_quad(b) {
            Some(v) => Some(Addr::V4(v)),
            None => None,
        }
    } else if valid_utf8(b) {
        ip_text_of(decode_utf8(b))
    } else {
        None
    }
}

/// Canonical decimal text of a byte value, without leading zeros.
pub open spec fn decimal_text(o: int) -> Seq<u8> {
    if o >= 100 {
        seq![(48 + o / 100) as u8, (48 + (o / 10) % 10) as u8, (48 + o % 10) as u8]
    } else if o >= 10 {
        seq![(48 + o / 10) as u8, (48 + o % 10) as u8]
    } else {
        seq![(48 + o) as u8]
    }
}

/// Octet `k` (0 is the most significant) of an IPv4 address.
pub open spec fn octet(v: u32, k: int) -> int {
    let v = v as int;
    if k == 0 {
        v / 16777216
    } else if k == 1 {
        (v / 65536) % 256
    } else if k == 2 {
        (v / 256) % 256
    } else {
        v % 256
    }
}

/// Dotted text of the first `count` octets of `v`, each followed by a dot.
pub open spec fn octets_prefix(v: u32, count: int) -> Seq<u8>
    decreases count,
{
    if count <= 0 {
        Seq::empty()
    } else {
        octets_prefix(v, count - 1) + decimal_text(octet(v, count - 1)) + seq![DOT]
    }
}

/// Canonical dotted-decimal text of an IPv4 address.
pub open spec fn dotted_text(v: u32) -> Seq<u8> {
    octets_prefix(v, 3) + decimal_text(octet(v, 3))
}

/// What an IP rule means.
pub enum IpPattern {
    /// The candidate text equals these bytes.
    Exact(Seq<u8>),
    /// The candidate text starts with these bytes (a /8, /16 or /24 network).
    Prefix(Seq<u8>),
    /// The candidate address lies in this network.
    Cidr(Addr, u8),
    /// The candidate address lies between these two, inclusive.
    Range(Addr, Addr),
}

/// One IP rule.
#[derive(Debug)]
pub enum IPRule {
    Exact(Vec<u8>),
    Prefix(Vec<u8>),
    Cidr(Addr, u8),
    Range(Addr, Addr),
}

impl View for IPRule {
    type V = IpPattern;

    open spec fn view(&self) -> IpPattern {
        match self {
            IPRule::Exact(t) => IpPattern::Exact(t@),
            IPRule::Prefix(p) => IpPattern::Prefix(p@),
            IPRule::Cidr(n, l) => IpPattern::Cidr(*n, *l),
            IPRule::Range(a, b) => IpPattern::Range(*a, *b),
        }
    }
}

/// A prefix length that fits the family of the network address.
pub open spec fn valid_net(net: Addr, len: u8) -> bool {
    match net {
        Addr::V4(_) => len <= 32,
        Addr::V6(_) => len <= 128,
    }
}

/// The rule for a network: IPv4 /8, /16 and /24 become a text prefix.
pub open spec fn net_pattern(net: Addr, len: u8) -> IpPattern {
    match net {
        Addr::V4(v) => if len == 8 || len == 16 || len == 24 {
            IpPattern::Prefix(octets_prefix(v, len as int / 8))
        } else {
            IpPattern::Cidr(net, len)
        },
        Addr::V6(_) => IpPattern::Cidr(net, len),
    }
}

/// The network that a text with a `/` denotes, when it reads as one.
pub open spec fn network_reading(s: Seq<char>) -> Option<(Addr, u8)> {
    if s.contains('/') {
        match cidr_of(s) {
            Some((n, l)) => if valid_net(n, l) {
                Some((n, l))
            } else {
                None
            },
            None => None,
        }
    } else {
        None
    }
}

/// The rule that the text `s` denotes, or `None` when it cannot be read. A
/// text with a `/` that reads as a network is that network; else a text with a
/// `-` is a range between the (trimmed) addresses on either side of the first
/// `-`; anything else is compared literally.
pub open spec fn ip_rule_of(s: Seq<char>) -> Option<IpPattern> {
    if let Some((n, l)) = network_reading(s) {
        Some(net_pattern(n, l))
    } else if s.contains('-') {
        let i = first_sep(s, '-');
        match (
            ip_text_of(trim_of(s.take(i as int))),
            ip_text_of(trim_of(s.skip(i as int + 1))),
        ) {
            (Some(a), Some(b)) => Some(IpPattern::Range(a, b)),
            _ => None,
        }
    } else {
        Some(IpPattern::Exact(encode_utf8(s)))
    }
}

/// Whether rule `p` accepts the candidate field `b`.
pub open spec fn ip_pattern_accepts(p: IpPattern, b: Seq<u8>) -> bool {
    match p {
        IpPattern::Exact(t) => b == t,
        IpPattern::Prefix(t) => is_prefix(t, b),
        IpPattern::Cidr(n, l) => candidate_addr(b) matches Some(a) && net_contains(n, l, a),
        IpPattern::Range(lo, hi) => candidate_addr(b) matches Some(a) && addr_le(lo, a) && addr_le(
            a,
            hi,
        ),
    }
}

/// Whether some rule of `ps` accepts `b`, or `ps` is empty.
pub open spec fn ip_patterns_accept(ps: Seq<IpPattern>, b: Seq<u8>) -> bool {
    ps.len() == 0 || exists|i: int| 0 <= i < ps.len() && #[trigger] ip_pattern_accepts(ps[i], b)
}

/// The rules that a list of configured texts yields, blank texts left out;
/// `None` when some other text cannot be read.
pub open spec fn ip_patterns_of(inputs: Seq<String>) -> Option<Seq<IpPattern>>
    decreases inputs.len(),
{
    if inputs.len() == 0 {
        Some(Seq::empty())
    } else {
        let last = inputs.last()@;
        match ip_patterns_of(inputs.drop_last()) {
            None => None,
            Some(head) => if trim_of(last).len() == 0 {
                Some(head)
            } else {
                match ip_rule_of(last) {
                    Some(p) => Some(head.push(p)),
                    None => None,
                }
            },
        }
    }
}

/// Reads one octet: one to three digits with a value up to 255.
fn parse_octet(f: &[u8]) -> (r: Option<u32>)
    ensures
        match r {
            Some(v) => octet_of(f@) == Some(v as int),
            None => octet_of(f@) is None,
        },
{
    if f.len() == 0 || f.len() > 3 {
        return None;
    }
    let mut v: u32 = 0;
    let mut i: usize = 0;
    assert(f@.take(0) =~= Seq::<u8>::empty());
    while i < f.len()
        invariant
            1 <= f@.len() <= 3,
            i <= f@.len(),
            forall|j: int| 0 <= j < i ==> is_digit(#[trigger] f@[j]),
            v == decimal_value(f@.take(i as int)),
            v < pow10_of(i as int),
        decreases f@.len() - i,
    {
        let d = f[i];
        if d < DIGIT_ZERO || d > DIGIT_ZERO + 9 {
            return None;
        }
        assert(f@.take(i + 1).drop_last() =~= f@.take(i as int));
        v = v * 10 + (d - DIGIT_ZERO) as u32;
        i = i + 1;
    }
    assert(f@.take(f@.len() as int) =~= f@);
    if v > 255 {
        return None;
    }
    Some(v)
}

/// 10 to the power `i`, for the few digits an octet may have.
pub open spec fn pow10_of(i: int) -> int {
    if i <= 0 {
        1
    } else if i == 1 {
        10
    } else if i == 2 {
        100
    } else {
        1000
    }
}

/// Reads `b` as exactly four dot-separated octets.
pub fn parse_dotted_quad(b: &[u8]) -> (r: Option<u32>)
    ensures
        r == dotted_quad(b@),
{
    let f0 = match nth_field(b, DOT, 0) {
        Some(f) => f,
        None => return None,
    };
    let f1 = match nth_field(b, DOT, 1) {
        Some(f) => f,
        None => return None,
    };
    let f2 = match nth_field(b, DOT, 2) {
        Some(f) => f,
        None => return None,
    };
    let f3 = match nth_field(b, DOT, 3) {
        Some(f) => f,
        None => return None,
    };
    let o0 = match parse_octet(f0) {
        Some(o) => o,
        None => return None,
    };
    let o1 = match parse_octet(f1) {
        Some(o) => o,
        None => return None,
    };
    let o2 = match parse_octet(f2) {
        Some(o) => o,
        None => return None,
    };
    let o3 = match parse_octet(f3) {
        Some(o) => o,
        None => return None,
    };
    if nth_field(b, DOT, 4).is_some() {
        return None;
    }
    Some(o0 * 16777216 + o1 * 65536 + o2 * 256 + o3)
}

/// Reads the address of a candidate field: inline for dotted-decimal text,
/// through the general parser for anything else.
pub fn parse_candidate(b: &[u8]) -> (r: Option<Addr>)
    ensures
        r == candidate_addr(b@),
{
    if b.len() <= 15 {
        let mut i: usize = 0;
        let mut plain = true;
        while i < b.len()
            invariant
                b@.len() <= 15,
                i <= b@.len(),
                plain == forall|j: int| 0 <= j < i ==> is_digit(#[trigger] b@[j]) || b@[j] == DOT,
            decreases b@.len() - i,
        {
            let c = b[i];
            if !(c == DOT || (DIGIT_ZERO <= c && c <= DIGIT_ZERO + 9)) {
                plain = false;
            }
            i = i + 1;
        }
        if plain {
            return match parse_dotted_quad(b) {
                Some(v) => Some(Addr::V4(v)),
                None => None,
            };
        }
    }
    match utf8_text(b) {
        Some(t) => parse_ip_text(t),
        None => None,
    }
}

/// `a <= b` in address order.
pub fn addr_leq(a: Addr, b: Addr) -> (r: bool)
    ensures
        r == addr_le(a, b),
{
    match (a, b) {
        (Addr::V4(x), Addr::V4(y)) => x <= y,
        (Addr::V6(x), Addr::V6(y)) => x <= y,
        (Addr::V4(_), Addr::V6(_)) => true,
        (Addr::V6(_), Addr::V4(_)) => false,
    }
}

/// Whether the network `net`/`len` holds `a`.
pub fn net_holds(net: Addr, len: u8, a: Addr) -> (r: bool)
    ensures
        r == net_contains(net, len, a),
{
    match (net, a) {
        (Addr::V4(n), Addr::V4(x)) => {
            if len > 32 {
                return false;
            }
            let k: u64 = (32 - len) as u64;
            proof {
                vstd::bits::lemma_u64_shr_is_div(x as u64, k);
                vstd::bits::lemma_u64_shr_is_div(n as u64, k);
            }
            (x as u64) >> k == (n as u64) >> k
        },
        (Addr::V6(n), Addr::V6(x)) => {
            if len > 128 {
                return false;
            }
            if len == 0 {
                proof {
                    vstd::arithmetic::power2::lemma2_to64();
                    vstd::arithmetic::power2::lemma_pow2_adds(64, 64);
                    vstd::arithmetic::div_mod::lemma_basic_div(x as int, pow2(128) as int);
                    vstd::arithmetic::div_mod::lemma_basic_div(n as int, pow2(128) as int);
                }
                return true;
            }
            let k: u128 = (128 - len) as u128;
            proof {
                vstd::bits::lemma_u128_shr_is_div(x, k);
                vstd::bits::lemma_u128_shr_is_div(n, k);
            }
            x >> k == n >> k
        },
        _ => false,
    }
}

/// Octet `k` of `v`.
fn octet_byte(v: u32, k: usize) -> (r: u8)
    requires
        k < 4,
    ensures
        r as int == octet(v, k as int),
{
    if k == 0 {
        (v / 16777216) as u8
    } else if k == 1 {
        ((v / 65536) % 256) as u8
    } else if k == 2 {
        ((v / 256) % 256) as u8
    } else {
        (v % 256) as u8
    }
}

/// Appends the canonical decimal text of `o`.
fn push_decimal(out: &mut Vec<u8>, o: u8)
    ensures
        final(out)@ == old(out)@ + decimal_text(o as int),
{
    if o >= 100 {
        out.push(DIGIT_ZERO + o / 100);
        out.push(DIGIT_ZERO + (o / 10) % 10);
        out.push(DIGIT_ZERO + o % 10);
    } else if o >= 10 {
        out.push(DIGIT_ZERO + o / 10);
        out.push(DIGIT_ZERO + o % 10);
    } else {
        out.push(DIGIT_ZERO + o);
    }
}

/// Dotted text of the first `count` octets of `v`, each followed by a dot.
fn prefix_text(v: u32, count: usize) -> (r: Vec<u8>)
    requires
        count <= 3,
    ensures
        r@ == octets_prefix(v, count as int),
{
    let mut out: Vec<u8> = Vec::new();
    let mut k: usize = 0;
    while k < count
        invariant
            k <= count <= 3,
            out@ == octets_prefix(v, k as int),
        decreases count - k,
    {
        push_decimal(&mut out, octet_byte(v, k));
        out.push(DOT);
        k = k + 1;
    }
    out
}

/// A configured IP rule that could not be read.
#[derive(Debug)]
pub struct RuleParseError {
    /// The text of the rule.
    pub rule: String,
}

impl IPRule {
    /// The rule for a network; IPv4 /8, /16 and /24 become a text prefix.
    fn for_network(net: Addr, len: u8) -> (r: IPRule)
        ensures
            r@ == net_pattern(net, len),
    {
        match net {
            Addr::V4(v) => {
                if len == 8 || len == 16 || len == 24 {
                    IPRule::Prefix(prefix_text(v, (len / 8) as usize))
                } else {
                    IPRule::Cidr(net, len)
                }
            },
            Addr::V6(_) => IPRule::Cidr(net, len),
        }
    }

    /// Reads one IP rule from its text.
    pub fn parse(input: &str) -> (r: Result<IPRule, RuleParseError>)
        ensures
            match r {
                Ok(rule) => ip_rule_of(input@) == Some(rule@),
                Err(e) => ip_rule_of(input@) is None && e.rule@ == input@,
            },
    {
        if let Some((a, _)) = split_once_char(input, '/') {
            assert(input@[a@.len() as int] == '/');
            if let Some((n, l)) = parse_cidr(input) {
                let fits = match n {
                    Addr::V4(_) => l <= 32,
                    Addr::V6(_) => l <= 128,
                };
                if fits {
                    return Ok(IPRule::for_network(n, l));
                }
            }
        }
        if let Some((a, b)) = split_once_char(input, '-') {
            proof {
                let s = input@;
                assert(s[a@.len() as int] == '-');
                assert forall|j: int| 0 <= j < a@.len() implies s[j] != '-' by {
                    assert(s[j] == a@[j]);
                }
                lemma_first_sep(s, '-', a@.len() as int);
                assert(s.take(a@.len() as int) =~= a@);
                assert(s.skip(a@.len() as int + 1) =~= b@);
            }
            let lo = parse_ip_text(trim_str(a));
            let hi = parse_ip_text(trim_str(b));
            return match (lo, hi) {
                (Some(x), Some(y)) => Ok(IPRule::Range(x, y)),
                _ => Err(RuleParseError { rule: input.to_owned() }),
            };
        }
        Ok(IPRule::Exact(vstd::slice::slice_to_vec(input.as_bytes())))
    }

    /// Whether this rule accepts the candidate field `ip_bytes`. Exact and
    /// prefix rules compare bytes and never read an address.
    pub fn matches(&self, ip_bytes: &[u8]) -> (r: bool)
        ensures
            r == ip_pattern_accepts(self@, ip_bytes@),
    {
        match self {
            IPRule::Exact(target) => bytes_eq(ip_bytes, target.as_slice()),
            IPRule::Prefix(prefix) => has_prefix(ip_bytes, prefix.as_slice()),
            IPRule::Cidr(net, len) => match parse_candidate(ip_bytes) {
                Some(a) => net_holds(*net, *len, a),
                None => false,
            },
            IPRule::Range(lo, hi) => match parse_candidate(ip_bytes) {
                Some(a) => addr_leq(*lo, a) && addr_leq(a, *hi),
                None => false,
            },
        }
    }
}

/// Once the rules of a leading part of the texts cannot be read, neither can
/// those of the whole list.
proof fn lemma_ip_patterns_none(inputs: Seq<String>, i: int)
    requires
        0 <= i <= inputs.len(),
        ip_patterns_of(inputs.take(i)) is None,
    ensures
        ip_patterns_of(inputs) is None,
    decreases inputs.len(),
{
    if i == inputs.len() {
        assert(inputs.take(i) =~= inputs);
    } else {
        assert(inputs.drop_last().take(i) =~= inputs.take(i));
        lemma_ip_patterns_none(inputs.drop_last(), i);
    }
}

/// An ordered, OR-combined set of IP rules; an empty set accepts every
/// candidate.
#[derive(Debug)]
pub struct IPMatcher {
    rules: Vec<IPRule>,
}

impl View for IPMatcher {
    type V = Seq<IpPattern>;

    closed spec fn view(&self) -> Seq<IpPattern> {
        self.rules@.map_values(|r: IPRule| r@)
    }
}

impl IPMatcher {
    /// Builds the matcher from configured texts; blank entries are skipped,
    /// and the first text that cannot be read is returned as the error.
    pub fn new(inputs: &[String]) -> (r: Result<IPMatcher, RuleParseError>)
        ensures
            match r {
                Ok(m) => ip_patterns_of(inputs@) == Some(m@),
                Err(e) => ip_patterns_of(inputs@) is None && exists|k: int|
                    0 <= k < inputs@.len() && (#[trigger] inputs@[k])@ == e.rule@
                        && trim_of(inputs@[k]@).len() != 0 && ip_rule_of(inputs@[k]@) is None
                        && ip_patterns_of(inputs@.take(k)) is Some,
            },
    {
        let mut rules: Vec<IPRule> = Vec::new();
        let mut i: usize = 0;
        while i < inputs.len()
            invariant
                i <= inputs@.len(),
                ip_patterns_of(inputs@.take(i as int)) == Some(rules@.map_values(|r: IPRule| r@)),
            decreases inputs@.len() - i,
        {
            let input = inputs[i].as_str();
            assert(inputs@.take(i + 1).drop_last() == inputs@.take(i as int));
            assert(inputs@.take(i + 1).last() == inputs@[i as int]);
            let t = trim_str(input);
            if !t.is_empty() {
                match IPRule::parse(input) {
                    Ok(rule) => rules.push(rule),
                    Err(e) => {
                        proof {
                            lemma_ip_patterns_none(inputs@, i + 1);
                            assert(inputs@[i as int]@ == e.rule@);
                        }
                        return Err(e);
                    },
                }
            }
            assert(rules@.map_values(|r: IPRule| r@) =~= ip_patterns_of(inputs@.take(i + 1))->0);
            i = i + 1;
        }
        assert(inputs@.take(inputs@.len() as int) == inputs@);
        Ok(IPMatcher { rules })
    }

    /// Whether some rule accepts `ip_bytes`; true for every candidate when
    /// there are no rules.
    pub fn matches(&self, ip_bytes: &[u8]) -> (r: bool)
        ensures
            r == ip_patterns_accept(self@, ip_bytes@),
    {
        if self.rules.len() == 0 {
            return true;
        }
        let mut i: usize = 0;
        while i < self.rules.len()
            invariant
                i <= self.rules@.len(),
                forall|j: int| 0 <= j < i ==> !ip_pattern_accepts(#[trigger] self@[j], ip_bytes@),
            decreases self.rules@.len() - i,
        {
            if self.rules[i].matches(ip_bytes) {
                assert(ip_pattern_accepts(self@[i as int], ip_bytes@));
                return true;
            }
            i = i + 1;
        }
        false
    }

    /// Whether no rule is configured.
    pub fn is_none(&self) -> (r: bool)
        ensures
            r == (self@.len() == 0),
    {
        self.rules.len() == 0
    }
}

/// The decimal text of a byte value has one to three digits and reads back
/// as that value.
proof fn lemma_decimal_text(o: int)
    requires
        0 <= o < 256,
    ensures
        1 <= decimal_text(o).len() <= 3,
        forall|i: int| 0 <= i < decimal_text(o).len() ==> is_digit(#[trigger] decimal_text(o)[i]),
        decimal_value(decimal_text(o)) == o,
{
    let t = decimal_text(o);
    reveal_with_fuel(decimal_value, 4);
    vstd::arithmetic::div_mod::lemma_fundamental_div_mod(o, 10);
    vstd::arithmetic::div_mod::lemma_fundamental_div_mod(o / 10, 10);
    vstd::arithmetic::div_mod::lemma_div_denominator(o, 10, 10);
    if o >= 100 {
        assert(t.drop_last().drop_last().drop_last() =~= Seq::<u8>::empty());
        assert(t.drop_last().drop_last() =~= seq![t[0]]);
        assert(t.drop_last() =~= seq![t[0], t[1]]);
    } else if o >= 10 {
        assert(t.drop_last().drop_last() =~= Seq::<u8>::empty());
        assert(t.drop_last() =~= seq![t[0]]);
    } else {
        assert(t.drop_last() =~= Seq::<u8>::empty());
    }
}

/// A block of one octet's text and a dot starts a text made of another such
/// block and more only when the octets agree.
proof fn lemma_block_prefix(a: int, b: int, x: Seq<u8>, y: Seq<u8>)
    requires
        0 <= a < 256,
        0 <= b < 256,
    ensures
        is_prefix(decimal_text(a) + seq![DOT] + x, decimal_text(b) + seq![DOT] + y) <==> (a == b
            && is_prefix(x, y)),
{
    lemma_decimal_text(a);
    lemma_decimal_text(b);
    let da = decimal_text(a);
    let db = decimal_text(b);
    let p = da + seq![DOT] + x;
    let t = db + seq![DOT] + y;
    let la = da.len() as int;
    let lb = db.len() as int;
    if a == b {
        if is_prefix(x, y) {
            assert(t.take(p.len() as int) =~= p);
        }
        if is_prefix(p, t) {
            assert(p.skip(la + 1) =~= x);
            assert(y.take(x.len() as int) =~= t.take(p.len() as int).skip(la + 1));
        }
    } else if is_prefix(p, t) {
        let w = t.take(p.len() as int);
        assert(w == p);
        assert(p[la] == DOT);
        assert(t[lb] == DOT);
        if la < lb {
            assert(w[la] == t[la]);
            assert(t[la] == db[la]);
            assert(is_digit(db[la]));
            assert(false);
        } else if lb < la {
            assert(w[lb] == t[lb]);
            assert(p[lb] == da[lb]);
            assert(is_digit(da[lb]));
            assert(false);
        } else {
            assert(da =~= db) by {
                assert forall|i: int| 0 <= i < la implies da[i] == db[i] by {
                    assert(w[i] == t[i]);
                    assert(p[i] == da[i]);
                    assert(t[i] == db[i]);
                }
            }
            assert(false);
        }
    }
}

/// The value `x / 2^8` determines the first three octets, and back.
proof fn lemma_octets_of_quotients(x: u32)
    ensures
        octet(x, 0) == (x / 256) as int / 65536,
        octet(x, 1) == ((x / 256) as int / 256) % 256,
        octet(x, 2) == (x / 256) as int % 256,
        x as int / 256 == octet(x, 0) * 65536 + octet(x, 1) * 256 + octet(x, 2),
        x as int / 65536 == octet(x, 0) * 256 + octet(x, 1),
        x as int / 16777216 == octet(x, 0),
        0 <= octet(x, 0) < 256,
        0 <= octet(x, 1) < 256,
        0 <= octet(x, 2) < 256,
        0 <= octet(x, 3) < 256,
{
    let v = x as int;
    let q = v / 256;
    vstd::arithmetic::div_mod::lemma_div_denominator(v, 256, 256);
    vstd::arithmetic::div_mod::lemma_div_denominator(v, 256, 65536);
    vstd::arithmetic::div_mod::lemma_div_denominator(q, 256, 256);
    vstd::arithmetic::div_mod::lemma_fundamental_div_mod(q, 256);
    vstd::arithmetic::div_mod::lemma_fundamental_div_mod(q / 256, 256);
    vstd::arithmetic::div_mod::lemma_fundamental_div_mod(v / 65536, 256);
}

/// For an IPv4 network of prefix length 8, 16 or 24 and an address written
/// in canonical dotted-decimal text, the text-prefix rule that the network is
/// reduced to accepts the text exactly when the network contains the address.
pub proof fn lemma_prefix_rule_matches_network(n: u32, len: u8, v: u32)
    requires
        len == 8 || len == 16 || len == 24,
    ensures
        ip_pattern_accepts(net_pattern(Addr::V4(n), len), dotted_text(v)) <==> net_contains(
            Addr::V4(n),
            len,
            Addr::V4(v),
        ),
{
    lemma_octets_of_quotients(n);
    lemma_octets_of_quotients(v);
    vstd::arithmetic::power2::lemma2_to64();
    reveal_with_fuel(octets_prefix, 4);
    let e = Seq::<u8>::empty();
    let d = |x: u32, k: int| decimal_text(octet(x, k));
    let t = dotted_text(v);
    assert(t =~= d(v, 0) + seq![DOT] + (d(v, 1) + seq![DOT] + (d(v, 2) + seq![DOT] + d(v, 3))));
    assert(octets_prefix(n, 1) =~= d(n, 0) + seq![DOT] + e);
    assert(octets_prefix(n, 2) =~= d(n, 0) + seq![DOT] + (d(n, 1) + seq![DOT] + e));
    assert(octets_prefix(n, 3) =~= d(n, 0) + seq![DOT] + (d(n, 1) + seq![DOT] + (d(n, 2) + seq![DOT] + e)));
    assert(e.len() == 0 && is_prefix(e, d(v, 2) + seq![DOT] + d(v, 3))) by {
        assert((d(v, 2) + seq![DOT] + d(v, 3)).take(0) =~= e);
    }
    assert(is_prefix(e, d(v, 1) + seq![DOT] + (d(v, 2) + seq![DOT] + d(v, 3)))) by {
        assert((d(v, 1) + seq![DOT] + (d(v, 2) + seq![DOT] + d(v, 3))).take(0) =~= e);
    }
    assert(is_prefix(e, d(v, 3))) by {
        assert(d(v, 3).take(0) =~= e);
    }
    lemma_block_prefix(octet(n, 0), octet(v, 0), e, d(v, 1) + seq![DOT] + (d(v, 2) + seq![DOT] + d(v, 3)));
    lemma_block_prefix(octet(n, 0), octet(v, 0), d(n, 1) + seq![DOT] + e, d(v, 1) + seq![DOT] + (d(v, 2) + seq![DOT] + d(v, 3)));
    lemma_block_prefix(octet(n, 1), octet(v, 1), e, d(v, 2) + seq![DOT] + d(v, 3));
    lemma_block_prefix(
        octet(n, 0),
        octet(v, 0),
        d(n, 1) + seq![DOT] + (d(n, 2) + seq![DOT] + e),
        d(v, 1) + seq![DOT] + (d(v, 2) + seq![DOT] + d(v, 3)),
    );
    lemma_block_prefix(octet(n, 1), octet(v, 1), d(n, 2) + seq![DOT] + e, d(v, 2) + seq![DOT] + d(v, 3));
    lemma_block_prefix(octet(n, 2), octet(v, 2), e, d(v, 3));
}

} // verus!
