//! Domain rules: exact names and `*.suffix` wildcards, OR-combined.
use vstd::prelude::*;
use vstd::utf8::encode_utf8;
use crate::text::{DOT, STAR, bytes_eq, has_suffix, is_suffix, trim_of, trim_str};

verus! {

/// What a domain rule means, over bytes.
pub enum DomainPattern {
    Exact(Seq<u8>),
    Wildcard(Seq<u8>),
}

/// One domain rule.
pub enum DomainRule {
    /// The candidate equals these bytes.
    Exact(Vec<u8>),
    /// The candidate ends with these bytes at a label boundary.
    Wildcard(Vec<u8>),
}

impl View for DomainRule {
    type V = DomainPattern;

    open spec fn view(&self) -> DomainPattern {
        match self {
            DomainRule::Exact(t) => DomainPattern::Exact(t@),
            DomainRule::Wildcard(s) => DomainPattern::Wildcard(s@),
        }
    }
}

/// The rule that the text `b` (bytes) denotes: a leading `*.` marks a wildcard
/// over the rest, anything else is taken literally.
pub open spec fn domain_pattern_of(b: Seq<u8>) -> DomainPattern {
    if b.len() >= 2 && b[0] == STAR && b[1] == DOT {
        DomainPattern::Wildcard(b.skip(2))
    } else {
        DomainPattern::Exact(b)
    }
}

/// `d` ends with `suffix`, and the suffix starts `d` or follows a `.`.
pub open spec fn wildcard_accepts(suffix: Seq<u8>, d: Seq<u8>) -> bool {
    is_suffix(suffix, d) && (d.len() == suffix.len() || d[d.len() - suffix.len() - 1] == DOT)
}

/// A wildcard accepts exactly its suffix itself and the domains that end with
/// a dot followed by the suffix; so `*.example.com` accepts `a.example.com`
/// and rejects `notexample.com`.
pub proof fn lemma_wildcard_boundary(suffix: Seq<u8>, d: Seq<u8>)
    ensures
        wildcard_accepts(suffix, d) <==> (d == suffix || is_suffix(seq![DOT] + suffix, d)),
{
    let k = d.len() - suffix.len();
    if wildcard_accepts(suffix, d) && d != suffix {
        assert(d.len() != suffix.len()) by {
            if d.len() == suffix.len() {
                assert(d.skip(0) =~= d);
            }
        }
        assert(d.skip(k - 1) =~= seq![DOT] + suffix) by {
            assert(d.skip(k) =~= d.skip(k - 1).skip(1));
        }
    }
    if is_suffix(seq![DOT] + suffix, d) {
        assert(d.skip(k) =~= d.skip(k - 1).skip(1));
        assert((seq![DOT] + suffix).skip(1) =~= suffix);
        assert(is_suffix(suffix, d));
        assert(d[k - 1] == d.skip(k - 1)[0]);
    }
    if d == suffix {
        assert(d.skip(0) =~= d);
    }
}

/// Whether pattern `p` accepts the domain `d`.
pub open spec fn pattern_accepts(p: DomainPattern, d: Seq<u8>) -> bool {
    match p {
        DomainPattern::Exact(t) => d == t,
        DomainPattern::Wildcard(s) => wildcard_accepts(s, d),
    }
}

/// Whether some pattern of `ps` accepts `d`, or `ps` is empty.
pub open spec fn patterns_accept(ps: Seq<DomainPattern>, d: Seq<u8>) -> bool {
    ps.len() == 0 || exists|i: int| 0 <= i < ps.len() && #[trigger] pattern_accepts(ps[i], d)
}

/// The patterns that a list of configured texts yields: texts that are blank
/// after trimming are left out, the others are read by `domain_pattern_of`
/// as they stand.
pub open spec fn domain_patterns_of(inputs: Seq<String>) -> Seq<DomainPattern>
    decreases inputs.len(),
{
    if inputs.len() == 0 {
        Seq::empty()
    } else {
        let head = domain_patterns_of(inputs.drop_last());
        let last = inputs.last()@;
        if trim_of(last).len() == 0 {
            head
        } else {
            head.push(domain_pattern_of(encode_utf8(last)))
        }
    }
}

impl DomainRule {
    /// Reads one domain rule from its text.
    pub fn parse(input: &str) -> (r: DomainRule)
        ensures
            r@ == domain_pattern_of(encode_utf8(input@)),
    {
        let b = input.as_bytes();
        if b.len() >= 2 && b[0] == STAR && b[1] == DOT {
            let rest = vstd::slice::slice_subrange(b, 2, b.len());
            DomainRule::Wildcard(vstd::slice::slice_to_vec(rest))
        } else {
            DomainRule::Exact(vstd::slice::slice_to_vec(b))
        }
    }

    /// Whether this rule accepts `domain`; case-sensitive, byte for byte.
    pub fn matches(&self, domain: &[u8]) -> (r: bool)
        ensures
            r == pattern_accepts(self@, domain@),
    {
        match self {
            DomainRule::Exact(target) => bytes_eq(domain, target.as_slice()),
            DomainRule::Wildcard(suffix) => {
                if !has_suffix(domain, suffix.as_slice()) {
                    return false;
                }
                domain.len() == suffix.len() || domain[domain.len() - suffix.len() - 1] == DOT
            },
        }
    }
}

/// An ordered, OR-combined set of domain rules; an empty set accepts every
/// domain.
pub struct DomainMatcher {
    rules: Vec<DomainRule>,
}

impl View for DomainMatcher {
    type V = Seq<DomainPattern>;

    closed spec fn view(&self) -> Seq<DomainPattern> {
        self.rules@.map_values(|r: DomainRule| r@)
    }
}

impl DomainMatcher {
    /// Builds the matcher from configured texts; blank entries are skipped and
    /// nothing is ever rejected.
    pub fn new(inputs: &[String]) -> (r: DomainMatcher)
        ensures
            r@ == domain_patterns_of(inputs@),
    {
        let mut rules: Vec<DomainRule> = Vec::new();
        let mut i: usize = 0;
        while i < inputs.len()
            invariant
                i <= inputs@.len(),
                rules@.map_values(|r: DomainRule| r@) == domain_patterns_of(inputs@.take(i as int)),
            decreases inputs@.len() - i,
        {
            let input = inputs[i].as_str();
            assert(inputs@.take(i + 1).drop_last() == inputs@.take(i as int));
            let t = trim_str(input);
            if !t.is_empty() {
                rules.push(DomainRule::parse(input));
            }
            assert(rules@.map_values(|r: DomainRule| r@) =~= domain_patterns_of(inputs@.take(i + 1)));
            i = i + 1;
        }
        assert(inputs@.take(inputs@.len() as int) == inputs@);
        DomainMatcher { rules }
    }

    /// Whether some rule accepts `domain`; true for every domain when there
    /// are no rules.
    pub fn matches(&self, domain: &[u8]) -> (r: bool)
        ensures
            r == patterns_accept(self@, domain@),
    {
        if self.rules.len() == 0 {
            return true;
        }
        let mut i: usize = 0;
        while i < self.rules.len()
            invariant
                i <= self.rules@.len(),
                forall|j: int| 0 <= j < i ==> !pattern_accepts(#[trigger] self@[j], domain@),
            decreases self.rules@.len() - i,
        {
            if self.rules[i].matches(domain) {
                assert(pattern_accepts(self@[i as int], domain@));
                return true;
            }
            i = i + 1;
        }
        false
    }

    /// Whether no rule is configured.
    pub fn is_none(&self) -> (r: bool)
        ensures
            r == (self@.len() == 0),
    {
        self.rules.len() == 0
    }
}

} // verus!
