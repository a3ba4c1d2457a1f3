//! The lookup orchestrator: normalizes an identifier, serves a fresh cache
//! entry, and otherwise names the catalog URL to fetch; a fetched payload is
//! parsed, cached on success, and returned.
//!
//! The network call itself is the caller's: [`LookupService::lookup_local`]
//! decides between cache and fetch, and [`LookupService::apply_fetch`] folds
//! the outcome of the fetch back in. Failed fetches leave the cache
//! untouched.
use vstd::prelude::*;
use vstd::string::StringExecFns;

use crate::cache::{spec_cache_get, CacheEntry, ProductCache, TTL_SECONDS};
use crate::json::JsonValue;
use crate::parse::{parse, spec_parse, ParseError};
use crate::record::ProductRecord;
use crate::text::{is_space, is_space_exec, lower_char, lower_char_exec, lower_seq};

verus! {

/// The index of the first non-whitespace character of `s`, or `s.len()` if
/// there is none.
pub open spec fn first_non_space(s: Seq<char>) -> int
    decreases s.len(),
{
    if s.len() == 0 {
        0
    } else if !is_space(s[0]) {
        0
    } else {
        1 + first_non_space(s.drop_first())
    }
}

/// One past the index of the last non-whitespace character of `s`, or `0` if
/// there is none.
pub open spec fn last_non_space_end(s: Seq<char>) -> int
    decreases s.len(),
{
    if s.len() == 0 {
        0
    } else if !is_space(s.last()) {
        s.len() as int
    } else {
        last_non_space_end(s.drop_last())
    }
}

/// `s` without leading and trailing whitespace.
pub open spec fn trim_spec(s: Seq<char>) -> Seq<char> {
    let a = first_non_space(s);
    let b = last_non_space_end(s);
    if a <= b {
        s.subrange(a, b)
    } else {
        Seq::empty()
    }
}

/// The canonical form of an identifier: trimmed of surrounding whitespace and
/// folded to lower case. Applied identically on cache reads and cache writes,
/// so cache keys are canonical.
pub open spec fn spec_normalize(s: Seq<char>) -> Seq<char> {
    lower_seq(trim_spec(s))
}

proof fn lemma_first_non_space_at(s: Seq<char>, a: int)
    requires
        0 <= a <= s.len(),
        forall|j: int| 0 <= j < a ==> is_space(s[j]),
        a < s.len() ==> !is_space(s[a]),
    ensures
        first_non_space(s) == a,
    decreases a,
{
    if a == 0 {
    } else {
        assert(is_space(s[0]));
        lemma_first_non_space_at(s.drop_first(), a - 1);
    }
}

proof fn lemma_last_non_space_end_at(s: Seq<char>, b: int)
    requires
        0 <= b <= s.len(),
        forall|j: int| b <= j < s.len() ==> is_space(s[j]),
        b > 0 ==> !is_space(s[b - 1]),
    ensures
        last_non_space_end(s) == b,
    decreases s.len(),
{
    if b == s.len() {
        if s.len() == 0 {
        } else {
            assert(!is_space(s.last()));
        }
    } else {
        assert(is_space(s.last()));
        lemma_last_non_space_end_at(s.drop_last(), b);
    }
}

/// Canonicalizes an identifier exactly as [`spec_normalize`] describes.
pub fn normalize_identifier(s: &str) -> (r: String)
    ensures
        r@ == spec_normalize(s@),
{
    let len = s.unicode_len();
    let mut a: usize = 0;
    while a < len && is_space_exec(s.get_char(a))
        invariant
            a <= len,
            forall|j: int| 0 <= j < a ==> is_space(s@[j]),
        decreases len - a,
    {
        a += 1;
    }
    proof {
        lemma_first_non_space_at(s@, a as int);
    }
    let mut out = String::new();
    if a == len {
        // All whitespace: the canonical form is empty.
        proof {
            lemma_last_non_space_end_at(s@, 0);
        }
        assert(trim_spec(s@) =~= Seq::<char>::empty());
        assert(out@ =~= spec_normalize(s@));
        return out;
    }
    let mut b: usize = len;
    while b > a && is_space_exec(s.get_char(b - 1))
        invariant
            a <= b <= len,
            forall|j: int| b <= j < len ==> is_space(s@[j]),
        decreases b,
    {
        b -= 1;
    }
    assert(b > a) by {
        if b == a {
            assert(is_space(s@[a as int]));
        }
    }
    proof {
        lemma_last_non_space_end_at(s@, b as int);
    }
    let mut i: usize = a;
    while i < b
        invariant
            a <= i <= b <= len,
            len == s@.len(),
            out@.len() == i - a,
            forall|j: int| 0 <= j < i - a ==> out@[j] == lower_char(s@[a + j]),
        decreases b - i,
    {
        out.push(lower_char_exec(s.get_char(i)));
        i += 1;
    }
    proof {
        assert(out@ =~= lower_seq(s@.subrange(a as int, b as int)));
    }
    out
}

/// The fixed catalog endpoint template, with the identifier appended at the
/// end.
pub open spec fn spec_catalog_url(id: Seq<char>) -> Seq<char> {
    "https://products.dm.de/product/DE/products/detail/gtin/"@ + id
}

/// Substitutes a normalized identifier into the catalog endpoint template.
pub fn catalog_url(normalized: &str) -> (r: String)
    ensures
        r@ == spec_catalog_url(normalized@),
{
    let mut out = "https://products.dm.de/product/DE/products/detail/gtin/".to_owned();
    out.append(normalized);
    out
}

/// Why a lookup failed: the transport collaborator reported an error, or the
/// remote payload did not parse.
#[derive(Debug)]
pub enum LookupError {
    Transport(String),
    InvalidResponse(ParseError),
}

/// What a lookup needs next: a record served from the cache, or the catalog
/// URL still to be fetched.
pub enum LookupDecision {
    Hit(ProductRecord),
    Fetch(String),
}

/// Owns the product cache and the cache-or-fetch decision. The network call
/// itself is left to the caller, who feeds its outcome back through
/// [`LookupService::apply_fetch`].
pub struct LookupService {
    cache: ProductCache,
}

/// Relies on chrono's `Utc::now` and `DateTime::timestamp`: the current
/// wall-clock time as whole seconds since the Unix epoch. Nothing is assumed
/// of the value.
#[verifier::external_body]
fn now_timestamp() -> i64 {
    chrono::Utc::now().timestamp()
}

impl View for LookupService {
    type V = Map<Seq<char>, CacheEntry>;

    /// The service's state is its cache.
    closed spec fn view(&self) -> Map<Seq<char>, CacheEntry> {
        self.cache@
    }
}

impl LookupService {
    /// The cache keys stay canonical and pairwise distinct.
    pub closed spec fn wf(&self) -> bool {
        self.cache.wf()
    }

    /// A service with an empty cache.
    pub fn new() -> (r: Self)
        ensures
            r.wf(),
            r@ == Map::<Seq<char>, CacheEntry>::empty(),
    {
        LookupService { cache: ProductCache::new() }
    }

    /// The cache-or-fetch decision at time `now`: a fresh entry under the
    /// normalized identifier is served as a hit; a stale or absent one yields
    /// the catalog URL to fetch.
    pub fn lookup_local(&self, identifier: &str, now: i64) -> (r: LookupDecision)
        requires
            self.wf(),
        ensures
            match r {
                LookupDecision::Hit(p) => spec_cache_get(
                    self@,
                    spec_normalize(identifier@),
                    now,
                ) == Some(p),
                LookupDecision::Fetch(url) => spec_cache_get(
                    self@,
                    spec_normalize(identifier@),
                    now,
                ) is None && url@ == spec_catalog_url(spec_normalize(identifier@)),
            },
    {
        let norm = normalize_identifier(identifier);
        match self.cache.get(norm.as_str(), now) {
            Some(p) => LookupDecision::Hit(p),
            None => LookupDecision::Fetch(catalog_url(norm.as_str())),
        }
    }

    /// The cache-or-fetch decision at the current wall-clock time.
    pub fn lookup_begin(&self, identifier: &str) -> (r: LookupDecision)
        requires
            self.wf(),
        ensures
            match r {
                LookupDecision::Hit(p) => exists|t: i64|
                    spec_cache_get(self@, spec_normalize(identifier@), t) == Some(p),
                LookupDecision::Fetch(url) => url@ == spec_catalog_url(
                    spec_normalize(identifier@),
                ),
            },
    {
        let now = now_timestamp();
        let r = self.lookup_local(identifier, now);
        proof {
            if r is Hit {
                assert(spec_cache_get(self@, spec_normalize(identifier@), now) == Some(
                    r->Hit_0,
                ));
            }
        }
        r
    }

    /// Folds the outcome of a fetch back in: a transport failure surfaces as
    /// `LookupError::Transport` and a malformed payload as
    /// `LookupError::InvalidResponse`, each leaving the cache untouched; a
    /// payload that parses is cached under the normalized identifier, fresh
    /// for the whole window starting at `now`, and returned.
    pub fn apply_fetch(
        &mut self,
        identifier: &str,
        outcome: Result<JsonValue, String>,
        now: i64,
    ) -> (r: Result<ProductRecord, LookupError>)
        requires
            old(self).wf(),
            now <= i64::MAX - TTL_SECONDS,
        ensures
            final(self).wf(),
            outcome is Err ==> r == Err::<ProductRecord, LookupError>(
                LookupError::Transport(outcome->Err_0),
            ) && final(self)@ == old(self)@,
            outcome is Ok && spec_parse(outcome->Ok_0) is Err ==> r == Err::<
                ProductRecord,
                LookupError,
            >(LookupError::InvalidResponse(spec_parse(outcome->Ok_0)->Err_0)) && final(self)@
                == old(self)@,
            outcome is Ok && spec_parse(outcome->Ok_0) is Ok ==> r is Ok && (r->Ok_0)@
                == spec_parse(outcome->Ok_0)->Ok_0 && (r->Ok_0).wf() && final(self)@ == old(
                self,
            )@.insert(
                spec_normalize(identifier@),
                (CacheEntry { record: r->Ok_0, expires_at: (now + TTL_SECONDS) as i64 }),
            ),
    {
        match outcome {
            Err(msg) => Err(LookupError::Transport(msg)),
            Ok(payload) => match parse(&payload) {
                Err(pe) => Err(LookupError::InvalidResponse(pe)),
                Ok(record) => {
                    let norm = normalize_identifier(identifier);
                    self.cache.put(norm.as_str(), record.clone(), now);
                    Ok(record)
                },
            },
        }
    }
}

/// Law: within the freshness window there is at most one fetch per
/// identifier — after a successful fetch at time `t` put the record in the
/// cache, the decision for the same identifier at any `now` up to
/// `t + TTL_SECONDS` is a cache hit, never another fetch.
pub proof fn lemma_no_second_fetch(
    m: Map<Seq<char>, CacheEntry>,
    identifier: Seq<char>,
    record: ProductRecord,
    t: i64,
    now: i64,
)
    requires
        t <= i64::MAX - TTL_SECONDS,
        t <= now <= t + TTL_SECONDS,
    ensures
        spec_cache_get(
            m.insert(
                spec_normalize(identifier),
                (CacheEntry { record, expires_at: (t + TTL_SECONDS) as i64 }),
            ),
            spec_normalize(identifier),
            now,
        ) == Some(record),
{
}

} // verus!
