use vstd::prelude::*;
use vstd::slice::slice_to_vec;

use crate::coordinator::Verdict;
use crate::generators::base::AlphabetGenerator;
use crate::jwt::{hmac_sha256, token_bytes, Jwt};
use crate::keyspace::{
    cursor_after, enumerated, fits, lemma_cursor_in_range, lemma_end_is_final, lemma_power_monotone,
    lemma_enumerated_onto, lemma_enumerated_shape, over, power, text_of,
};

verus! {

/// How a search ends.
#[derive(Debug, PartialEq, Eq)]
pub enum SearchOutcome {
    /// A secret that signs the token.
    Found(String),
    /// No candidate within the maximum length signs the token.
    Exhausted,
    /// The search could not go on, for the reason given.
    Error(String),
}

/// Whether `secret`, as a key, gives the token's signature over its signed segment.
pub open spec fn signs(jwt: &Jwt, secret: Seq<char>) -> bool {
    hmac_sha256(token_bytes(secret), jwt.b64_signed_part@) == jwt.signature@
}

/// Whether the counters of the enumeration up to `max_length` fit in machine words.
pub open spec fn searchable(alphabet_size: nat, max_length: usize) -> bool {
    power(alphabet_size, max_length as nat) <= usize::MAX
}

/// What a search over the candidates up to `max_length` may return: the first
/// candidate that signs the token, or `Exhausted` where none does.
pub open spec fn search_result(
    jwt: &Jwt,
    alphabet: Seq<char>,
    max_length: usize,
    r: SearchOutcome,
) -> bool {
    match r {
        SearchOutcome::Found(s) => exists|k: nat|
            {
                &&& #[trigger] enumerated(alphabet, Some(max_length), k) == Some(s@)
                &&& signs(jwt, s@)
                &&& forall|j: nat|
                    j < k ==> (#[trigger] enumerated(alphabet, Some(max_length), j) matches Some(
                        c,
                    ) ==> !signs(jwt, c))
            },
        SearchOutcome::Exhausted => forall|k: nat|
            (#[trigger] enumerated(alphabet, Some(max_length), k) matches Some(c) ==> !signs(
                jwt,
                c,
            )),
        SearchOutcome::Error(_) => false,
    }
}

/// What a verifier reports of one candidate: whether, as a key, it signs the token.
pub fn verify_candidate(jwt: &Jwt, candidate: &str) -> (r: Verdict)
    ensures
        r == Verdict::Match <==> signs(jwt, candidate@),
        r == Verdict::Mismatch <==> !signs(jwt, candidate@),
{
    let key = slice_to_vec(candidate.as_bytes());
    match jwt.check(key) {
        Ok(()) => Verdict::Match,
        Err(_) => Verdict::Mismatch,
    }
}

/// Tries the candidates over `alphabet` up to `max_length` in enumeration order, and
/// returns the first that signs the token.
pub fn search(jwt: &Jwt, alphabet: &str, max_length: usize) -> (r: SearchOutcome)
    requires
        searchable(alphabet@.len(), max_length),
    ensures
        search_result(jwt, alphabet@, max_length, r),
{
    let ghost alpha = alphabet@;
    let ghost n = alpha.len();
    let mut gen = AlphabetGenerator::init(alphabet.chars()).with_limit(max_length);
    loop
        invariant
            gen.wf(),
            n == alpha.len(),
            alpha == alphabet@,
            gen.alphabet() == alpha,
            gen.limit() == Some(max_length),
            searchable(n, max_length),
            n > 0 ==> cursor_after(n, gen.produced()).length <= max_length + 1,
            forall|j: nat|
                j < gen.produced() ==> (#[trigger] enumerated(alpha, Some(max_length), j) matches Some(
                    c,
                ) ==> !signs(jwt, c)),
        decreases
            max_length + 1 - cursor_after(n, gen.produced()).length,
            power(n, cursor_after(n, gen.produced()).length) - cursor_after(
                n,
                gen.produced(),
            ).index,
    {
        let ghost k = gen.produced();
        let ghost c = cursor_after(n, k);
        proof {
            if n > 0 {
                lemma_cursor_in_range(n, k);
                if c.length <= max_length {
                    lemma_power_monotone(n, c.length, max_length as nat);
                    assert(fits(n, c));
                }
            }
        }
        match gen.next() {
            None => {
                proof {
                    assert(enumerated(alpha, Some(max_length), k) is None);
                    assert forall|j: nat| j >= k implies #[trigger] enumerated(
                        alpha,
                        Some(max_length),
                        j,
                    ) is None by {
                        lemma_end_is_final(alpha, Some(max_length), k, j);
                    }
                }
                return SearchOutcome::Exhausted;
            },
            Some(candidate) => {
                assert(text_of(Some(candidate)) == enumerated(alpha, Some(max_length), k));
                if verify_candidate(jwt, candidate.as_str()) == Verdict::Match {
                    assert(enumerated(alpha, Some(max_length), k) == Some(candidate@));
                    return SearchOutcome::Found(candidate);
                }
                proof {
                    lemma_cursor_in_range(n, k + 1);
                }
            },
        }
    }
}

/// A token signed with a secret over the alphabet, no longer than the maximum
/// length, is always cracked: the search finds a secret that signs it.
pub proof fn lemma_round_trip(
    jwt: &Jwt,
    alphabet: Seq<char>,
    max_length: usize,
    secret: Seq<char>,
    r: SearchOutcome,
)
    requires
        over(alphabet, secret),
        1 <= secret.len() <= max_length,
        signs(jwt, secret),
        search_result(jwt, alphabet, max_length, r),
    ensures
        r matches SearchOutcome::Found(s) && signs(jwt, s@),
{
    assert(alphabet.contains(secret[0]));
    lemma_enumerated_onto(alphabet, Some(max_length), secret);
    let k = choose|k: nat| #[trigger] enumerated(alphabet, Some(max_length), k) == Some(secret);
    assert(enumerated(alphabet, Some(max_length), k) matches Some(c) && signs(jwt, c));
}

/// Where no string over the alphabet of length one up to the maximum signs the
/// token (its secret is longer, say), the search ends with `Exhausted`, and never
/// with a false success.
pub proof fn lemma_exhausted(jwt: &Jwt, alphabet: Seq<char>, max_length: usize, r: SearchOutcome)
    requires
        forall|t: Seq<char>|
            over(alphabet, t) && 1 <= t.len() <= max_length ==> !#[trigger] signs(jwt, t),
        search_result(jwt, alphabet, max_length, r),
    ensures
        r == SearchOutcome::Exhausted,
{
    if let SearchOutcome::Found(s) = r {
        let k = choose|k: nat|
            {
                &&& #[trigger] enumerated(alphabet, Some(max_length), k) == Some(s@)
                &&& signs(jwt, s@)
                &&& forall|j: nat|
                    j < k ==> (#[trigger] enumerated(alphabet, Some(max_length), j) matches Some(
                        c,
                    ) ==> !signs(jwt, c))
            };
        lemma_enumerated_shape(alphabet, Some(max_length), k);
    }
}

} // verus!
