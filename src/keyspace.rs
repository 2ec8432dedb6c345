use std::str::Chars;
use vstd::arithmetic::div_mod::{
    lemma_fundamental_div_mod, lemma_fundamental_div_mod_converse, lemma_multiply_divide_lt,
};
use vstd::prelude::*;
use vstd::std_specs::iter::IteratorSpec;

verus! {

/// `n` raised to the power `e`.
pub open spec fn power(n: nat, e: nat) -> nat
    decreases e,
{
    if e == 0 {
        1
    } else {
        n * power(n, (e - 1) as nat)
    }
}

/// The string of length `length` that stands at `index` among the strings of that
/// length: `index` written in base `|alphabet|`, most significant digit first, each
/// digit replaced by the symbol at that position of the alphabet.
pub open spec fn candidate(alphabet: Seq<char>, length: nat, index: nat) -> Seq<char>
    decreases length,
{
    if length == 0 {
        Seq::empty()
    } else {
        candidate(alphabet, (length - 1) as nat, index / alphabet.len()).push(
            alphabet[(index % alphabet.len()) as int],
        )
    }
}

/// A position in the enumeration: a length, and an index among the strings of it.
pub struct Cursor {
    pub length: nat,
    pub index: nat,
}

/// The position after `c`: the next index of the same length, or the first string
/// of the next length once all `n^length` strings of this one have been produced.
pub open spec fn successor(n: nat, c: Cursor) -> Cursor {
    if c.index + 1 >= power(n, c.length) {
        Cursor { length: c.length + 1, index: 0 }
    } else {
        Cursor { length: c.length, index: c.index + 1 }
    }
}

/// The position of the `k`-th string of the enumeration (counting from 0).
pub open spec fn cursor_after(n: nat, k: nat) -> Cursor
    decreases k,
{
    if k == 0 {
        Cursor { length: 1, index: 0 }
    } else {
        successor(n, cursor_after(n, (k - 1) as nat))
    }
}

/// Whether strings of `length` are allowed under the optional maximum length.
pub open spec fn within_limit(limit: Option<usize>, length: nat) -> bool {
    match limit {
        Some(m) => length <= m,
        None => true,
    }
}

/// The `k`-th element (counting from 0) of the enumeration of `alphabet` under
/// `limit`, or `None` where the sequence has ended before it.
pub open spec fn enumerated(alphabet: Seq<char>, limit: Option<usize>, k: nat) -> Option<
    Seq<char>,
> {
    let c = cursor_after(alphabet.len(), k);
    if alphabet.len() == 0 || !within_limit(limit, c.length) {
        None
    } else {
        Some(candidate(alphabet, c.length, c.index))
    }
}

/// Whether the counters of position `c` fit in machine words: the length, and the
/// number `n^length` of strings of that length.
pub open spec fn fits(n: nat, c: Cursor) -> bool {
    c.length <= usize::MAX && power(n, c.length) <= usize::MAX
}

pub proof fn lemma_power_positive(n: nat, e: nat)
    requires
        n > 0,
    ensures
        power(n, e) > 0,
    decreases e,
{
    if e > 0 {
        lemma_power_positive(n, (e - 1) as nat);
        assert(n * power(n, (e - 1) as nat) > 0) by (nonlinear_arith)
            requires
                n > 0,
                power(n, (e - 1) as nat) > 0,
        ;
    }
}

/// Every position reached holds an index below the number of strings of its length,
/// and a length of at least one.
pub proof fn lemma_cursor_in_range(n: nat, k: nat)
    requires
        n > 0,
    ensures
        cursor_after(n, k).length >= 1,
        cursor_after(n, k).index < power(n, cursor_after(n, k).length),
    decreases k,
{
    lemma_power_positive(n, 1);
    if k > 0 {
        lemma_cursor_in_range(n, (k - 1) as nat);
        lemma_power_positive(n, cursor_after(n, (k - 1) as nat).length + 1);
    }
}

/// The symbols that `chars` has yet to yield, in order.
pub fn symbols_of(chars: Chars<'_>) -> (r: Vec<char>)
    requires
        chars.decrease() is Some,
    ensures
        r@ == chars.remaining(),
{
    let ghost all = chars.remaining();
    let mut it = chars;
    let mut out: Vec<char> = Vec::new();
    loop
        invariant
            it.obeys_prophetic_iter_laws(),
            all == chars.remaining(),
            all == out@ + it.remaining(),
            it.decrease() is Some,
        decreases it.decrease()->0,
    {
        let ghost before = it.remaining();
        match it.next() {
            Some(c) => {
                out.push(c);
                assert(all == out@ + it.remaining()) by {
                    assert(before == seq![c] + it.remaining());
                }
            },
            None => {
                assert(before.len() == 0);
                assert(all =~= out@);
                return out;
            },
        }
    }
}

/// Positions only move forward: the length never shrinks.
pub proof fn lemma_length_monotone(n: nat, k: nat, j: nat)
    requires
        k <= j,
    ensures
        cursor_after(n, k).length <= cursor_after(n, j).length,
    decreases j,
{
    if j > k {
        lemma_length_monotone(n, k, (j - 1) as nat);
    }
}

pub proof fn lemma_power_monotone(n: nat, a: nat, b: nat)
    requires
        n >= 1,
        a <= b,
    ensures
        power(n, a) <= power(n, b),
    decreases b,
{
    if b > a {
        lemma_power_monotone(n, a, (b - 1) as nat);
        lemma_power_positive(n, (b - 1) as nat);
        assert(power(n, (b - 1) as nat) <= n * power(n, (b - 1) as nat)) by (nonlinear_arith)
            requires
                n >= 1,
        ;
    }
}

/// Once the enumeration has ended, it stays ended.
pub proof fn lemma_end_is_final(alphabet: Seq<char>, limit: Option<usize>, k: nat, j: nat)
    requires
        k <= j,
        enumerated(alphabet, limit, k) is None,
    ensures
        enumerated(alphabet, limit, j) is None,
{
    lemma_length_monotone(alphabet.len(), k, j);
}

/// Whether every symbol of `s` is a symbol of `alphabet`.
pub open spec fn over(alphabet: Seq<char>, s: Seq<char>) -> bool {
    forall|i: int| 0 <= i < s.len() ==> alphabet.contains(#[trigger] s[i])
}

/// The number of strings shorter than `length` (and of length at least one).
pub open spec fn start_of(n: nat, length: nat) -> nat
    decreases length,
{
    if length <= 1 {
        0
    } else {
        start_of(n, (length - 1) as nat) + power(n, (length - 1) as nat)
    }
}

/// A candidate has the length asked for, and only symbols of the alphabet.
pub proof fn lemma_candidate_shape(alphabet: Seq<char>, length: nat, index: nat)
    requires
        alphabet.len() > 0,
    ensures
        candidate(alphabet, length, index).len() == length,
        over(alphabet, candidate(alphabet, length, index)),
    decreases length,
{
    if length > 0 {
        let n = alphabet.len();
        lemma_candidate_shape(alphabet, (length - 1) as nat, index / n);
        let prefix = candidate(alphabet, (length - 1) as nat, index / n);
        let c = alphabet[(index % n) as int];
        assert(alphabet.contains(c));
        assert forall|i: int| 0 <= i < length implies alphabet.contains(
            #[trigger] candidate(alphabet, length, index)[i],
        ) by {
            if i < length - 1 {
                assert(candidate(alphabet, length, index)[i] == prefix[i]);
            }
        }
    }
}

/// Every string over the alphabet is a candidate of its length, at an index below
/// the number of strings of that length.
pub proof fn lemma_candidate_onto(alphabet: Seq<char>, s: Seq<char>)
    requires
        alphabet.len() > 0,
        over(alphabet, s),
    ensures
        exists|index: nat|
            index < power(alphabet.len(), s.len()) && #[trigger] candidate(
                alphabet,
                s.len(),
                index,
            ) == s,
    decreases s.len(),
{
    let n = alphabet.len();
    if s.len() == 0 {
        assert(candidate(alphabet, 0, 0) =~= s);
    } else {
        let prefix = s.drop_last();
        assert(over(alphabet, prefix)) by {
            assert forall|i: int| 0 <= i < prefix.len() implies alphabet.contains(
                #[trigger] prefix[i],
            ) by {
                assert(prefix[i] == s[i]);
            }
        }
        lemma_candidate_onto(alphabet, prefix);
        let q = choose|index: nat|
            index < power(n, prefix.len()) && #[trigger] candidate(
                alphabet,
                prefix.len(),
                index,
            ) == prefix;
        assert(alphabet.contains(s[s.len() - 1]));
        let d = choose|d: int| 0 <= d < n && alphabet[d] == s[s.len() - 1];
        let index = q * n + d;
        lemma_fundamental_div_mod_converse(index as int, n as int, q as int, d);
        let p = power(n, prefix.len());
        assert(q * n + d < p * n) by (nonlinear_arith)
            requires
                q < p,
                d < n,
        ;
        assert(power(n, s.len()) == n * p);
        assert(candidate(alphabet, s.len(), index as nat) =~= s);
    }
}

/// Strings of one length at different indices differ, where the alphabet repeats no
/// symbol.
pub proof fn lemma_candidate_injective(alphabet: Seq<char>, length: nat, i: nat, j: nat)
    requires
        alphabet.len() > 0,
        alphabet.no_duplicates(),
        i < power(alphabet.len(), length),
        j < power(alphabet.len(), length),
        candidate(alphabet, length, i) == candidate(alphabet, length, j),
    ensures
        i == j,
    decreases length,
{
    let n = alphabet.len();
    if length == 0 {
    } else {
        let p = power(n, (length - 1) as nat);
        let ci = candidate(alphabet, length, i);
        let cj = candidate(alphabet, length, j);
        assert(ci.last() == alphabet[(i % n) as int]);
        assert(cj.last() == alphabet[(j % n) as int]);
        assert(i % n == j % n);
        assert(ci.drop_last() =~= candidate(alphabet, (length - 1) as nat, i / n));
        assert(cj.drop_last() =~= candidate(alphabet, (length - 1) as nat, j / n));
        lemma_multiply_divide_lt(i as int, n as int, p as int);
        lemma_multiply_divide_lt(j as int, n as int, p as int);
        lemma_candidate_injective(alphabet, (length - 1) as nat, i / n, j / n);
        lemma_fundamental_div_mod(i as int, n as int);
        lemma_fundamental_div_mod(j as int, n as int);
    }
}

/// From the first string of a length, `i` steps reach index `i` of that length, and
/// `n^length` steps reach the first string of the next length.
pub proof fn lemma_walk(n: nat, k0: nat, length: nat, i: nat)
    requires
        n > 0,
        cursor_after(n, k0) == (Cursor { length, index: 0 }),
        i <= power(n, length),
    ensures
        i < power(n, length) ==> cursor_after(n, k0 + i) == (Cursor { length, index: i }),
        i == power(n, length) ==> cursor_after(n, k0 + i) == (Cursor {
            length: length + 1,
            index: 0,
        }),
    decreases i,
{
    lemma_power_positive(n, length);
    if i > 0 {
        lemma_walk(n, k0, length, (i - 1) as nat);
        assert(cursor_after(n, k0 + i) == successor(n, cursor_after(n, (k0 + i - 1) as nat)));
    }
}

/// The enumeration reaches the first string of each length after all shorter ones.
pub proof fn lemma_start(n: nat, length: nat)
    requires
        n > 0,
        length >= 1,
    ensures
        cursor_after(n, start_of(n, length)) == (Cursor { length, index: 0 }),
    decreases length,
{
    if length > 1 {
        lemma_start(n, (length - 1) as nat);
        lemma_walk(
            n,
            start_of(n, (length - 1) as nat),
            (length - 1) as nat,
            power(n, (length - 1) as nat),
        );
    }
}

/// Every string over a non-empty alphabet, of length one up to the limit, is
/// produced by the enumeration at some step.
pub proof fn lemma_enumerated_onto(alphabet: Seq<char>, limit: Option<usize>, s: Seq<char>)
    requires
        alphabet.len() > 0,
        over(alphabet, s),
        s.len() >= 1,
        within_limit(limit, s.len()),
    ensures
        exists|k: nat| #[trigger] enumerated(alphabet, limit, k) == Some(s),
{
    let n = alphabet.len();
    lemma_candidate_onto(alphabet, s);
    let index = choose|index: nat|
        index < power(n, s.len()) && #[trigger] candidate(alphabet, s.len(), index) == s;
    lemma_start(n, s.len());
    lemma_walk(n, start_of(n, s.len()), s.len(), index);
    let k = start_of(n, s.len()) + index;
    assert(enumerated(alphabet, limit, k) == Some(s));
}

/// Everything the enumeration produces is a string over the alphabet, of length one
/// up to the limit.
pub proof fn lemma_enumerated_shape(alphabet: Seq<char>, limit: Option<usize>, k: nat)
    requires
        enumerated(alphabet, limit, k) is Some,
    ensures
        over(alphabet, enumerated(alphabet, limit, k)->0),
        enumerated(alphabet, limit, k)->0.len() >= 1,
        within_limit(limit, enumerated(alphabet, limit, k)->0.len()),
{
    let c = cursor_after(alphabet.len(), k);
    lemma_cursor_in_range(alphabet.len(), k);
    lemma_candidate_shape(alphabet, c.length, c.index);
}

/// For a non-empty alphabet without repeated symbols and a length of one or more,
/// the enumeration holds a block of `|alphabet|^length` consecutive strings of that
/// length: each is over the alphabet, no two are equal, and every string of that
/// length over the alphabet is among them.
pub proof fn lemma_length_block(alphabet: Seq<char>, length: nat)
    requires
        alphabet.len() > 0,
        alphabet.no_duplicates(),
        length >= 1,
    ensures
        forall|i: nat|
            i < power(alphabet.len(), length) ==> cursor_after(
                alphabet.len(),
                #[trigger] (start_of(alphabet.len(), length) + i),
            ) == (Cursor { length, index: i }),
        forall|i: nat|
            i < power(alphabet.len(), length) ==> (#[trigger] candidate(
                alphabet,
                length,
                i,
            )).len() == length && over(alphabet, candidate(alphabet, length, i)),
        forall|i: nat, j: nat|
            i < power(alphabet.len(), length) && j < power(alphabet.len(), length)
                && #[trigger] candidate(alphabet, length, i) == #[trigger] candidate(
                alphabet,
                length,
                j,
            ) ==> i == j,
        forall|s: Seq<char>|
            over(alphabet, s) && s.len() == length ==> exists|i: nat|
                i < power(alphabet.len(), length) && #[trigger] candidate(alphabet, length, i)
                    == s,
{
    let n = alphabet.len();
    lemma_start(n, length);
    assert forall|i: nat| i < power(n, length) implies cursor_after(
        n,
        #[trigger] (start_of(n, length) + i),
    ) == (Cursor { length, index: i }) by {
        lemma_walk(n, start_of(n, length), length, i);
    }
    assert forall|i: nat| i < power(n, length) implies (#[trigger] candidate(
        alphabet,
        length,
        i,
    )).len() == length && over(alphabet, candidate(alphabet, length, i)) by {
        lemma_candidate_shape(alphabet, length, i);
    }
    assert forall|i: nat, j: nat|
        i < power(n, length) && j < power(n, length) && #[trigger] candidate(alphabet, length, i)
            == #[trigger] candidate(alphabet, length, j) implies i == j by {
        lemma_candidate_injective(alphabet, length, i, j);
    }
    assert forall|s: Seq<char>| over(alphabet, s) && s.len() == length implies exists|i: nat|
        i < power(n, length) && #[trigger] candidate(alphabet, length, i) == s by {
        lemma_candidate_onto(alphabet, s);
    }
}

/// An empty alphabet, and a maximum length of zero, each give an empty enumeration.
pub proof fn lemma_empty_enumerations(alphabet: Seq<char>, limit: Option<usize>, k: nat)
    ensures
        enumerated(Seq::<char>::empty(), limit, k) is None,
        enumerated(alphabet, Some(0usize), k) is None,
{
    if alphabet.len() > 0 {
        lemma_cursor_in_range(alphabet.len(), k);
    }
}

/// What a generator's `next` handed out, as sequences of symbols.
pub open spec fn text_of(r: Option<String>) -> Option<Seq<char>> {
    match r {
        Some(s) => Some(s@),
        None => None,
    }
}

/// Relies on String::push: it appends one character at the end.
#[verifier::external_body]
pub(crate) fn push_char(s: &mut String, c: char)
    ensures
        final(s)@ == old(s)@.push(c),
{
    s.push(c)
}

/// The string that holds the symbols of `v`, in order.
pub fn string_of(v: &Vec<char>) -> (r: String)
    ensures
        r@ == v@,
{
    let mut s = String::new();
    let mut j: usize = 0;
    while j < v.len()
        invariant
            j <= v.len(),
            s@ == v@.subrange(0, j as int),
        decreases v.len() - j,
    {
        push_char(&mut s, v[j]);
        j = j + 1;
        assert(s@ =~= v@.subrange(0, j as int));
    }
    assert(v@.subrange(0, v.len() as int) =~= v@);
    s
}

} // verus!
