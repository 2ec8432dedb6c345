use std::str::Chars;
use vstd::arithmetic::div_mod::{
    lemma_fundamental_div_mod, lemma_fundamental_div_mod_converse, lemma_mod_bound,
    lemma_multiply_divide_lt,
};
use vstd::prelude::*;
use vstd::std_specs::iter::IteratorSpec;

use crate::keyspace::{
    candidate, cursor_after, enumerated, lemma_cursor_in_range, lemma_end_is_final,
    lemma_power_positive, power, push_char, successor, symbols_of, text_of, within_limit, Cursor,
};

verus! {

/// The base-`n` digits of `index` on `length` positions, most significant first.
pub open spec fn digits_of(n: nat, length: nat, index: nat) -> Seq<usize>
    decreases length,
{
    if length == 0 {
        Seq::empty()
    } else {
        digits_of(n, (length - 1) as nat, index / n).push((index % n) as usize)
    }
}

/// `m` zero digits.
pub open spec fn zeros(m: nat) -> Seq<usize> {
    Seq::new(m, |i: int| 0usize)
}

/// The symbols that the digits `d` stand for.
pub open spec fn spell(alphabet: Seq<char>, d: Seq<usize>) -> Seq<char> {
    d.map_values(|x: usize| alphabet[x as int])
}

proof fn lemma_power_add(n: nat, a: nat, b: nat)
    ensures
        power(n, a + b) == power(n, a) * power(n, b),
    decreases b,
{
    let pa = power(n, a);
    if b == 0 {
        assert(power(n, 0) == 1);
        assert(pa * 1 == pa);
    } else {
        let pb1 = power(n, (b - 1) as nat);
        lemma_power_add(n, a, (b - 1) as nat);
        assert(power(n, (a + (b - 1)) as nat) == pa * pb1);
        assert(power(n, a + b) == n * power(n, (a + b - 1) as nat));
        assert(power(n, b) == n * pb1);
        assert(pa * (n * pb1) == n * (pa * pb1)) by (nonlinear_arith);
    }
}

proof fn lemma_spell_digits(alphabet: Seq<char>, length: nat, index: nat)
    requires
        alphabet.len() > 0,
        alphabet.len() <= usize::MAX,
    ensures
        spell(alphabet, digits_of(alphabet.len(), length, index)) == candidate(
            alphabet,
            length,
            index,
        ),
        digits_of(alphabet.len(), length, index).len() == length,
        forall|i: int|
            0 <= i < length ==> #[trigger] digits_of(alphabet.len(), length, index)[i]
                < alphabet.len(),
    decreases length,
{
    let n = alphabet.len();
    if length > 0 {
        lemma_spell_digits(alphabet, (length - 1) as nat, index / n);
        lemma_mod_bound(index as int, n as int);
        let d = digits_of(n, length, index);
        let prev = digits_of(n, (length - 1) as nat, index / n);
        assert forall|i: int| 0 <= i < length implies #[trigger] d[i] < n by {
            if i < length - 1 {
                assert(d[i] == prev[i]);
            }
        }
        assert(spell(alphabet, d) =~= candidate(alphabet, length, index));
    }
}

/// `x` shifted by `m` positions: its digits followed by `m` zeros.
proof fn lemma_digits_shift(n: nat, p: nat, m: nat, x: nat)
    requires
        n > 0,
    ensures
        digits_of(n, p + m, x * power(n, m)) == digits_of(n, p, x) + zeros(m),
    decreases m,
{
    if m == 0 {
        assert(power(n, 0) == 1);
        assert(x * 1 == x);
        assert(digits_of(n, p, x) + zeros(0) =~= digits_of(n, p, x));
    } else {
        let y = x * power(n, (m - 1) as nat);
        lemma_digits_shift(n, p, (m - 1) as nat, x);
        assert(x * power(n, m) == y * n) by (nonlinear_arith)
            requires
                power(n, m) == n * power(n, (m - 1) as nat),
                y == x * power(n, (m - 1) as nat),
        ;
        lemma_fundamental_div_mod_converse((y * n) as int, n as int, y as int, 0);
        assert(digits_of(n, p + m, x * power(n, m)) =~= (digits_of(n, p, x) + zeros(
            (m - 1) as nat,
        )).push(0usize));
        assert(digits_of(n, p, x) + zeros(m) =~= (digits_of(n, p, x) + zeros(
            (m - 1) as nat,
        )).push(0usize));
    }
}

/// Enumerates the strings over an alphabet by length, then in odometer order,
/// keeping one position in the alphabet for each symbol of the string.
pub struct AlphabetGenerator {
    limit: Option<usize>,
    alphabet: Vec<char>,
    /// For each symbol of the last string handed out, its position in the alphabet.
    iterators: Vec<usize>,
    ended: bool,
    produced: Ghost<nat>,
}

impl AlphabetGenerator {
    pub closed spec fn alphabet(&self) -> Seq<char> {
        self.alphabet@
    }

    pub closed spec fn limit(&self) -> Option<usize> {
        self.limit
    }

    /// How many strings have been handed out so far.
    pub closed spec fn produced(&self) -> nat {
        self.produced@
    }

    pub closed spec fn wf(&self) -> bool {
        let n = self.alphabet@.len();
        &&& n > 0 ==> if self.ended {
            enumerated(self.alphabet@, self.limit, self.produced@) is None
        } else if self.produced@ == 0 {
            self.iterators@.len() == 0
        } else {
            let c = cursor_after(n, (self.produced@ - 1) as nat);
            &&& self.iterators@ == digits_of(n, c.length, c.index)
            &&& within_limit(self.limit, c.length)
        }
    }

    pub fn init(chars: Chars<'_>) -> (r: Self)
        requires
            chars.decrease() is Some,
        ensures
            r.wf(),
            r.alphabet() == chars.remaining(),
            r.limit() == None::<usize>,
            r.produced() == 0,
    {
        Self {
            limit: None,
            iterators: Vec::new(),
            alphabet: symbols_of(chars),
            ended: false,
            produced: Ghost(0),
        }
    }

    pub fn with_limit(self, limit: usize) -> (r: Self)
        requires
            self.wf(),
            self.produced() == 0,
        ensures
            r.wf(),
            r.alphabet() == self.alphabet(),
            r.limit() == Some(limit),
            r.produced() == 0,
    {
        let mut s = self;
        s.limit = Some(limit);
        s.ended = false;
        s.iterators = Vec::new();
        s
    }

    /// The string that the positions stand for.
    fn build(&self) -> (r: String)
        requires
            forall|i: int|
                0 <= i < self.iterators@.len() ==> #[trigger] self.iterators@[i]
                    < self.alphabet@.len(),
        ensures
            r@ == spell(self.alphabet@, self.iterators@),
    {
        let mut s = String::new();
        let mut j: usize = 0;
        while j < self.iterators.len()
            invariant
                j <= self.iterators@.len(),
                forall|i: int|
                    0 <= i < self.iterators@.len() ==> #[trigger] self.iterators@[i]
                        < self.alphabet@.len(),
                s@ == spell(self.alphabet@, self.iterators@.subrange(0, j as int)),
            decreases self.iterators.len() - j,
        {
            push_char(&mut s, self.alphabet[self.iterators[j]]);
            j = j + 1;
            assert(s@ =~= spell(self.alphabet@, self.iterators@.subrange(0, j as int)));
        }
        assert(self.iterators@.subrange(0, j as int) =~= self.iterators@);
        s
    }

    /// The next string of the enumeration, or `None` once it has ended.
    pub fn next(&mut self) -> (r: Option<String>)
        requires
            old(self).wf(),
        ensures
            final(self).wf(),
            final(self).alphabet() == old(self).alphabet(),
            final(self).limit() == old(self).limit(),
            final(self).produced() == old(self).produced() + if r is Some {
                1nat
            } else {
                0nat
            },
            text_of(r) == enumerated(old(self).alphabet(), old(self).limit(), old(self).produced()),
    {
        if self.alphabet.len() == 0 {
            return None;
        }
        if self.ended {
            return None;
        }
        let ghost n = self.alphabet@.len();
        let ghost alpha = self.alphabet@;
        let ghost k = self.produced@;
        let ghost len = self.iterators@.len();
        let ghost last = if k > 0 {
            cursor_after(n, (k - 1) as nat)
        } else {
            Cursor { length: 0, index: 0 }
        };
        let ghost idx = last.index;
        proof {
            assert(power(n, 0) == 1);
            if k > 0 {
                lemma_cursor_in_range(n, (k - 1) as nat);
                lemma_spell_digits(alpha, last.length, last.index);
                assert(cursor_after(n, k) == successor(n, last));
            } else {
                assert(self.iterators@ =~= digits_of(n, 0, 0));
            }
            assert(self.iterators@.subrange(0, len as int) =~= self.iterators@);
            assert(self.iterators@.subrange(len as int, len as int) =~= zeros(0));
        }
        let size = self.alphabet.len();
        let mut p: usize = self.iterators.len();
        let ghost mut q: nat = idx;
        while p > 0
            invariant
                size == n,
                n > 0,
                n == alpha.len(),
                self.alphabet@ == alpha,
                alpha == old(self).alphabet@,
                k == old(self).produced@,
                self.limit == old(self).limit,
                self.produced@ == k,
                !self.ended,
                last.length == len,
                last.index == idx,
                idx < power(n, len),
                k > 0 ==> within_limit(self.limit, len),
                k == 0 ==> len == 0,
                cursor_after(n, k) == successor(n, last),
                self.iterators@.len() == len,
                p <= len,
                self.iterators@.subrange(0, p as int) == digits_of(n, p as nat, q),
                self.iterators@.subrange(p as int, len as int) == zeros((len - p) as nat),
                idx + 1 == (q + 1) * power(n, (len - p) as nat),
                q < power(n, p as nat),
            decreases p,
        {
            let ghost prefix = self.iterators@.subrange(0, p as int);
            let ghost before = self.iterators@;
            let d = self.iterators[p - 1];
            proof {
                assert(prefix[p - 1] == before[p - 1]);
                assert(digits_of(n, p as nat, q) == digits_of(n, (p - 1) as nat, q / n).push(
                    (q % n) as usize,
                ));
                lemma_mod_bound(q as int, n as int);
                lemma_fundamental_div_mod(q as int, n as int);
                assert(d as nat == q % n);
                assert(power(n, p as nat) == n * power(n, (p - 1) as nat));
                lemma_multiply_divide_lt(q as int, n as int, power(n, (p - 1) as nat) as int);
            }
            if d + 1 < size {
                self.iterators.set(p - 1, d + 1);
                proof {
                    let m = (len - p) as nat;
                    lemma_fundamental_div_mod_converse(
                        (q + 1) as int,
                        n as int,
                        (q / n) as int,
                        (d + 1) as int,
                    );
                    assert(digits_of(n, p as nat, q + 1) == digits_of(n, (p - 1) as nat, q / n).push(
                        (d + 1) as usize,
                    ));
                    assert(prefix.drop_last() =~= digits_of(n, (p - 1) as nat, q / n));
                    assert(self.iterators@.subrange(0, p as int) =~= prefix.drop_last().push(
                        (d + 1) as usize,
                    ));
                    assert(self.iterators@ =~= digits_of(n, p as nat, q + 1) + zeros(m));
                    lemma_digits_shift(n, p as nat, m, q + 1);
                    assert(self.iterators@ == digits_of(n, len, idx + 1));
                    // q + 1 stops short of n^p, so idx + 1 stops short of n^len.
                    let pp = power(n, (p - 1) as nat);
                    if q + 1 == power(n, p as nat) {
                        assert(n * pp == pp * n) by (nonlinear_arith);
                        lemma_fundamental_div_mod_converse((pp * n) as int, n as int, pp as int, 0);
                    }
                    lemma_power_add(n, p as nat, m);
                    lemma_power_positive(n, m);
                    assert((q + 1) * power(n, m) < power(n, p as nat) * power(n, m))
                        by (nonlinear_arith)
                        requires
                            q + 1 < power(n, p as nat),
                            power(n, m) > 0,
                    ;
                    assert(cursor_after(n, k) == (Cursor { length: len, index: idx + 1 }));
                    lemma_spell_digits(alpha, len, idx + 1);
                }
                self.produced = Ghost(k + 1);
                return Some(self.build());
            }
            self.iterators.set(p - 1, 0);
            proof {
                let m = (len - p) as nat;
                assert(d as nat == n - 1);
                assert(self.iterators@.subrange(0, (p - 1) as int) =~= prefix.drop_last());
                assert forall|i: int| 0 <= i < m + 1 implies #[trigger] self.iterators@.subrange(
                    (p - 1) as int,
                    len as int,
                )[i] == 0usize by {
                    if i > 0 {
                        assert(before.subrange(p as int, len as int)[i - 1] == zeros(m)[i - 1]);
                    }
                }
                assert(self.iterators@.subrange((p - 1) as int, len as int) =~= zeros(m + 1));
                assert(power(n, m + 1) == n * power(n, m));
                assert(idx + 1 == (q / n + 1) * power(n, m + 1)) by (nonlinear_arith)
                    requires
                        idx + 1 == (q + 1) * power(n, m),
                        q == n * (q / n) + (n - 1),
                        power(n, m + 1) == n * power(n, m),
                ;
            }
            proof {
                q = q / n;
            }
            p = p - 1;
        }
        proof {
            assert(power(n, 0) == 1);
            assert(q == 0);
            assert(p == 0);
            assert((q + 1) * power(n, len) == power(n, len)) by (nonlinear_arith)
                requires
                    q == 0,
            ;
            assert(idx + 1 == power(n, len));
            assert(self.iterators@ =~= zeros(len));
            assert(cursor_after(n, k) == (Cursor { length: len + 1, index: 0 }));
        }
        if let Some(limit) = self.limit {
            if limit == self.iterators.len() {
                self.ended = true;
                return None;
            }
        }
        self.iterators.insert(0, 0);
        proof {
            assert(self.iterators@ =~= zeros(len + 1));
            lemma_digits_shift(n, 0, len + 1, 0);
            assert(0 * power(n, len + 1) == 0);
            assert(digits_of(n, 0, 0) + zeros(len + 1) =~= zeros(len + 1));
            lemma_spell_digits(alpha, len + 1, 0);
        }
        self.produced = Ghost(k + 1);
        Some(self.build())
    }
}

} // verus!
