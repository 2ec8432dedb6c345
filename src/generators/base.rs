use std::str::Chars;
use vstd::prelude::*;
use vstd::std_specs::iter::IteratorSpec;

use crate::keyspace::{
    candidate, cursor_after, Cursor, enumerated, fits, lemma_cursor_in_range, power, string_of, symbols_of,
    successor, text_of,
};

verus! {

/// Enumerates the strings over an alphabet by length, then in odometer order,
/// keeping the index among the strings of the current length as one counter.
pub struct AlphabetGenerator {
    alphabet: Vec<char>,
    alphabet_size: usize,
    value: usize,
    limit: Option<usize>,
    current_length: usize,
    /// The number of strings of `current_length`.
    level: usize,
    /// Set once the counters would leave the machine's words: nothing more comes.
    capped: bool,
    produced: Ghost<nat>,
}

impl AlphabetGenerator {
    /// The symbols, in the order that makes the first one the digit zero.
    pub closed spec fn alphabet(&self) -> Seq<char> {
        self.alphabet@
    }

    /// The maximum length of a string, if any.
    pub closed spec fn limit(&self) -> Option<usize> {
        self.limit
    }

    /// How many strings have been handed out so far.
    pub closed spec fn produced(&self) -> nat {
        self.produced@
    }

    pub closed spec fn wf(&self) -> bool {
        let n = self.alphabet@.len();
        let c = cursor_after(n, self.produced@);
        &&& self.alphabet_size == n
        &&& n > 0 ==> if self.capped {
            !fits(n, c)
        } else {
            &&& self.current_length == c.length
            &&& self.value == c.index
            &&& self.level == power(n, c.length)
        }
    }

    pub fn init(chars: Chars<'_>) -> (r: Self)
        requires
            chars.decrease() is Some,
        ensures
            r.wf(),
            r.alphabet() == chars.remaining(),
            r.limit() == None::<usize>,
            r.produced() == 0,
    {
        let alphabet = symbols_of(chars);
        let alphabet_size = alphabet.len();
        let r = Self {
            value: 0,
            alphabet_size,
            alphabet,
            limit: None,
            current_length: 1,
            level: alphabet_size,
            capped: false,
            produced: Ghost(0),
        };
        assert(power(alphabet_size as nat, 0) == 1);
        assert(power(alphabet_size as nat, 1) == alphabet_size * power(alphabet_size as nat, 0));
        assert(cursor_after(alphabet_size as nat, 0) == Cursor { length: 1, index: 0 });
        r
    }

    pub fn with_limit(self, limit: usize) -> (r: Self)
        requires
            self.wf(),
        ensures
            r.wf(),
            r.alphabet() == self.alphabet(),
            r.limit() == Some(limit),
            r.produced() == self.produced(),
    {
        let mut s = self;
        s.limit = Some(limit);
        s
    }

    /// The next string of the enumeration, or `None` once it has ended.
    pub fn next(&mut self) -> (r: Option<String>)
        requires
            old(self).wf(),
        ensures
            final(self).wf(),
            final(self).alphabet() == old(self).alphabet(),
            final(self).limit() == old(self).limit(),
            final(self).produced() == old(self).produced() + if r is Some {
                1nat
            } else {
                0nat
            },
            r is Some ==> text_of(r) == enumerated(
                old(self).alphabet(),
                old(self).limit(),
                old(self).produced(),
            ),
            fits(old(self).alphabet().len(), cursor_after(old(self).alphabet().len(), old(self).produced()))
                ==> text_of(r) == enumerated(
                old(self).alphabet(),
                old(self).limit(),
                old(self).produced(),
            ),
            r is None ==> *final(self) == *old(self),
    {
        if self.alphabet_size == 0 {
            return None;
        }
        if let Some(limit) = self.limit {
            if self.current_length > limit {
                return None;
            }
        }
        if self.capped {
            return None;
        }
        let ghost n = self.alphabet@.len();
        let ghost c = cursor_after(n, self.produced@);
        proof {
            lemma_cursor_in_range(n, self.produced@);
        }
        let size = self.alphabet_size;
        let length = self.current_length;
        let mut digits: Vec<char> = vec![self.alphabet[0]; length];
        let mut tmp: usize = self.value;
        let mut i: usize = 0;
        while i < length
            invariant
                size == n,
                n > 0,
                self.alphabet@.len() == n,
                i <= length,
                digits@.len() == length,
                candidate(self.alphabet@, length as nat, self.value as nat) == candidate(
                    self.alphabet@,
                    (length - i) as nat,
                    tmp as nat,
                ) + digits@.subrange(length - i, length as int),
            decreases length - i,
        {
            let m: usize = length - i;
            let d = tmp % size;
            let ghost before = digits@;
            digits.set(m - 1, self.alphabet[d]);
            assert(digits@.subrange(m - 1, length as int) =~= seq![self.alphabet@[d as int]]
                + before.subrange(m as int, length as int));
            assert(candidate(self.alphabet@, m as nat, tmp as nat) == candidate(
                self.alphabet@,
                (m - 1) as nat,
                (tmp / size) as nat,
            ).push(self.alphabet@[d as int]));
            tmp = tmp / size;
            i = i + 1;
            assert(candidate(self.alphabet@, length as nat, self.value as nat) =~= candidate(
                self.alphabet@,
                (length - i) as nat,
                tmp as nat,
            ) + digits@.subrange(length - i, length as int));
        }
        assert(digits@.subrange(0, length as int) =~= digits@);
        let result = string_of(&digits);

        self.produced = Ghost(self.produced@ + 1);
        proof {
            assert(cursor_after(n, self.produced@) == successor(n, c));
        }
        if self.value + 1 == self.level {
            self.value = 0;
            if self.current_length == usize::MAX {
                self.capped = true;
            } else {
                self.current_length = self.current_length + 1;
                match self.level.checked_mul(size) {
                    Some(l) => {
                        self.level = l;
                        assert(power(n, c.length + 1) == n * power(n, c.length));
                    },
                    None => {
                        self.capped = true;
                        assert(power(n, c.length + 1) == n * power(n, c.length));
                    },
                }
            }
        } else {
            self.value = self.value + 1;
        }
        Some(result)
    }
}

} // verus!
