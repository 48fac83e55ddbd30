//! Decimal-separator conventions and the normalisation of amounts.

use vstd::prelude::*;
use vstd::string::*;

verus! {

/// How a bank writes the decimal mark of an amount.
#[derive(Debug, Clone, Copy)]
pub enum DecimalSeparator {
    /// `1,234.56`: a period marks the decimals, commas group thousands.
    Period,
    /// `1.234,56`: a comma marks the decimals, periods group thousands.
    Comma,
}

/// Characters of a canonical amount: ASCII digits and a leading sign.
pub open spec fn is_digit_or_sign(c: char) -> bool {
    ('0' <= c && c <= '9') || c == '-' || c == '+'
}

/// The test for the characters that carry an amount's value.
pub open spec fn digits_and_signs() -> spec_fn(char) -> bool {
    |c: char| is_digit_or_sign(c)
}

impl DecimalSeparator {
    /// The character that groups thousands under this convention.
    pub open spec fn grouping_mark(self) -> char {
        match self {
            DecimalSeparator::Period => ',',
            DecimalSeparator::Comma => '.',
        }
    }

    /// The character that separates the decimals under this convention.
    pub open spec fn decimal_mark(self) -> char {
        match self {
            DecimalSeparator::Period => '.',
            DecimalSeparator::Comma => ',',
        }
    }

    /// The amount `s` with every grouping mark removed and every decimal
    /// mark written as a period.
    pub open spec fn simplified(self, s: Seq<char>) -> Seq<char> {
        s.filter(|c: char| c != self.grouping_mark()).map_values(
            |c: char|
                if c == self.decimal_mark() {
                    '.'
                } else {
                    c
                },
        )
    }

    /// An amount written under this convention: digits, a sign, grouping
    /// marks and decimal marks only.
    pub open spec fn is_amount(self, s: Seq<char>) -> bool {
        forall|i: int|
            0 <= i < s.len() ==> is_digit_or_sign(#[trigger] s[i]) || s[i] == self.grouping_mark()
                || s[i] == self.decimal_mark()
    }

    /// Simplifying one more character extends the simplified prefix by that
    /// character's image, or leaves it alone for a grouping mark.
    pub proof fn lemma_simplified_push(self, s: Seq<char>, c: char)
        ensures
            self.simplified(s.push(c)) == if c == self.grouping_mark() {
                self.simplified(s)
            } else if c == self.decimal_mark() {
                self.simplified(s).push('.')
            } else {
                self.simplified(s).push(c)
            },
    {
        let keep = |c: char| c != self.grouping_mark();
        reveal(Seq::filter);
        assert(s.push(c).drop_last() =~= s);
        assert(s.push(c).filter(keep) == if keep(c) {
            s.filter(keep).push(c)
        } else {
            s.filter(keep)
        });
        if c == self.grouping_mark() {
        } else if c == self.decimal_mark() {
            assert(self.simplified(s.push(c)) =~= self.simplified(s).push('.'));
        } else {
            assert(self.simplified(s.push(c)) =~= self.simplified(s).push(c));
        }
    }

    /// Removes the grouping marks of `s` and writes its decimal mark as a
    /// period.
    pub fn simplify(&self, s: &str) -> (out: String)
        ensures
            out@ == self.simplified(s@),
    {
        let (group, decimal) = match self {
            DecimalSeparator::Period => (',', '.'),
            DecimalSeparator::Comma => ('.', ','),
        };
        let n: usize = s.unicode_len();
        let mut out = String::new();
        let mut i: usize = 0;
        proof {
            assert(s@.subrange(0, 0) =~= Seq::<char>::empty());
            reveal(Seq::filter);
            assert(self.simplified(Seq::<char>::empty()) =~= Seq::<char>::empty());
        }
        while i < n
            invariant
                i <= n,
                n == s@.len(),
                group == self.grouping_mark(),
                decimal == self.decimal_mark(),
                out@ == self.simplified(s@.subrange(0, i as int)),
            decreases n - i,
        {
            let c = s.get_char(i);
            proof {
                self.lemma_simplified_push(s@.subrange(0, i as int), c);
                assert(s@.subrange(0, i as int).push(c) =~= s@.subrange(0, i + 1));
                reveal_strlit(".");
                assert("."@ =~= seq!['.']);
                assert(s@.subrange(i as int, i + 1) =~= seq![c]);
            }
            if c == group {
            } else if c == decimal {
                out.append(".");
                assert(out@ =~= self.simplified(s@.subrange(0, i as int)).push('.'));
            } else {
                out.append(s.substring_char(i, i + 1));
                assert(out@ =~= self.simplified(s@.subrange(0, i as int)).push(c));
            }
            i += 1;
        }
        proof {
            assert(s@.subrange(0, n as int) =~= s@);
        }
        out
    }

    /// Simplifying keeps the digits and signs of a text, in their order.
    pub proof fn lemma_simplify_keeps_digits(self, s: Seq<char>)
        ensures
            self.simplified(s).filter(digits_and_signs()) == s.filter(digits_and_signs()),
        decreases s.len(),
    {
        reveal(Seq::filter);
        if s.len() == 0 {
            assert(self.simplified(s) =~= Seq::<char>::empty());
        } else {
            let head = s.drop_last();
            let c = s.last();
            assert(head.push(c) =~= s);
            self.lemma_simplify_keeps_digits(head);
            self.lemma_simplified_push(head, c);
            let out = self.simplified(head);
            if c != self.grouping_mark() {
                let d = if c == self.decimal_mark() {
                    '.'
                } else {
                    c
                };
                assert(out.push(d).drop_last() =~= out);
                assert(digits_and_signs()(d) == digits_and_signs()(c));
            }
        }
    }

    /// Simplifying an amount written under either convention gives a
    /// canonical numeral: digits, a sign and periods only, with no grouping
    /// mark left, and simplifying it again under the period convention
    /// changes nothing.
    pub proof fn lemma_simplify_canonical(self, s: Seq<char>)
        requires
            self.is_amount(s),
        ensures
            forall|i: int|
                0 <= i < self.simplified(s).len() ==> is_digit_or_sign(
                    #[trigger] self.simplified(s)[i],
                ) || self.simplified(s)[i] == '.',
            !self.simplified(s).contains(','),
            DecimalSeparator::Period.simplified(self.simplified(s)) == self.simplified(s),
        decreases s.len(),
    {
        reveal(Seq::filter);
        if s.len() == 0 {
            assert(self.simplified(s) =~= Seq::<char>::empty());
            assert(DecimalSeparator::Period.simplified(Seq::<char>::empty()) =~= Seq::<
                char,
            >::empty());
        } else {
            let head = s.drop_last();
            let c = s.last();
            assert(head.push(c) =~= s);
            assert(self.is_amount(head)) by {
                assert forall|i: int| 0 <= i < head.len() implies is_digit_or_sign(
                    #[trigger] head[i],
                ) || head[i] == self.grouping_mark() || head[i] == self.decimal_mark() by {
                    assert(head[i] == s[i]);
                }
            }
            self.lemma_simplify_canonical(head);
            self.lemma_simplified_push(head, c);
            let out = self.simplified(head);
            if c != self.grouping_mark() {
                let d = if c == self.decimal_mark() {
                    '.'
                } else {
                    c
                };
                assert(s[s.len() - 1] == c);
                assert(self.simplified(s) == out.push(d));
                DecimalSeparator::Period.lemma_simplified_push(out, d);
                assert(is_digit_or_sign(d) || d == '.');
                assert(d != ',');
                assert forall|i: int| 0 <= i < out.push(d).len() implies is_digit_or_sign(
                    #[trigger] out.push(d)[i],
                ) || out.push(d)[i] == '.' by {
                    if i < out.len() {
                        assert(out.push(d)[i] == out[i]);
                    }
                }
                if out.push(d).contains(',') {
                    let j = choose|j: int| 0 <= j < out.push(d).len() && out.push(d)[j] == ',';
                    if j < out.len() {
                        assert(out[j] == ',');
                        assert(out.contains(','));
                    }
                }
            }
        }
    }
}

} // verus!
