//! Character-level text primitives for the level format: separator
//! splitting and decimal parsing, specified over sequences of characters.
//!
//! Splitting is plain: the text is cut at every occurrence of the separator,
//! so a trailing separator produces a trailing empty segment.

use vstd::arithmetic::div_mod::lemma_fundamental_div_mod;
use vstd::prelude::*;
use vstd::string::StrSliceExecFns;

verus! {

/// The segments of `s` delimited by `sep`: always at least one segment, and
/// one more segment than there are separators.
pub open spec fn split_on(s: Seq<char>, sep: char) -> Seq<Seq<char>>
    decreases s.len(),
{
    if s.len() == 0 {
        seq![Seq::empty()]
    } else if s[0] == sep {
        seq![Seq::<char>::empty()] + split_on(s.skip(1), sep)
    } else {
        let rest = split_on(s.skip(1), sep);
        seq![seq![s[0]] + rest[0]] + rest.skip(1)
    }
}

/// The first segment of a split is a prefix of the text.
pub proof fn lemma_split_first_prefix(s: Seq<char>, sep: char)
    ensures
        split_on(s, sep).len() >= 1,
        split_on(s, sep)[0].len() <= s.len(),
        split_on(s, sep)[0] == s.take(split_on(s, sep)[0].len() as int),
    decreases s.len(),
{
    if s.len() == 0 {
        assert(split_on(s, sep)[0] =~= s.take(0));
    } else if s[0] == sep {
        assert(split_on(s, sep)[0] =~= s.take(0));
    } else {
        lemma_split_first_prefix(s.skip(1), sep);
        let f = split_on(s.skip(1), sep)[0];
        let first = split_on(s, sep)[0];
        assert(first =~= seq![s[0]] + f);
        assert(f == s.skip(1).take(f.len() as int));
        assert(first =~= s.take(first.len() as int));
    }
}

/// Converts a string slice to the vector of its characters.
pub fn str_to_chars(s: &str) -> (r: Vec<char>)
    ensures
        r@ == s@,
{
    let n = s.unicode_len();
    let mut r: Vec<char> = Vec::new();
    let mut i: usize = 0;
    while i < n
        invariant
            0 <= i <= n,
            n == s@.len(),
            r@ == s@.take(i as int),
        decreases n - i,
    {
        r.push(s.get_char(i));
        proof {
            assert(r@ =~= s@.take(i + 1));
        }
        i += 1;
    }
    proof {
        assert(s@.take(n as int) =~= s@);
    }
    r
}

/// Splits a character vector at every occurrence of `sep`. The result holds
/// one vector per segment of the specification-level split.
pub fn split_chars(v: &Vec<char>, sep: char) -> (r: Vec<Vec<char>>)
    ensures
        r@.len() == split_on(v@, sep).len(),
        forall|k: int| 0 <= k < r@.len() ==> (#[trigger] r@[k])@ == split_on(v@, sep)[k],
        r@.len() >= 1,
{
    let ghost s = v@;
    let mut result: Vec<Vec<char>> = Vec::new();
    let ghost mut done: Seq<Seq<char>> = Seq::empty();
    let mut cur: Vec<char> = Vec::new();
    let mut pos: usize = 0;
    proof {
        assert(s.skip(0) =~= s);
        let rem = split_on(s, sep);
        assert(split_on(s, sep) =~= done + seq![cur@ + rem[0]] + rem.skip(1)) by {
            lemma_split_first_prefix(s, sep);
            assert(cur@ + rem[0] =~= rem[0]);
            assert(done + seq![rem[0]] + rem.skip(1) =~= seq![rem[0]] + rem.skip(1));
            assert(seq![rem[0]] + rem.skip(1) =~= rem);
        }
    }
    while pos < v.len()
        invariant
            0 <= pos <= v@.len(),
            s == v@,
            result@.len() == done.len(),
            forall|k: int| 0 <= k < done.len() ==> (#[trigger] result@[k])@ == done[k],
            split_on(s, sep) == done + seq![cur@ + split_on(s.skip(pos as int), sep)[0]]
                + split_on(s.skip(pos as int), sep).skip(1),
        decreases v@.len() - pos,
    {
        let c = v[pos];
        proof {
            assert(s.skip(pos as int)[0] == s[pos as int]);
            assert(s.skip(pos as int).skip(1) =~= s.skip(pos as int + 1));
        }
        let ghost rem = split_on(s.skip(pos as int), sep);
        let ghost rem2 = split_on(s.skip(pos as int + 1), sep);
        if c == sep {
            proof {
                assert(rem =~= seq![Seq::<char>::empty()] + rem2);
                assert(rem[0] =~= Seq::<char>::empty());
                assert(rem.skip(1) =~= rem2);
            }
            let done_token = cur;
            cur = Vec::new();
            result.push(done_token);
            proof {
                let prev = done;
                done = done.push(done_token@);
                assert(rem2.len() >= 1) by {
                    lemma_split_first_prefix(s.skip(pos as int + 1), sep);
                }
                assert(split_on(s, sep) =~= done + seq![cur@ + rem2[0]] + rem2.skip(1)) by {
                    assert(prev + seq![done_token@ + rem[0]] + rem.skip(1) =~= done + rem2);
                    assert(cur@ + rem2[0] =~= rem2[0]);
                    assert(done + seq![rem2[0]] + rem2.skip(1) =~= done + rem2);
                }
            }
        } else {
            proof {
                assert(rem =~= seq![seq![c] + rem2[0]] + rem2.skip(1));
                assert(rem[0] =~= seq![c] + rem2[0]);
                assert(rem.skip(1) =~= rem2.skip(1));
                assert(cur@.push(c) + rem2[0] =~= cur@ + rem[0]);
            }
            cur.push(c);
        }
        pos += 1;
    }
    proof {
        assert(s.skip(s.len() as int) =~= Seq::<char>::empty());
        let rem = split_on(s.skip(s.len() as int), sep);
        assert(rem =~= seq![Seq::<char>::empty()]);
        assert(cur@ + rem[0] =~= cur@);
        assert(rem.skip(1) =~= Seq::<Seq<char>>::empty());
        assert(split_on(s, sep) =~= done + seq![cur@]);
    }
    result.push(cur);
    proof {
        done = done.push(cur@);
        assert(done =~= split_on(s, sep));
    }
    result
}

/// True for a decimal digit.
pub open spec fn is_digit(c: char) -> bool {
    '0' <= c <= '9'
}

/// The value of a decimal digit.
pub open spec fn digit_val(c: char) -> int {
    c as int - '0' as int
}

/// True when every character of `s` is a decimal digit.
pub open spec fn all_digits(s: Seq<char>) -> bool {
    forall|i: int| 0 <= i < s.len() ==> is_digit(#[trigger] s[i])
}

/// The value of `s` read as a decimal numeral.
pub open spec fn digits_val(s: Seq<char>) -> int
    decreases s.len(),
{
    if s.len() == 0 {
        0
    } else {
        digits_val(s.drop_last()) * 10 + digit_val(s.last())
    }
}

/// The parse of `s` as a decimal u64: defined exactly when `s` is a
/// non-empty string of digits whose value fits.
pub open spec fn spec_parse_u64(s: Seq<char>) -> Option<u64> {
    if s.len() > 0 && all_digits(s) && digits_val(s) <= u64::MAX {
        Some(digits_val(s) as u64)
    } else {
        None
    }
}

/// A numeral made of digits has a non-negative value.
pub proof fn lemma_digits_val_nonneg(s: Seq<char>)
    requires
        all_digits(s),
    ensures
        digits_val(s) >= 0,
    decreases s.len(),
{
    if s.len() > 0 {
        assert(all_digits(s.drop_last())) by {
            assert(forall|j: int|
                0 <= j < s.len() - 1 ==> #[trigger] s.drop_last()[j] == s[j]);
        }
        lemma_digits_val_nonneg(s.drop_last());
    }
}

/// A prefix of a numeral is worth no more than the whole numeral.
pub proof fn lemma_digits_val_prefix_le(s: Seq<char>, i: int)
    requires
        all_digits(s),
        0 <= i <= s.len(),
    ensures
        digits_val(s.take(i)) <= digits_val(s),
    decreases s.len() - i,
{
    if i < s.len() {
        assert(s.take(i + 1).drop_last() =~= s.take(i));
        assert(all_digits(s.take(i))) by {
            assert(forall|j: int| 0 <= j < i ==> #[trigger] s.take(i)[j] == s[j]);
        }
        lemma_digits_val_nonneg(s.take(i));
        assert(digits_val(s.take(i + 1)) == digits_val(s.take(i)) * 10 + digit_val(s[i]));
        lemma_digits_val_prefix_le(s, i + 1);
    } else {
        assert(s.take(i) =~= s);
    }
}

/// Parses a non-empty string of decimal digits as a u64, rejecting any other
/// character and any value that does not fit.
pub fn parse_u64(t: &Vec<char>) -> (r: Option<u64>)
    ensures
        r == spec_parse_u64(t@),
{
    if t.len() == 0 {
        return None;
    }
    let mut val: u64 = 0;
    let mut i: usize = 0;
    while i < t.len()
        invariant
            0 <= i <= t@.len(),
            t@.len() > 0,
            forall|j: int| 0 <= j < i ==> is_digit(#[trigger] t@[j]),
            val == digits_val(t@.take(i as int)),
        decreases t@.len() - i,
    {
        let c = t[i];
        if c < '0' || c > '9' {
            return None;
        }
        let d: u64 = (c as u32 - '0' as u32) as u64;
        proof {
            assert(t@.take(i + 1).drop_last() =~= t@.take(i as int));
            assert(digits_val(t@.take(i + 1)) == val * 10 + d);
        }
        if val > (u64::MAX - d) / 10 {
            proof {
                lemma_fundamental_div_mod((u64::MAX - d) as int, 10);
                assert(val * 10 + d > u64::MAX);
                if all_digits(t@) {
                    lemma_digits_val_prefix_le(t@, i + 1);
                }
            }
            return None;
        }
        proof {
            lemma_fundamental_div_mod((u64::MAX - d) as int, 10);
            assert(val * 10 + d <= u64::MAX);
        }
        val = val * 10 + d;
        i += 1;
    }
    proof {
        assert(t@.take(t@.len() as int) =~= t@);
    }
    Some(val)
}

} // verus!
