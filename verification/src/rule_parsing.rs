//! The compact textual encoding of a rule: one token holding a direction
//! letter (`L`, `S` or `R`), the symbol to write, and the next state in
//! decimal, e.g. `Ra0` for "write `a`, move right, halt".

use vstd::prelude::*;
use vstd::string::*;
use crate::errors::IncorrectRuleError;
use crate::rules::{Direction, Rule};

verus! {

/// The direction a leading letter encodes, if any.
pub open spec fn direction_of_char(c: char) -> Option<Direction> {
    if c == 'L' {
        Some(Direction::Left)
    } else if c == 'S' {
        Some(Direction::Stay)
    } else if c == 'R' {
        Some(Direction::Right)
    } else {
        None
    }
}

/// Whether `c` is a decimal digit.
pub open spec fn is_ascii_digit(c: char) -> bool {
    48 <= c as u32 && c as u32 <= 57
}

/// The numeric value of a decimal digit.
pub open spec fn digit_value(c: char) -> int {
    c as u32 - 48
}

/// Whether every character of `s` is a decimal digit.
pub open spec fn all_digits(s: Seq<char>) -> bool {
    forall|i: int| 0 <= i < s.len() ==> is_ascii_digit(#[trigger] s[i])
}

/// The number a string of decimal digits denotes, most significant digit
/// first.
pub open spec fn digits_value(s: Seq<char>) -> int
    decreases s.len(),
{
    if s.len() == 0 {
        0
    } else {
        digits_value(s.drop_last()) * 10 + digit_value(s.last())
    }
}

/// The rule a token denotes: a valid direction letter, then the symbol to
/// write, then at least one decimal digit whose value fits the state type.
/// Any other shape denotes nothing.
pub open spec fn parse_rule_token(s: Seq<char>) -> Option<Rule> {
    if s.len() >= 3 && direction_of_char(s[0]) is Some && all_digits(s.subrange(2, s.len() as int))
        && digits_value(s.subrange(2, s.len() as int)) <= usize::MAX {
        Some(
            Rule {
                direction: direction_of_char(s[0]).unwrap(),
                value: s[1],
                state: digits_value(s.subrange(2, s.len() as int)) as usize,
            },
        )
    } else {
        None
    }
}

/// A digit string denotes a non-negative number.
proof fn lemma_digits_value_nonneg(s: Seq<char>)
    requires
        all_digits(s),
    ensures
        digits_value(s) >= 0,
    decreases s.len(),
{
    if s.len() > 0 {
        assert(all_digits(s.drop_last())) by {
            assert(forall|i: int| 0 <= i < s.len() - 1 ==> s.drop_last()[i] == s[i]);
        }
        lemma_digits_value_nonneg(s.drop_last());
        assert(is_ascii_digit(s.last()));
    }
}

/// Dropping trailing digits never increases the denoted number.
proof fn lemma_digits_value_prefix(s: Seq<char>, k: int)
    requires
        all_digits(s),
        0 <= k <= s.len(),
    ensures
        digits_value(s.subrange(0, k)) <= digits_value(s),
    decreases s.len() - k,
{
    if k == s.len() {
        assert(s.subrange(0, k) =~= s);
    } else {
        lemma_digits_value_prefix_step(s, k);
        lemma_digits_value_prefix(s, k + 1);
    }
}

/// Helper: extending a digit prefix by one digit never decreases its value.
proof fn lemma_digits_value_prefix_step(s: Seq<char>, k: int)
    requires
        all_digits(s),
        0 <= k < s.len(),
    ensures
        digits_value(s.subrange(0, k)) <= digits_value(s.subrange(0, k + 1)),
{
    let t = s.subrange(0, k + 1);
    assert(t.drop_last() =~= s.subrange(0, k));
    assert(all_digits(t.drop_last())) by {
        assert(forall|i: int| 0 <= i < t.len() - 1 ==> t.drop_last()[i] == s[i]);
    }
    lemma_digits_value_nonneg(t.drop_last());
    assert(is_ascii_digit(t.last()));
}

impl Rule {
    /// Parses the compact textual rule encoding.  The token must hold a
    /// direction letter (`L`, `S` or `R`), then the symbol the rule writes,
    /// then the next state as one or more decimal digits; anything else is
    /// reported as an `IncorrectRuleError` carrying the token.
    pub fn from_str(s: &str) -> (r: Result<Rule, IncorrectRuleError>)
        ensures
            match r {
                Ok(rule) => parse_rule_token(s@) == Some(rule),
                Err(e) => parse_rule_token(s@) is None && e.rule@ == s@,
            },
    {
        let n = s.unicode_len();
        if n < 3 {
            return Err(IncorrectRuleError::new(String::from_str(s)));
        }
        let d = s.get_char(0);
        let direction = if d == 'L' {
            Direction::Left
        } else if d == 'S' {
            Direction::Stay
        } else if d == 'R' {
            Direction::Right
        } else {
            return Err(IncorrectRuleError::new(String::from_str(s)));
        };
        let value = s.get_char(1);
        let mut state: usize = 0;
        let mut i: usize = 2;
        while i < n
            invariant
                2 <= i <= n,
                n == s@.len(),
                all_digits(s@.subrange(2, i as int)),
                state == digits_value(s@.subrange(2, i as int)),
            decreases n - i,
        {
            let c = s.get_char(i);
            let u = c as u32;
            if u < 48 || u > 57 {
                proof {
                    assert(!is_ascii_digit(s@.subrange(2, n as int)[i - 2]));
                }
                return Err(IncorrectRuleError::new(String::from_str(s)));
            }
            let digit = (u - 48) as usize;
            if state > usize::MAX / 10 || (state == usize::MAX / 10 && digit > usize::MAX % 10) {
                proof {
                    let whole = s@.subrange(2, n as int);
                    let t = s@.subrange(2, i + 1);
                    assert(t.drop_last() =~= s@.subrange(2, i as int));
                    assert(t.last() == s@[i as int]);
                    assert(digits_value(t) == state * 10 + digit_value(s@[i as int]));
                    assert(state * 10 + digit > usize::MAX);
                    if all_digits(whole) {
                        assert(t =~= whole.subrange(0, i - 1));
                        lemma_digits_value_prefix(whole, i - 1);
                        assert(digits_value(whole) > usize::MAX);
                    }
                }
                return Err(IncorrectRuleError::new(String::from_str(s)));
            }
            proof {
                assert(state * 10 + digit <= usize::MAX);
                let t = s@.subrange(2, i + 1);
                assert(t.drop_last() =~= s@.subrange(2, i as int));
                assert(t.last() == s@[i as int]);
                assert(is_ascii_digit(s@[i as int]));
                assert(all_digits(t)) by {
                    assert(forall|k: int| 0 <= k < t.len() - 1 ==> t[k] == t.drop_last()[k]);
                }
            }
            state = state * 10 + digit;
            i = i + 1;
        }
        proof {
            assert(s@.subrange(2, i as int) =~= s@.subrange(2, n as int));
        }
        Ok(Rule { direction, value, state })
    }
}

} // verus!
