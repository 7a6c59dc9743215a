//! Dense, reusable 64-bit identifiers and their decimal string form.
//!
//! An identifier round-trips losslessly through its decimal representation;
//! the round trip is proved below ([`lemma_dec_round_trip`],
//! [`parse_u64_dec`]).

use vstd::prelude::*;

verus! {

/// Why a string failed to parse as an identifier.
#[derive(Debug, PartialEq, Eq)]
pub enum IDError {
    FromStr { s: String },
}

/// A dense unsigned identifier, issued by the allocator.
#[derive(Debug, Clone, Copy, Hash, PartialEq, Eq, PartialOrd, Ord, Structural)]
pub struct ID(pub u64);

impl ID {
    pub fn new(v: u64) -> (r: Self)
        ensures
            r == ID(v),
    {
        ID(v)
    }

    pub fn value(&self) -> (r: u64)
        ensures
            r == self.0,
    {
        self.0
    }

    /// The identifier's decimal string form.
    pub fn to_dec_string(&self) -> (r: String)
        ensures
            r@ == spec_dec_digits(self.0 as nat),
    {
        u64_to_dec_string(self.0)
    }
}

/// The decimal digit character for a value below ten.
pub open spec fn spec_digit_char(d: int) -> char {
    if d == 0 {
        '0'
    } else if d == 1 {
        '1'
    } else if d == 2 {
        '2'
    } else if d == 3 {
        '3'
    } else if d == 4 {
        '4'
    } else if d == 5 {
        '5'
    } else if d == 6 {
        '6'
    } else if d == 7 {
        '7'
    } else if d == 8 {
        '8'
    } else {
        '9'
    }
}

/// The decimal digit characters of `n`, most significant first, with no
/// leading zeros (a single `'0'` for zero).
pub open spec fn spec_dec_digits(n: nat) -> Seq<char>
    decreases n,
{
    if n < 10 {
        seq![spec_digit_char(n as int)]
    } else {
        spec_dec_digits(n / 10).push(spec_digit_char((n % 10) as int))
    }
}

pub open spec fn spec_is_digit(c: char) -> bool {
    48 <= c as int <= 57
}

pub open spec fn spec_digit_val(c: char) -> int {
    c as int - 48
}

pub open spec fn spec_all_digits(s: Seq<char>) -> bool {
    forall|i: int| 0 <= i < s.len() ==> spec_is_digit(#[trigger] s[i])
}

/// The numeric value of a digit string (meaningful when `spec_all_digits`
/// holds).
pub open spec fn spec_dec_value(s: Seq<char>) -> int
    decreases s.len(),
{
    if s.len() == 0 {
        0
    } else {
        spec_dec_value(s.drop_last()) * 10 + spec_digit_val(s.last())
    }
}

/// A string parses as a `u64` when it is a nonempty run of digits whose value
/// fits.
pub open spec fn spec_parses_as_u64(s: Seq<char>) -> bool {
    s.len() > 0 && spec_all_digits(s) && spec_dec_value(s) <= u64::MAX
}

fn digit_to_str(d: u64) -> (r: &'static str)
    requires
        d < 10,
    ensures
        r@ =~= seq![spec_digit_char(d as int)],
{
    proof {
        reveal_strlit("0");
        reveal_strlit("1");
        reveal_strlit("2");
        reveal_strlit("3");
        reveal_strlit("4");
        reveal_strlit("5");
        reveal_strlit("6");
        reveal_strlit("7");
        reveal_strlit("8");
        reveal_strlit("9");
    }
    match d {
        0 => "0",
        1 => "1",
        2 => "2",
        3 => "3",
        4 => "4",
        5 => "5",
        6 => "6",
        7 => "7",
        8 => "8",
        _ => "9",
    }
}

/// Renders `n` in decimal, matching `spec_dec_digits`.
pub fn u64_to_dec_string(n: u64) -> (r: String)
    ensures
        r@ == spec_dec_digits(n as nat),
    decreases n,
{
    if n < 10 {
        let mut s = String::new();
        s.append(digit_to_str(n));
        assert(s@ =~= spec_dec_digits(n as nat));
        s
    } else {
        let mut s = u64_to_dec_string(n / 10);
        s.append(digit_to_str(n % 10));
        assert(s@ =~= spec_dec_digits(n as nat));
        s
    }
}

/// Values of longer digit prefixes only grow.
proof fn lemma_dec_value_step(s: Seq<char>, i: int)
    requires
        spec_all_digits(s.take(i + 1)),
        0 <= i < s.len(),
    ensures
        spec_dec_value(s.take(i + 1)) == spec_dec_value(s.take(i)) * 10 + spec_digit_val(s[i]),
        spec_dec_value(s.take(i)) >= 0,
    decreases i,
{
    assert(s.take(i + 1).drop_last() =~= s.take(i));
    assert(s.take(i + 1).last() == s[i]);
    if i > 0 {
        assert(spec_all_digits(s.take(i))) by {
            assert(forall|j: int| 0 <= j < i ==> s.take(i)[j] == s.take(i + 1)[j]);
        }
        lemma_dec_value_step(s, i - 1);
    } else {
        assert(s.take(0).len() == 0);
    }
}

/// Parses a nonempty run of decimal digits as a `u64`; fails exactly on
/// strings that are empty, hold a non-digit, or overflow.
pub fn parse_u64_dec(s: &str) -> (r: Result<u64, IDError>)
    ensures
        match r {
            Ok(v) => spec_parses_as_u64(s@) && v == spec_dec_value(s@),
            Err(_) => !spec_parses_as_u64(s@),
        },
{
    let n = s.unicode_len();
    if n == 0 {
        return Err(IDError::FromStr { s: s.to_owned() });
    }
    let mut value: u64 = 0;
    let mut i: usize = 0;
    while i < n
        invariant
            0 <= i <= n,
            n == s@.len(),
            spec_all_digits(s@.take(i as int)),
            value == spec_dec_value(s@.take(i as int)),
        decreases n - i,
    {
        let c = s.get_char(i);
        let cu = c as u32;
        if cu < 48 || cu > 57 {
            assert(!spec_is_digit(s@[i as int]));
            return Err(IDError::FromStr { s: s.to_owned() });
        }
        assert(spec_all_digits(s@.take(i as int + 1))) by {
            assert(forall|j: int| 0 <= j < i ==> s@.take(i as int + 1)[j] == s@.take(
                i as int,
            )[j]);
            assert(s@.take(i as int + 1)[i as int] == s@[i as int]);
        }
        let d = (cu - 48) as u64;
        let shifted = match value.checked_mul(10) {
            Some(sh) => sh,
            None => {
                proof {
                    if spec_all_digits(s@) {
                        assert(spec_all_digits(s@.take(i as int + 1))) by {
                            assert(forall|j: int|
                                0 <= j < i + 1 ==> s@.take(i as int + 1)[j] == s@[j]);
                        }
                        lemma_dec_value_step(s@, i as int);
                        lemma_value_prefix_bound(s@, i as int + 1);
                    }
                }
                return Err(IDError::FromStr { s: s.to_owned() });
            },
        };
        let next = match shifted.checked_add(d) {
            Some(nx) => nx,
            None => {
                proof {
                    if spec_all_digits(s@) {
                        assert(spec_all_digits(s@.take(i as int + 1))) by {
                            assert(forall|j: int|
                                0 <= j < i + 1 ==> s@.take(i as int + 1)[j] == s@[j]);
                        }
                        lemma_dec_value_step(s@, i as int);
                        lemma_value_prefix_bound(s@, i as int + 1);
                    }
                }
                return Err(IDError::FromStr { s: s.to_owned() });
            },
        };
        proof {
            lemma_dec_value_step(s@, i as int);
        }
        value = next;
        i = i + 1;
    }
    assert(s@.take(n as int) =~= s@);
    Ok(value)
}

/// Once a digit prefix exceeds `u64::MAX`, the whole string does.
proof fn lemma_value_prefix_bound(s: Seq<char>, i: int)
    requires
        spec_all_digits(s),
        0 <= i <= s.len(),
        spec_dec_value(s.take(i)) > u64::MAX,
    ensures
        spec_dec_value(s) > u64::MAX,
    decreases s.len() - i,
{
    if i < s.len() {
        assert(spec_all_digits(s.take(i + 1))) by {
            assert(forall|j: int| 0 <= j < i + 1 ==> s.take(i + 1)[j] == s[j]);
        }
        lemma_dec_value_step(s, i);
        assert(spec_dec_value(s.take(i + 1)) > u64::MAX);
        lemma_value_prefix_bound(s, i + 1);
    } else {
        assert(s.take(i) =~= s);
    }
}

/// The decimal form of `n` is a digit run that parses back to `n`: the
/// identifier/decimal-string round trip.
pub proof fn lemma_dec_round_trip(n: u64)
    ensures
        spec_parses_as_u64(spec_dec_digits(n as nat)),
        spec_dec_value(spec_dec_digits(n as nat)) == n,
    decreases n,
{
    if n < 10 {
        let s = spec_dec_digits(n as nat);
        assert(s =~= seq![spec_digit_char(n as int)]);
        assert(s.last() == spec_digit_char(n as int));
        assert(s.drop_last() =~= Seq::<char>::empty());
        assert(spec_dec_value(Seq::<char>::empty()) == 0);
        assert(spec_dec_value(s) == 0 * 10 + spec_digit_val(s.last()));
        assert(spec_digit_val(spec_digit_char(n as int)) == n);
        assert(spec_is_digit(spec_digit_char(n as int)));
    } else {
        lemma_dec_round_trip(n / 10);
        let prefix = spec_dec_digits((n / 10) as nat);
        let s = spec_dec_digits(n as nat);
        assert(s == prefix.push(spec_digit_char((n % 10) as int)));
        assert(s.drop_last() =~= prefix);
        assert(spec_digit_val(s.last()) == n % 10);
        assert(spec_all_digits(s)) by {
            assert(forall|i: int| 0 <= i < prefix.len() ==> s[i] == prefix[i]);
        }
        assert(spec_dec_value(s) == spec_dec_value(prefix) * 10 + n % 10);
        assert((n / 10) * 10 + n % 10 == n) by (nonlinear_arith);
    }
}

} // verus!
