//! Reading numbers written in decimal.
use vstd::prelude::*;
use vstd::string::StrSliceExecFns;

verus! {

/// The value of the decimal digits `d`.
pub open spec fn digits_value(d: Seq<char>) -> nat
    decreases d.len(),
{
    if d.len() == 0 {
        0
    } else {
        digits_value(d.drop_last()) * 10 + (d.last() as nat - '0' as nat) as nat
    }
}

/// Whether every character of `d` is a decimal digit.
pub open spec fn all_digits(d: Seq<char>) -> bool {
    forall|i: int| 0 <= i < d.len() ==> '0' <= #[trigger] d[i] <= '9'
}

/// What the `from_str` of an unsigned integer type whose largest value is
/// `max` makes of `s`: an optional `+` followed by at least one decimal
/// digit, whose value is at most `max`; none otherwise.
pub open spec fn spec_parse_unsigned(s: Seq<char>, max: u64) -> Option<u64> {
    let d = if s.len() > 0 && s[0] == '+' {
        s.skip(1)
    } else {
        s
    };
    if d.len() > 0 && all_digits(d) && digits_value(d) <= max {
        Some(digits_value(d) as u64)
    } else {
        None
    }
}

/// What the `from_str` of an unsigned integer type whose largest value is
/// `max` makes of `s`: an optional `+` then decimal digits worth at most
/// `max`.
pub fn parse_unsigned(s: &str, max: u64) -> (r: Option<u64>)
    ensures
        r == spec_parse_unsigned(s@, max),
{
    let n = s.unicode_len();
    let mut i: usize = 0;
    if n > 0 && s.get_char(0) == '+' {
        i = 1;
    }
    let ghost first: int = i as int;
    let ghost d = if s@.len() > 0 && s@[0] == '+' {
        s@.skip(1)
    } else {
        s@
    };
    assert(d =~= s@.skip(first));
    if i == n {
        return None;
    }
    let mut value: u128 = 0;
    assert(s@.subrange(first, i as int) =~= Seq::<char>::empty());
    while i < n
        invariant
            n == s@.len(),
            0 <= first <= i <= n,
            d == s@.skip(first),
            d == (if s@.len() > 0 && s@[0] == '+' {
                s@.skip(1)
            } else {
                s@
            }),
            all_digits(s@.subrange(first, i as int)),
            value == digits_value(s@.subrange(first, i as int)),
            value <= max,
        decreases n - i,
    {
        let c = s.get_char(i);
        assert(s@.subrange(first, i + 1).drop_last() =~= s@.subrange(first, i as int));
        assert(s@.subrange(first, i + 1).last() == c);
        if c < '0' || c > '9' {
            proof {
                assert(d[i - first] == c);
                assert(!('0' <= d[i - first] <= '9'));
            }
            return None;
        }
        let digit = (c as u32 - '0' as u32) as u128;
        value = value * 10 + digit;
        if value > max as u128 {
            proof {
                assert(s@.subrange(first, i + 1) =~= d.take(i + 1 - first));
                assert(digits_value(s@.subrange(first, i + 1)) == value);
                if all_digits(d) {
                    lemma_digits_value_grows(d, i + 1 - first);
                }
            }
            return None;
        }
        i = i + 1;
    }
    assert(s@.subrange(first, i as int) =~= d);
    Some(value as u64)
}

/// The position of the first `::` in `s` at `k` or after it.
pub open spec fn first_separator(s: Seq<char>, k: int) -> Option<int>
    decreases s.len() - k,
{
    if k < 0 || k + 1 >= s.len() {
        None
    } else if s[k] == ':' && s[k + 1] == ':' {
        Some(k)
    } else {
        first_separator(s, k + 1)
    }
}

/// The pieces of `s` as `str::splitn(3, "::")` gives them: cut at the
/// first `::`, and the rest cut again at its first `::`.
pub open spec fn spec_splitn3(s: Seq<char>) -> Seq<Seq<char>> {
    match first_separator(s, 0) {
        None => seq![s],
        Some(i) => {
            let rest = s.skip(i + 2);
            match first_separator(rest, 0) {
                None => seq![s.take(i), rest],
                Some(j) => seq![s.take(i), rest.take(j), rest.skip(j + 2)],
            }
        },
    }
}

/// The position of the first `::` in `s`.
pub fn find_separator(s: &str) -> (r: Option<usize>)
    ensures
        r matches Some(i) ==> first_separator(s@, 0) == Some(i as int) && i + 1 < s@.len(),
        r is None ==> first_separator(s@, 0) is None,
{
    let n = s.unicode_len();
    let mut k: usize = 0;
    while k < n && k + 1 < n
        invariant
            n == s@.len(),
            k <= n,
            first_separator(s@, 0) == first_separator(s@, k as int),
        decreases n - k,
    {
        if s.get_char(k) == ':' && s.get_char(k + 1) == ':' {
            return Some(k);
        }
        k = k + 1;
    }
    None
}

/// The pieces of `s` as `str::splitn(3, "::")` gives them.
pub fn splitn3(s: &str) -> (r: Vec<&str>)
    ensures
        r@.len() == spec_splitn3(s@).len(),
        forall|i: int| 0 <= i < r@.len() ==> #[trigger] r@[i]@ == spec_splitn3(s@)[i],
{
    let n = s.unicode_len();
    let mut out: Vec<&str> = Vec::new();
    match find_separator(s) {
        None => {
            out.push(s);
        },
        Some(i) => {
            let first = s.substring_char(0, i);
            let rest = s.substring_char(i + 2, n);
            assert(rest@ =~= s@.skip(i + 2));
            assert(first@ =~= s@.take(i as int));
            out.push(first);
            match find_separator(rest) {
                None => {
                    out.push(rest);
                },
                Some(j) => {
                    let m = rest.unicode_len();
                    let second = rest.substring_char(0, j);
                    let third = rest.substring_char(j + 2, m);
                    assert(second@ =~= rest@.take(j as int));
                    assert(third@ =~= rest@.skip(j + 2));
                    out.push(second);
                    out.push(third);
                },
            }
        },
    }
    out
}

/// A number's digits are worth at least any of their prefixes.
pub proof fn lemma_digits_value_grows(d: Seq<char>, k: int)
    requires
        0 <= k <= d.len(),
        all_digits(d),
    ensures
        digits_value(d.take(k)) <= digits_value(d),
    decreases d.len() - k,
{
    if k < d.len() {
        lemma_digits_value_grows(d, k + 1);
        assert(d.take(k + 1).drop_last() =~= d.take(k));
        assert('0' <= d[k] <= '9');
    } else {
        assert(d.take(k) =~= d);
    }
}

} // verus!
