//! Decimal text: rendering a non-negative integer and parsing one back,
//! specified over `Seq<char>`.

use vstd::prelude::*;

verus! {

/// The decimal digit character for `d` (meaningful for `0 <= d <= 9`).
pub open spec fn digit_char(d: int) -> char {
    if d == 0 {
        '0'
    } else if d == 1 {
        '1'
    } else if d == 2 {
        '2'
    } else if d == 3 {
        '3'
    } else if d == 4 {
        '4'
    } else if d == 5 {
        '5'
    } else if d == 6 {
        '6'
    } else if d == 7 {
        '7'
    } else if d == 8 {
        '8'
    } else {
        '9'
    }
}

/// The decimal value of `c`, or `-1` when `c` is not a digit.
pub open spec fn digit_val(c: char) -> int {
    if c == '0' {
        0
    } else if c == '1' {
        1
    } else if c == '2' {
        2
    } else if c == '3' {
        3
    } else if c == '4' {
        4
    } else if c == '5' {
        5
    } else if c == '6' {
        6
    } else if c == '7' {
        7
    } else if c == '8' {
        8
    } else if c == '9' {
        9
    } else {
        -1
    }
}

pub open spec fn is_digit(c: char) -> bool {
    digit_val(c) >= 0
}

/// The decimal text of `n`: most significant digit first, no sign, no
/// leading zeros (`0` itself is the single character `'0'`).
pub open spec fn dec_digits(n: int) -> Seq<char>
    decreases n,
{
    if n < 10 {
        seq![digit_char(n)]
    } else {
        dec_digits(n / 10).push(digit_char(n % 10))
    }
}

/// The decimal value of a digit string (most significant digit first).
pub open spec fn dec_value(s: Seq<char>) -> int
    decreases s.len(),
{
    if s.len() == 0 {
        0
    } else {
        dec_value(s.drop_last()) * 10 + digit_val(s.last())
    }
}

pub open spec fn all_digits(s: Seq<char>) -> bool {
    forall|k: int| 0 <= k < s.len() ==> is_digit(#[trigger] s[k])
}

proof fn lemma_dec_value_nonneg(s: Seq<char>)
    requires
        all_digits(s),
    ensures
        dec_value(s) >= 0,
    decreases s.len(),
{
    if s.len() > 0 {
        assert(all_digits(s.drop_last())) by {
            assert(forall|k: int|
                0 <= k < s.len() - 1 ==> #[trigger] s.drop_last()[k] == s[k]);
        }
        lemma_dec_value_nonneg(s.drop_last());
    }
}

/// Reading further digits never lowers the value already read.
proof fn lemma_dec_value_prefix(s: Seq<char>, j: int)
    requires
        all_digits(s),
        0 <= j <= s.len(),
    ensures
        dec_value(s) >= dec_value(s.take(j)),
    decreases s.len(),
{
    if j == s.len() {
        assert(s.take(j) =~= s);
    } else {
        assert(all_digits(s.drop_last())) by {
            assert(forall|k: int|
                0 <= k < s.len() - 1 ==> #[trigger] s.drop_last()[k] == s[k]);
        }
        lemma_dec_value_prefix(s.drop_last(), j);
        assert(s.drop_last().take(j) =~= s.take(j));
        lemma_dec_value_nonneg(s.drop_last());
        assert(dec_value(s) == dec_value(s.drop_last()) * 10 + digit_val(s.last()));
        assert(dec_value(s.drop_last()) * 10 >= dec_value(s.drop_last())) by (nonlinear_arith)
            requires dec_value(s.drop_last()) >= 0;
    }
}

/// The parse of `s` as a non-negative machine integer, in the shape Rust's
/// `usize` parser accepts: an optional leading `'+'`, then at least one
/// digit, with a value that fits in `usize`.
pub open spec fn parsed_usize(s: Seq<char>) -> Option<int> {
    let ds = if s.len() > 0 && s[0] == '+' {
        s.drop_first()
    } else {
        s
    };
    if ds.len() > 0 && all_digits(ds) && dec_value(ds) <= usize::MAX {
        Some(dec_value(ds))
    } else {
        None
    }
}

fn char_digit(c: char) -> (d: u8)
    ensures
        is_digit(c) ==> d == digit_val(c),
        !is_digit(c) ==> d == 10,
{
    match c {
        '0' => 0,
        '1' => 1,
        '2' => 2,
        '3' => 3,
        '4' => 4,
        '5' => 5,
        '6' => 6,
        '7' => 7,
        '8' => 8,
        '9' => 9,
        _ => 10,
    }
}

fn digit_str(d: usize) -> (r: &'static str)
    requires
        d < 10,
    ensures
        r@ =~= seq![digit_char(d as int)],
{
    proof {
        reveal_strlit("0");
        reveal_strlit("1");
        reveal_strlit("2");
        reveal_strlit("3");
        reveal_strlit("4");
        reveal_strlit("5");
        reveal_strlit("6");
        reveal_strlit("7");
        reveal_strlit("8");
        reveal_strlit("9");
    }
    match d {
        0 => "0",
        1 => "1",
        2 => "2",
        3 => "3",
        4 => "4",
        5 => "5",
        6 => "6",
        7 => "7",
        8 => "8",
        _ => "9",
    }
}

/// Renders `n` as decimal text, exactly [`dec_digits`].
pub fn usize_to_string(n: usize) -> (r: String)
    ensures
        r@ == dec_digits(n as int),
    decreases n,
{
    if n < 10 {
        let mut s = String::new();
        s.append(digit_str(n));
        proof {
            assert(s@ =~= dec_digits(n as int));
        }
        s
    } else {
        let mut s = usize_to_string(n / 10);
        s.append(digit_str(n % 10));
        proof {
            assert(s@ =~= dec_digits(n as int));
        }
        s
    }
}

/// Parses `s` as a `usize`, exactly [`parsed_usize`].
pub fn parse_usize(s: &str) -> (r: Option<usize>)
    ensures
        match r {
            Some(v) => parsed_usize(s@) == Some(v as int),
            None => parsed_usize(s@) is None,
        },
{
    let n = s.unicode_len();
    let start: usize = if n > 0 && s.get_char(0) == '+' {
        1
    } else {
        0
    };
    let ghost ds = if s@.len() > 0 && s@[0] == '+' {
        s@.drop_first()
    } else {
        s@
    };
    proof {
        assert(ds.len() == n - start);
        assert(forall|k: int| 0 <= k < ds.len() ==> #[trigger] ds[k] == s@[k + start]);
    }
    if start == n {
        return None;
    }
    let mut acc: usize = 0;
    let mut i: usize = start;
    while i < n
        invariant
            n == s@.len(),
            start <= i <= n,
            start < n,
            start <= 1,
            ds == (if s@.len() > 0 && s@[0] == '+' {
                s@.drop_first()
            } else {
                s@
            }),
            ds.len() == n - start,
            forall|k: int| 0 <= k < ds.len() ==> #[trigger] ds[k] == s@[k + start],
            all_digits(ds.take(i - start)),
            acc == dec_value(ds.take(i - start)),
        decreases n - i,
    {
        let c = s.get_char(i);
        let d = char_digit(c);
        proof {
            assert(ds[i - start] == s@[i as int]);
        }
        if d > 9 {
            proof {
                assert(!is_digit(ds[i - start]));
                assert(parsed_usize(s@) is None);
            }
            return None;
        }
        let ghost prev = ds.take(i - start);
        proof {
            assert(ds.take(i - start + 1) =~= prev.push(ds[i - start]));
            assert(all_digits(ds.take(i - start + 1)));
        }
        let step = match acc.checked_mul(10) {
            Some(m) => m.checked_add(d as usize),
            None => None,
        };
        match step {
            Some(v) => {
                proof {
                    assert(dec_value(ds.take(i - start + 1)) == acc * 10 + digit_val(
                        ds[i - start],
                    )) by {
                        assert(ds.take(i - start + 1).drop_last() =~= prev);
                    }
                }
                acc = v;
            },
            None => {
                proof {
                    if all_digits(ds) {
                        assert(dec_value(ds.take(i - start + 1)) == acc * 10 + digit_val(
                            ds[i - start],
                        )) by {
                            assert(ds.take(i - start + 1).drop_last() =~= prev);
                        }
                        lemma_dec_value_prefix(ds, i - start + 1);
                        assert(dec_value(ds) > usize::MAX);
                    }
                    assert(parsed_usize(s@) is None);
                }
                return None;
            },
        }
        i += 1;
    }
    proof {
        assert(ds.take(n - start) =~= ds);
        assert(parsed_usize(s@) == Some(acc as int));
    }
    Some(acc)
}

} // verus!
