use vstd::prelude::*;
use vstd::string::StrSliceExecFns;
use vstd::string::StringExecFns;

verus! {

/// Index of the first tab character of `s`, or `s.len()` when there is none.
pub open spec fn first_tab_idx(s: Seq<char>) -> int
    decreases s.len(),
{
    if s.len() == 0 {
        0
    } else if s[0] == '\t' {
        0
    } else {
        1 + first_tab_idx(s.skip(1))
    }
}

/// `first_tab_idx` is the least tab position.
pub proof fn lemma_first_tab(s: Seq<char>)
    ensures
        0 <= first_tab_idx(s) <= s.len(),
        first_tab_idx(s) < s.len() ==> s[first_tab_idx(s)] == '\t',
        forall|k: int| 0 <= k < first_tab_idx(s) ==> s[k] != '\t',
    decreases s.len(),
{
    if s.len() > 0 && s[0] != '\t' {
        lemma_first_tab(s.skip(1));
        assert forall|k: int| 0 <= k < first_tab_idx(s) implies s[k] != '\t' by {
            if k > 0 {
                assert(s.skip(1)[k - 1] == s[k]);
            }
        }
    }
}

/// The fields of `s`, split on tab characters; a line with no tab is one
/// field, and each tab separates two (possibly empty) fields.
pub open spec fn split_tabs(s: Seq<char>) -> Seq<Seq<char>>
    decreases s.len(),
{
    let j = first_tab_idx(s);
    if 0 <= j < s.len() {
        seq![s.take(j)] + split_tabs(s.skip(j + 1))
    } else {
        seq![s]
    }
}

/// Index of the first tab of `s`, or its length when it has none.
fn find_first_tab(s: &str) -> (r: usize)
    ensures
        r as int == first_tab_idx(s@),
{
    let n: usize = s.unicode_len();
    proof {
        lemma_first_tab(s@);
    }
    let mut i: usize = 0;
    while i < n
        invariant
            0 <= i <= n,
            n == s@.len(),
            forall|k: int| 0 <= k < i ==> s@[k] != '\t',
            first_tab_idx(s@) >= i || (first_tab_idx(s@) < s@.len() && s@[first_tab_idx(s@)]
                == '\t' && forall|k: int| 0 <= k < first_tab_idx(s@) ==> s@[k] != '\t'),
        decreases n - i,
    {
        proof {
            lemma_first_tab(s@);
        }
        if s.get_char(i) == '\t' {
            proof {
                let f = first_tab_idx(s@);
                if f < i {
                    assert(s@[f] != '\t');
                }
                if f > i {
                    assert(s@[i as int] != '\t');
                }
            }
            return i;
        }
        i = i + 1;
    }
    proof {
        let f = first_tab_idx(s@);
        if f < n {
            assert(s@[f] != '\t');
        }
    }
    n
}

/// Splits `s` on tab characters into its fields, in order.
pub fn split_line(s: &str) -> (r: Vec<String>)
    ensures
        r.deep_view() == split_tabs(s@),
{
    let mut result: Vec<String> = Vec::new();
    let mut remaining: &str = s;
    proof {
        assert(result.deep_view() + split_tabs(remaining@) =~= split_tabs(s@));
    }
    loop
        invariant
            result.deep_view() + split_tabs(remaining@) == split_tabs(s@),
        decreases remaining@.len(),
    {
        let n: usize = remaining.unicode_len();
        let j: usize = find_first_tab(remaining);
        proof {
            lemma_first_tab(remaining@);
        }
        if j == n {
            let ghost prev = result.deep_view();
            let ghost rem = remaining@;
            result.push(remaining.to_owned());
            proof {
                assert(split_tabs(rem) =~= seq![rem]);
                assert(result.deep_view() =~= prev.push(rem));
                assert(result.deep_view() =~= prev + seq![rem]);
            }
            return result;
        } else {
            let ghost prev = result.deep_view();
            let ghost rem = remaining@;
            let field: &str = remaining.substring_char(0, j);
            result.push(field.to_owned());
            remaining = remaining.substring_char(j + 1, n);
            proof {
                assert(field@ =~= rem.take(j as int));
                assert(remaining@ =~= rem.skip(j + 1));
                assert(split_tabs(rem) == seq![rem.take(j as int)] + split_tabs(rem.skip(j + 1)));
                assert(result.deep_view() =~= prev.push(rem.take(j as int)));
                assert(result.deep_view() + split_tabs(remaining@) =~= split_tabs(s@));
            }
        }
    }
}

/// A decimal digit character.
pub open spec fn is_digit(c: char) -> bool {
    48 <= c as int <= 57
}

/// Numeric value of one digit character.
pub open spec fn digit_val(c: char) -> int {
    c as int - 48
}

/// Every character of `s` is a decimal digit.
pub open spec fn all_digits(s: Seq<char>) -> bool {
    forall|i: int| 0 <= i < s.len() ==> is_digit(#[trigger] s[i])
}

/// Numeric value of a digit string, most significant digit first.
pub open spec fn dec_val(s: Seq<char>) -> int
    decreases s.len(),
{
    if s.len() == 0 {
        0
    } else {
        dec_val(s.drop_last()) * 10 + digit_val(s.last())
    }
}

/// A digit string has a non-negative value.
pub proof fn lemma_dec_val_nonneg(s: Seq<char>)
    requires
        all_digits(s),
    ensures
        dec_val(s) >= 0,
    decreases s.len(),
{
    if s.len() > 0 {
        assert(forall|i: int| 0 <= i < s.drop_last().len() ==> is_digit(
            #[trigger] s.drop_last()[i],
        ));
        lemma_dec_val_nonneg(s.drop_last());
    }
}

/// Extending a digit string can only grow its value.
pub proof fn lemma_dec_val_prefix(s: Seq<char>, p: int)
    requires
        all_digits(s),
        0 <= p <= s.len(),
    ensures
        dec_val(s) >= dec_val(s.take(p)),
    decreases s.len() - p,
{
    if p < s.len() {
        assert(s.take(p + 1).drop_last() =~= s.take(p));
        assert(s.take(p + 1).last() == s[p]);
        assert(forall|i: int| 0 <= i < s.take(p).len() ==> is_digit(#[trigger] s.take(p)[i]));
        lemma_dec_val_nonneg(s.take(p));
        assert(dec_val(s.take(p + 1)) == dec_val(s.take(p)) * 10 + digit_val(s[p]));
        lemma_dec_val_prefix(s, p + 1);
    } else {
        assert(s.take(p) =~= s);
    }
}

/// The digit string of `s` once an optional leading plus sign is removed,
/// as `u8::from_str` reads it.
pub open spec fn u8_body(s: Seq<char>) -> Seq<char> {
    if s.len() > 0 && s[0] == '+' {
        s.skip(1)
    } else {
        s
    }
}

/// What `str::parse::<u8>` yields on `s`: the value of the digit string when
/// it is non-empty, all digits and at most 255, and nothing otherwise.
pub open spec fn u8_parse(s: Seq<char>) -> Option<u8> {
    let t = u8_body(s);
    if t.len() > 0 && all_digits(t) && dec_val(t) <= 255 {
        Some(dec_val(t) as u8)
    } else {
        None
    }
}

/// The digit string of `s` once an optional leading sign is removed.
pub open spec fn i32_body(s: Seq<char>) -> Seq<char> {
    if s.len() > 0 && (s[0] == '+' || s[0] == '-') {
        s.skip(1)
    } else {
        s
    }
}

/// Whether `s` carries a leading minus sign.
pub open spec fn i32_negative(s: Seq<char>) -> bool {
    s.len() > 0 && s[0] == '-'
}

/// What `str::parse::<i32>` yields on `s`: the signed value of the digit
/// string when it is non-empty, all digits and within the `i32` range, and
/// nothing otherwise.
pub open spec fn i32_parse(s: Seq<char>) -> Option<i32> {
    let t = i32_body(s);
    let bound: int = if i32_negative(s) {
        2147483648
    } else {
        2147483647
    };
    if t.len() > 0 && all_digits(t) && dec_val(t) <= bound {
        if i32_negative(s) {
            Some((-dec_val(t)) as i32)
        } else {
            Some(dec_val(t) as i32)
        }
    } else {
        None
    }
}

/// Parses `s` as `str::parse::<u8>` does: an optional plus sign followed by
/// at least one digit, with a value of at most 255.
pub fn parse_u8(s: &str) -> (r: Option<u8>)
    ensures
        r == u8_parse(s@),
{
    let n: usize = s.unicode_len();
    let start: usize = if n > 0 && s.get_char(0) == '+' {
        1
    } else {
        0
    };
    let ghost t = u8_body(s@);
    proof {
        assert(t =~= s@.skip(start as int));
    }
    if start == n {
        return None;
    }
    let mut acc: u32 = 0;
    let mut i: usize = start;
    while i < n
        invariant
            start <= i <= n,
            n == s@.len(),
            start < n,
            t == s@.skip(start as int),
            t == u8_body(s@),
            forall|k: int| 0 <= k < i - start ==> is_digit(#[trigger] t[k]),
            acc == dec_val(t.take(i - start)),
            acc <= 255,
        decreases n - i,
    {
        let c = s.get_char(i);
        let d: u32 = c as u32;
        if d < 48 || d > 57 {
            proof {
                assert(t[i - start] == s@[i as int]);
                assert(!is_digit(t[i - start]));
            }
            return None;
        }
        proof {
            assert(t[i - start] == s@[i as int]);
            assert(t.take(i - start + 1).drop_last() =~= t.take(i - start));
            assert(t.take(i - start + 1).last() == t[i - start]);
        }
        acc = acc * 10 + (d - 48);
        i = i + 1;
        if acc > 255 {
            proof {
                if all_digits(t) && dec_val(t) <= 255 {
                    lemma_dec_val_prefix(t, i - start);
                }
            }
            return None;
        }
    }
    proof {
        assert(t.take(n - start) =~= t);
    }
    Some(acc as u8)
}

/// Parses `s` as `str::parse::<i32>` does: an optional sign followed by at
/// least one digit, with a value within the `i32` range.
pub fn parse_i32(s: &str) -> (r: Option<i32>)
    ensures
        r == i32_parse(s@),
{
    let n: usize = s.unicode_len();
    let neg: bool = n > 0 && s.get_char(0) == '-';
    let start: usize = if n > 0 && (s.get_char(0) == '+' || s.get_char(0) == '-') {
        1
    } else {
        0
    };
    let bound: u64 = if neg {
        2147483648
    } else {
        2147483647
    };
    let ghost t = i32_body(s@);
    proof {
        assert(t =~= s@.skip(start as int));
        assert(neg == i32_negative(s@));
    }
    if start == n {
        return None;
    }
    let mut acc: u64 = 0;
    let mut i: usize = start;
    while i < n
        invariant
            start <= i <= n,
            n == s@.len(),
            start < n,
            t == s@.skip(start as int),
            t == i32_body(s@),
            neg == i32_negative(s@),
            bound == if neg {
                2147483648u64
            } else {
                2147483647u64
            },
            forall|k: int| 0 <= k < i - start ==> is_digit(#[trigger] t[k]),
            acc == dec_val(t.take(i - start)),
            acc <= bound,
        decreases n - i,
    {
        let c = s.get_char(i);
        let d: u64 = c as u64;
        if d < 48 || d > 57 {
            proof {
                assert(t[i - start] == s@[i as int]);
                assert(!is_digit(t[i - start]));
            }
            return None;
        }
        proof {
            assert(t[i - start] == s@[i as int]);
            assert(t.take(i - start + 1).drop_last() =~= t.take(i - start));
            assert(t.take(i - start + 1).last() == t[i - start]);
        }
        acc = acc * 10 + (d - 48);
        i = i + 1;
        if acc > bound {
            proof {
                if all_digits(t) && dec_val(t) <= bound {
                    lemma_dec_val_prefix(t, i - start);
                }
            }
            return None;
        }
    }
    proof {
        assert(t.take(n - start) =~= t);
    }
    if neg {
        let v: i64 = -(acc as i64);
        Some(v as i32)
    } else {
        Some(acc as i32)
    }
}

/// One decimal digit character, for values zero through nine.
pub open spec fn dec_digit(n: int) -> char {
    (48 + n) as char
}

/// Decimal rendering of `n`, most significant digit first, no sign and no
/// leading zeros (a single zero for zero itself).
pub open spec fn dec_chars(n: nat) -> Seq<char>
    decreases n,
{
    if n < 10 {
        seq![dec_digit(n as int)]
    } else {
        dec_chars(n / 10).push(dec_digit((n % 10) as int))
    }
}

/// The decimal digit character of `d`.
fn digit_str(d: usize) -> (r: &'static str)
    requires
        d < 10,
    ensures
        r@ == seq![dec_digit(d as int)],
{
    if d == 0 {
        proof {
            reveal_strlit("0");
        }
        "0"
    } else if d == 1 {
        proof {
            reveal_strlit("1");
        }
        "1"
    } else if d == 2 {
        proof {
            reveal_strlit("2");
        }
        "2"
    } else if d == 3 {
        proof {
            reveal_strlit("3");
        }
        "3"
    } else if d == 4 {
        proof {
            reveal_strlit("4");
        }
        "4"
    } else if d == 5 {
        proof {
            reveal_strlit("5");
        }
        "5"
    } else if d == 6 {
        proof {
            reveal_strlit("6");
        }
        "6"
    } else if d == 7 {
        proof {
            reveal_strlit("7");
        }
        "7"
    } else if d == 8 {
        proof {
            reveal_strlit("8");
        }
        "8"
    } else {
        proof {
            reveal_strlit("9");
        }
        "9"
    }
}

/// Appends the decimal rendering of `n` to `out`.
pub fn push_decimal(out: &mut String, n: usize)
    ensures
        final(out)@ == old(out)@ + dec_chars(n as nat),
    decreases n,
{
    if n >= 10 {
        push_decimal(out, n / 10);
        let ds = digit_str(n % 10);
        out.append(ds);
        proof {
            assert(out@ =~= old(out)@ + dec_chars(n as nat));
        }
    } else {
        let ds = digit_str(n);
        out.append(ds);
        proof {
            assert(out@ =~= old(out)@ + dec_chars(n as nat));
        }
    }
}

} // verus!
