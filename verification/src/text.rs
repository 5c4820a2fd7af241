//! Text keys for the sorting operations.
//!
//! Strings are compared as sequences of code points. The name sort folds
//! ASCII letters to lower case first (the store's case-insensitive
//! collation); every other comparison is case-sensitive. A budget without a
//! stored name sorts under its effective display name, "{MonthName} {Year}".

use vstd::prelude::*;
use vstd::string::StrSliceExecFns;
use crate::types::BudgetSummaryV;

verus! {

/// The code points of a string, unchanged.
pub open spec fn codes_of(s: Seq<char>) -> Seq<int> {
    Seq::new(s.len(), |i: int| s[i] as int)
}

/// One code point with an ASCII capital folded to its lower-case letter.
pub open spec fn fold_code(c: int) -> int {
    if 65 <= c <= 90 {
        c + 32
    } else {
        c
    }
}

/// The code points of a string with ASCII capitals folded to lower case.
pub open spec fn folded_codes_of(s: Seq<char>) -> Seq<int> {
    Seq::new(s.len(), |i: int| fold_code(s[i] as int))
}

/// Lexicographic order on code-point sequences: a prefix sorts first.
pub open spec fn lex_le(a: Seq<int>, b: Seq<int>) -> bool
    decreases a.len(),
{
    if a.len() == 0 {
        true
    } else if b.len() == 0 {
        false
    } else if a[0] < b[0] {
        true
    } else if a[0] > b[0] {
        false
    } else {
        lex_le(a.drop_first(), b.drop_first())
    }
}

/// Every sequence is ordered with itself.
pub proof fn lemma_lex_le_refl(a: Seq<int>)
    ensures
        lex_le(a, a),
    decreases a.len(),
{
    if a.len() != 0 {
        lemma_lex_le_refl(a.drop_first());
    }
}

/// Any two sequences are ordered one way or the other.
pub proof fn lemma_lex_le_total(a: Seq<int>, b: Seq<int>)
    ensures
        lex_le(a, b) || lex_le(b, a),
    decreases a.len(),
{
    if a.len() != 0 && b.len() != 0 && a[0] == b[0] {
        lemma_lex_le_total(a.drop_first(), b.drop_first());
    }
}

/// Lexicographic order is transitive.
pub proof fn lemma_lex_le_trans(a: Seq<int>, b: Seq<int>, c: Seq<int>)
    requires
        lex_le(a, b),
        lex_le(b, c),
    ensures
        lex_le(a, c),
    decreases a.len(),
{
    if a.len() != 0 && b.len() != 0 && c.len() != 0 && a[0] == b[0] && b[0] == c[0] {
        lemma_lex_le_trans(a.drop_first(), b.drop_first(), c.drop_first());
    }
}

/// Equal prefixes can be dropped without changing the order.
proof fn lemma_lex_le_skip(a: Seq<int>, b: Seq<int>, i: int)
    requires
        0 <= i <= a.len(),
        i <= b.len(),
        forall|j: int| 0 <= j < i ==> a[j] == b[j],
    ensures
        lex_le(a, b) == lex_le(a.skip(i), b.skip(i)),
    decreases i,
{
    if i == 0 {
        assert(a.skip(0) =~= a);
        assert(b.skip(0) =~= b);
    } else {
        assert(a.drop_first() =~= a.skip(1));
        assert(b.drop_first() =~= b.skip(1));
        lemma_lex_le_skip(a.skip(1), b.skip(1), i - 1);
        assert(a.skip(1).skip(i - 1) =~= a.skip(i));
        assert(b.skip(1).skip(i - 1) =~= b.skip(i));
    }
}

/// The code points of a `u32` key vector.
pub open spec fn key_codes(v: Seq<u32>) -> Seq<int> {
    Seq::new(v.len(), |i: int| v[i] as int)
}

/// Lexicographic comparison of two key vectors.
pub fn key_le(a: &Vec<u32>, b: &Vec<u32>) -> (r: bool)
    ensures
        r == lex_le(key_codes(a@), key_codes(b@)),
{
    let ghost ka = key_codes(a@);
    let ghost kb = key_codes(b@);
    let mut i: usize = 0;
    loop
        invariant
            i <= a@.len(),
            i <= b@.len(),
            ka == key_codes(a@),
            kb == key_codes(b@),
            forall|j: int| 0 <= j < i ==> ka[j] == kb[j],
        decreases a@.len() - i,
    {
        proof {
            lemma_lex_le_skip(ka, kb, i as int);
        }
        if i >= a.len() {
            assert(ka.skip(i as int).len() == 0);
            return true;
        }
        if i >= b.len() {
            assert(kb.skip(i as int).len() == 0);
            assert(ka.skip(i as int).len() > 0);
            return false;
        }
        let ca = a[i];
        let cb = b[i];
        if ca < cb {
            assert(ka.skip(i as int)[0] == ka[i as int]);
            assert(kb.skip(i as int)[0] == kb[i as int]);
            return true;
        }
        if ca > cb {
            assert(ka.skip(i as int)[0] == ka[i as int]);
            assert(kb.skip(i as int)[0] == kb[i as int]);
            return false;
        }
        i += 1;
    }
}

/// Whether two strings hold the same characters.
pub fn str_eq(a: &str, b: &str) -> (r: bool)
    ensures
        r == (a@ == b@),
{
    let n = a.unicode_len();
    let m = b.unicode_len();
    if n != m {
        return false;
    }
    let mut i: usize = 0;
    while i < n
        invariant
            n == a@.len(),
            n == b@.len(),
            i <= n,
            forall|j: int| 0 <= j < i ==> a@[j] == b@[j],
        decreases n - i,
    {
        if a.get_char(i) != b.get_char(i) {
            return false;
        }
        i += 1;
    }
    proof {
        assert(a@ =~= b@);
    }
    true
}

/// The case-folded code points of a string, as a key vector.
pub fn fold_key_of_str(s: &str) -> (r: Vec<u32>)
    ensures
        key_codes(r@) == folded_codes_of(s@),
{
    let n = s.unicode_len();
    let mut out: Vec<u32> = Vec::new();
    let mut i: usize = 0;
    while i < n
        invariant
            n == s@.len(),
            i <= n,
            out@.len() == i,
            forall|j: int| 0 <= j < i ==> out@[j] as int == fold_code(s@[j] as int),
        decreases n - i,
    {
        let c = s.get_char(i) as u32;
        let f: u32 = if 65 <= c && c <= 90 {
            c + 32
        } else {
            c
        };
        out.push(f);
        i += 1;
    }
    proof {
        assert(key_codes(out@) =~= folded_codes_of(s@));
    }
    out
}

/// The plain code points of a string, as a key vector.
pub fn code_key_of_str(s: &str) -> (r: Vec<u32>)
    ensures
        key_codes(r@) == codes_of(s@),
{
    let n = s.unicode_len();
    let mut out: Vec<u32> = Vec::new();
    let mut i: usize = 0;
    while i < n
        invariant
            n == s@.len(),
            i <= n,
            out@.len() == i,
            forall|j: int| 0 <= j < i ==> out@[j] as int == s@[j] as int,
        decreases n - i,
    {
        let c = s.get_char(i) as u32;
        out.push(c);
        i += 1;
    }
    proof {
        assert(key_codes(out@) =~= codes_of(s@));
    }
    out
}

/// The English name of a calendar month, 1 through 12.
pub open spec fn month_label(m: int) -> Seq<char> {
    if m == 1 {
        "January"@
    } else if m == 2 {
        "February"@
    } else if m == 3 {
        "March"@
    } else if m == 4 {
        "April"@
    } else if m == 5 {
        "May"@
    } else if m == 6 {
        "June"@
    } else if m == 7 {
        "July"@
    } else if m == 8 {
        "August"@
    } else if m == 9 {
        "September"@
    } else if m == 10 {
        "October"@
    } else if m == 11 {
        "November"@
    } else {
        "December"@
    }
}

/// The English month name as a string slice.
pub fn month_label_str(m: u8) -> (r: &'static str)
    requires
        1 <= m <= 12,
    ensures
        r@ == month_label(m as int),
{
    if m == 1 {
        "January"
    } else if m == 2 {
        "February"
    } else if m == 3 {
        "March"
    } else if m == 4 {
        "April"
    } else if m == 5 {
        "May"
    } else if m == 6 {
        "June"
    } else if m == 7 {
        "July"
    } else if m == 8 {
        "August"
    } else if m == 9 {
        "September"
    } else if m == 10 {
        "October"
    } else if m == 11 {
        "November"
    } else {
        "December"
    }
}

/// The decimal digit codes of a non-negative number, most significant first.
pub open spec fn decimal_codes(n: int) -> Seq<int>
    decreases n,
{
    if n < 10 {
        seq![48 + (if n >= 0 { n } else { 0 })]
    } else {
        decimal_codes(n / 10).push(48 + n % 10)
    }
}

/// The digit codes of a year, with a leading minus code for negative years.
pub open spec fn year_codes(y: int) -> Seq<int> {
    if y < 0 {
        seq![45int] + decimal_codes(-y)
    } else {
        decimal_codes(y)
    }
}

/// Appends the decimal digit codes of `n` to `out`.
fn push_decimal_codes(n: u64, out: &mut Vec<u32>)
    ensures
        key_codes(final(out)@) == key_codes(old(out)@) + decimal_codes(n as int),
    decreases n,
{
    if n < 10 {
        out.push(48 + n as u32);
        proof {
            assert(key_codes(out@) =~= key_codes(old(out)@) + decimal_codes(n as int));
        }
    } else {
        push_decimal_codes(n / 10, out);
        let ghost mid = out@;
        out.push(48 + (n % 10) as u32);
        proof {
            assert(key_codes(out@) =~= key_codes(mid) + seq![48 + n as int % 10]);
            assert(key_codes(out@) =~= key_codes(old(out)@) + decimal_codes(n as int));
        }
    }
}

/// One decimal digit as a character.
pub open spec fn digit_char(d: int) -> char {
    if d == 0 {
        '0'
    } else if d == 1 {
        '1'
    } else if d == 2 {
        '2'
    } else if d == 3 {
        '3'
    } else if d == 4 {
        '4'
    } else if d == 5 {
        '5'
    } else if d == 6 {
        '6'
    } else if d == 7 {
        '7'
    } else if d == 8 {
        '8'
    } else {
        '9'
    }
}

/// One decimal digit as a string slice.
fn digit_str(d: u64) -> (r: &'static str)
    requires
        d <= 9,
    ensures
        r@ == seq![digit_char(d as int)],
    {
    let r: &'static str = if d == 0 {
        "0"
    } else if d == 1 {
        "1"
    } else if d == 2 {
        "2"
    } else if d == 3 {
        "3"
    } else if d == 4 {
        "4"
    } else if d == 5 {
        "5"
    } else if d == 6 {
        "6"
    } else if d == 7 {
        "7"
    } else if d == 8 {
        "8"
    } else {
        "9"
    };
    proof {
        reveal_strlit("0");
        reveal_strlit("1");
        reveal_strlit("2");
        reveal_strlit("3");
        reveal_strlit("4");
        reveal_strlit("5");
        reveal_strlit("6");
        reveal_strlit("7");
        reveal_strlit("8");
        reveal_strlit("9");
        assert(r@ =~= seq![digit_char(d as int)]);
    }
    r
}

/// The decimal digits of a non-negative number, most significant first.
pub open spec fn decimal_str_of(n: int) -> Seq<char>
    decreases n,
{
    if n < 10 {
        seq![digit_char(if n >= 0 { n } else { 0 })]
    } else {
        decimal_str_of(n / 10).push(digit_char(n % 10))
    }
}

/// The decimal rendering of a signed number.
pub open spec fn int_str_of(n: int) -> Seq<char> {
    if n < 0 {
        seq!['-'] + decimal_str_of(-n)
    } else {
        decimal_str_of(n)
    }
}

/// An amount of minor units rendered as a plain decimal with two places,
/// the way the audit trail prints money.
pub open spec fn money_str_of(c: int) -> Seq<char> {
    if c < 0 {
        seq!['-'] + money_str_of_nonneg(-c)
    } else {
        money_str_of_nonneg(c)
    }
}

pub open spec fn money_str_of_nonneg(c: int) -> Seq<char> {
    decimal_str_of(c / 100) + seq!['.', digit_char((c % 100) / 10), digit_char(c % 10 % 10)]
}

/// Appends the decimal digits of `n`.
fn push_decimal_str(n: u64, out: &mut String)
    ensures
        final(out)@ == old(out)@ + decimal_str_of(n as int),
    decreases n,
{
    if n < 10 {
        out.append(digit_str(n));
        proof {
            assert(out@ =~= old(out)@ + decimal_str_of(n as int));
        }
    } else {
        push_decimal_str(n / 10, out);
        out.append(digit_str(n % 10));
        proof {
            assert(out@ =~= old(out)@ + decimal_str_of(n as int));
        }
    }
}

/// The decimal rendering of a signed number as a fresh string.
pub fn int_string(n: i64) -> (r: String)
    ensures
        r@ == int_str_of(n as int),
{
    let mut out = String::new();
    if n < 0 {
        out.append("-");
        let mag: u64 = (-(n as i128)) as u64;
        push_decimal_str(mag, &mut out);
        proof {
            reveal_strlit("-");
            assert(out@ =~= int_str_of(n as int));
        }
    } else {
        push_decimal_str(n as u64, &mut out);
        proof {
            assert(out@ =~= int_str_of(n as int));
        }
    }
    out
}

/// An amount of minor units rendered with two decimal places.
pub fn money_string(cents: i64) -> (r: String)
    ensures
        r@ == money_str_of(cents as int),
{
    let mut out = String::new();
    let mag: u64 = if cents < 0 {
        out.append("-");
        (-(cents as i128)) as u64
    } else {
        cents as u64
    };
    push_decimal_str(mag / 100, &mut out);
    out.append(".");
    out.append(digit_str((mag % 100) / 10));
    out.append(digit_str(mag % 10));
    proof {
        reveal_strlit("-");
        reveal_strlit(".");
        assert(out@ =~= money_str_of(cents as int));
    }
    out
}

/// The folded sort key that stands in for a budget's name: the stored name
/// when it is non-empty, else "{MonthName} {Year}".
pub open spec fn effective_name_key(b: BudgetSummaryV) -> Seq<int> {
    match b.name {
        Some(n) if n.len() > 0 => folded_codes_of(n),
        _ => folded_codes_of(month_label(b.month)) + seq![32int] + year_codes(b.year),
    }
}

/// Builds the effective-name key of a budget summary.
pub fn effective_name_key_of(b: &crate::types::BudgetSummary) -> (r: Vec<u32>)
    requires
        1 <= b.month <= 12,
    ensures
        key_codes(r@) == effective_name_key(b@),
{
    match &b.name {
        Some(n) if n.unicode_len() > 0 => fold_key_of_str(n.as_str()),
        _ => {
            let mut out = fold_key_of_str(month_label_str(b.month));
            let ghost pre = out@;
            out.push(32);
            proof {
                assert(key_codes(out@) =~= key_codes(pre) + seq![32int]);
            }
            let ghost mid = out@;
            if b.year < 0 {
                let ghost pre2 = out@;
                out.push(45);
                proof {
                    assert(key_codes(out@) =~= key_codes(pre2) + seq![45int]);
                }
                let mag: u64 = (-(b.year as i64)) as u64;
                push_decimal_codes(mag, &mut out);
                proof {
                    assert(key_codes(out@) =~= key_codes(mid) + (seq![45int] + decimal_codes(
                        -(b.year as int),
                    )));
                    assert(key_codes(out@) =~= effective_name_key(b@));
                }
            } else {
                push_decimal_codes(b.year as u64, &mut out);
                proof {
                    assert(key_codes(out@) =~= effective_name_key(b@));
                }
            }
            out
        },
    }
}

} // verus!
