//! Plain-text helpers: whitespace trimming, string equality and
//! lexicographic order, and decimal rendering and parsing of identifiers.

use vstd::prelude::*;

verus! {

/// Whether a character counts as whitespace for user-name trimming.
pub uninterp spec fn is_whitespace_char(c: char) -> bool;

/// Relies on `char::is_whitespace`: whether the character has the Unicode
/// `White_Space` property, which depends on the character alone.
#[verifier::external_body]
fn char_is_whitespace(c: char) -> (r: bool)
    ensures
        r == is_whitespace_char(c),
{
    c.is_whitespace()
}

/// The sequence with its leading run of whitespace removed.
pub open spec fn spec_trim_start(s: Seq<char>) -> Seq<char>
    decreases s.len(),
{
    if s.len() > 0 && is_whitespace_char(s[0]) {
        spec_trim_start(s.skip(1))
    } else {
        s
    }
}

/// The sequence with its trailing run of whitespace removed.
pub open spec fn spec_trim_end(s: Seq<char>) -> Seq<char>
    decreases s.len(),
{
    if s.len() > 0 && is_whitespace_char(s.last()) {
        spec_trim_end(s.drop_last())
    } else {
        s
    }
}

/// The sequence with leading and trailing whitespace removed.
pub open spec fn spec_trim(s: Seq<char>) -> Seq<char> {
    spec_trim_end(spec_trim_start(s))
}

/// A trimmed sequence neither starts nor ends with whitespace, so
/// trimming is idempotent.
pub proof fn lemma_trim_idempotent(s: Seq<char>)
    ensures
        spec_trim(spec_trim(s)) == spec_trim(s),
{
    lemma_trim_start_end_commute(s);
    lemma_trim_start_no_leading_ws(s);
    lemma_trim_end_no_trailing_ws(spec_trim_start(s));
    let t = spec_trim(s);
    if t.len() > 0 {
        lemma_trim_end_prefix_of(spec_trim_start(s));
        assert(!is_whitespace_char(t[0]));
        assert(!is_whitespace_char(t.last()));
    }
}

/// Trimming the start leaves no leading whitespace.
proof fn lemma_trim_start_no_leading_ws(s: Seq<char>)
    ensures
        spec_trim_start(s).len() > 0 ==> !is_whitespace_char(spec_trim_start(s)[0]),
    decreases s.len(),
{
    if s.len() > 0 && is_whitespace_char(s[0]) {
        lemma_trim_start_no_leading_ws(s.skip(1));
    }
}

/// Trimming the end leaves no trailing whitespace.
proof fn lemma_trim_end_no_trailing_ws(s: Seq<char>)
    ensures
        spec_trim_end(s).len() > 0 ==> !is_whitespace_char(spec_trim_end(s).last()),
    decreases s.len(),
{
    if s.len() > 0 && is_whitespace_char(s.last()) {
        lemma_trim_end_no_trailing_ws(s.drop_last());
    }
}

/// The end-trimmed sequence is a prefix of the original, so its head is
/// the original head.
proof fn lemma_trim_end_prefix_of(s: Seq<char>)
    ensures
        spec_trim_end(s).len() <= s.len(),
        forall|i: int|
            0 <= i < spec_trim_end(s).len() ==> #[trigger] spec_trim_end(s)[i] == s[i],
    decreases s.len(),
{
    if s.len() > 0 && is_whitespace_char(s.last()) {
        lemma_trim_end_prefix_of(s.drop_last());
    }
}

/// Trimming an already start-trimmed, end-trimmed sequence changes
/// nothing on either side.
proof fn lemma_trim_start_end_commute(s: Seq<char>)
    ensures
        spec_trim_start(spec_trim(s)) == spec_trim(s),
{
    lemma_trim_start_no_leading_ws(s);
    lemma_trim_end_prefix_of(spec_trim_start(s));
    let t = spec_trim(s);
    if t.len() > 0 {
        assert(t[0] == spec_trim_start(s)[0]);
        assert(!is_whitespace_char(t[0]));
    }
}

/// Dropping a fully-whitespace prefix does not change the start trim.
proof fn lemma_trim_start_skip(s: Seq<char>, k: int)
    requires
        0 <= k <= s.len(),
        forall|j: int| 0 <= j < k ==> is_whitespace_char(s[j]),
    ensures
        spec_trim_start(s) == spec_trim_start(s.skip(k)),
    decreases k,
{
    if k == 0 {
        assert(s.skip(0) =~= s);
    } else {
        assert(is_whitespace_char(s[0]));
        assert(s.skip(1).skip(k - 1) =~= s.skip(k));
        lemma_trim_start_skip(s.skip(1), k - 1);
    }
}

/// Dropping a fully-whitespace suffix does not change the end trim.
proof fn lemma_trim_end_take(s: Seq<char>, k: int)
    requires
        0 <= k <= s.len(),
        forall|j: int| k <= j < s.len() ==> is_whitespace_char(s[j]),
    ensures
        spec_trim_end(s) == spec_trim_end(s.take(k)),
    decreases s.len() - k,
{
    if k == s.len() {
        assert(s.take(k) =~= s);
    } else {
        assert(is_whitespace_char(s.last()));
        assert(s.drop_last() =~= s.take(s.len() - 1));
        assert(s.take(s.len() - 1).take(k) =~= s.take(k));
        lemma_trim_end_take(s.take(s.len() - 1), k);
    }
}

/// Removes leading and trailing whitespace, as the stored form of a
/// user name requires.
pub fn trim(s: &str) -> (r: String)
    ensures
        r@ == spec_trim(s@),
{
    let len = s.unicode_len();
    let mut start: usize = 0;
    while start < len && char_is_whitespace(s.get_char(start))
        invariant
            len == s@.len(),
            0 <= start <= len,
            forall|j: int| 0 <= j < start ==> is_whitespace_char(s@[j]),
        decreases len - start,
    {
        start = start + 1;
    }
    proof {
        lemma_trim_start_skip(s@, start as int);
        if start < len {
            assert(s@.skip(start as int)[0] == s@[start as int]);
        }
        assert(spec_trim_start(s@) == s@.skip(start as int));
    }
    let mut end: usize = len;
    while end > start && char_is_whitespace(s.get_char(end - 1))
        invariant
            len == s@.len(),
            0 <= start <= end <= len,
            forall|j: int| end <= j < len ==> is_whitespace_char(s@[j]),
        decreases end,
    {
        end = end - 1;
    }
    let piece = s.substring_char(start, end);
    proof {
        let t = s@.skip(start as int);
        assert(forall|j: int|
            end - start <= j < t.len() ==> is_whitespace_char(#[trigger] t[j]));
        lemma_trim_end_take(t, end - start);
        assert(t.take(end - start) =~= s@.subrange(start as int, end as int));
        if end > start {
            assert(t.take(end - start).last() == s@[end - 1]);
            assert(spec_trim_end(t.take(end - start)) == t.take(end - start));
        }
        assert(piece@ == spec_trim(s@));
    }
    String::from_str(piece)
}

/// Whether two strings hold the same characters.
pub fn str_eq(a: &str, b: &str) -> (r: bool)
    ensures
        r == (a@ == b@),
{
    let alen = a.unicode_len();
    let blen = b.unicode_len();
    if alen != blen {
        return false;
    }
    let mut i: usize = 0;
    while i < alen
        invariant
            alen == a@.len(),
            alen == b@.len(),
            0 <= i <= alen,
            forall|j: int| 0 <= j < i ==> a@[j] == b@[j],
        decreases alen - i,
    {
        if a.get_char(i) != b.get_char(i) {
            return false;
        }
        i = i + 1;
    }
    proof {
        assert(a@ =~= b@);
    }
    true
}

/// Lexicographic order on character sequences, by code point.
pub open spec fn lex_le(a: Seq<char>, b: Seq<char>) -> bool
    decreases a.len(),
{
    if a.len() == 0 {
        true
    } else if b.len() == 0 {
        false
    } else if a[0] != b[0] {
        a[0] < b[0]
    } else {
        lex_le(a.skip(1), b.skip(1))
    }
}

/// Lexicographic order is total.
pub proof fn lemma_lex_le_total(a: Seq<char>, b: Seq<char>)
    ensures
        lex_le(a, b) || lex_le(b, a),
    decreases a.len(),
{
    if a.len() > 0 && b.len() > 0 && a[0] == b[0] {
        lemma_lex_le_total(a.skip(1), b.skip(1));
    }
}

/// Lexicographic order is transitive.
pub proof fn lemma_lex_le_trans(a: Seq<char>, b: Seq<char>, c: Seq<char>)
    requires
        lex_le(a, b),
        lex_le(b, c),
    ensures
        lex_le(a, c),
    decreases a.len(),
{
    if a.len() > 0 && b.len() > 0 && c.len() > 0 && a[0] == b[0] && b[0] == c[0] {
        lemma_lex_le_trans(a.skip(1), b.skip(1), c.skip(1));
    }
}

/// Whether `a` comes no later than `b` in lexicographic order.
pub fn str_lex_le(a: &str, b: &str) -> (r: bool)
    ensures
        r == lex_le(a@, b@),
{
    let alen = a.unicode_len();
    let blen = b.unicode_len();
    let mut i: usize = 0;
    proof {
        assert(a@.skip(0) =~= a@);
        assert(b@.skip(0) =~= b@);
    }
    loop
        invariant
            alen == a@.len(),
            blen == b@.len(),
            0 <= i <= alen,
            0 <= i <= blen,
            lex_le(a@, b@) == lex_le(a@.skip(i as int), b@.skip(i as int)),
        decreases alen - i,
    {
        if i == alen {
            return true;
        }
        if i == blen {
            return false;
        }
        let ca = a.get_char(i);
        let cb = b.get_char(i);
        if ca != cb {
            return ca < cb;
        }
        proof {
            assert(a@.skip(i as int).skip(1) =~= a@.skip(i + 1));
            assert(b@.skip(i as int).skip(1) =~= b@.skip(i + 1));
        }
        i = i + 1;
    }
}

/// The decimal digit character for a value below ten.
pub open spec fn digit_char(d: int) -> char {
    ((d + 48) as u8) as char
}

/// Whether a character is a decimal digit.
pub open spec fn is_digit(c: char) -> bool {
    '0' <= c && c <= '9'
}

/// The canonical decimal rendering of a non-negative integer, with no
/// sign and no leading zero except for zero itself.
pub open spec fn dec_digits(n: int) -> Seq<char>
    decreases n,
{
    if n < 10 {
        seq![digit_char(n)]
    } else {
        dec_digits(n / 10).push(digit_char(n % 10))
    }
}

/// The numeric value of a digit sequence.
pub open spec fn digits_val(s: Seq<char>) -> int
    decreases s.len(),
{
    if s.len() == 0 {
        0
    } else {
        digits_val(s.drop_last()) * 10 + (s.last() as int - 48)
    }
}

/// Whether every character of the sequence is a decimal digit.
pub open spec fn all_digits(s: Seq<char>) -> bool {
    forall|i: int| 0 <= i < s.len() ==> is_digit(#[trigger] s[i])
}

/// The digits of a numeral after an optional leading plus sign.
pub open spec fn numeral_body(s: Seq<char>) -> Seq<char> {
    if s.len() > 0 && s[0] == '+' {
        s.skip(1)
    } else {
        s
    }
}

/// What `u32::from_str` accepts: an optional leading plus sign, then at
/// least one digit, denoting a value that fits in the type.
pub open spec fn spec_parse_u32(s: Seq<char>) -> Option<u32> {
    if numeral_body(s).len() > 0 && all_digits(numeral_body(s)) && digits_val(numeral_body(s))
        <= u32::MAX {
        Some(digits_val(numeral_body(s)) as u32)
    } else {
        None
    }
}

/// The digit-string helper: the one-character string for a digit value.
fn digit_str(d: u32) -> (r: &'static str)
    requires
        d < 10,
    ensures
        r@ == seq![digit_char(d as int)],
{
    let r: &'static str = match d {
        0 => "0",
        1 => "1",
        2 => "2",
        3 => "3",
        4 => "4",
        5 => "5",
        6 => "6",
        7 => "7",
        8 => "8",
        _ => "9",
    };
    proof {
        reveal_strlit("0");
        reveal_strlit("1");
        reveal_strlit("2");
        reveal_strlit("3");
        reveal_strlit("4");
        reveal_strlit("5");
        reveal_strlit("6");
        reveal_strlit("7");
        reveal_strlit("8");
        reveal_strlit("9");
        assert(r@ =~= seq![digit_char(d as int)]);
    }
    r
}

/// Renders a number in its canonical decimal form.
pub fn u32_to_dec(n: u32) -> (r: String)
    ensures
        r@ == dec_digits(n as int),
    decreases n,
{
    if n < 10 {
        String::from_str(digit_str(n))
    } else {
        let mut s = u32_to_dec(n / 10);
        s.append(digit_str(n % 10));
        proof {
            assert(s@ =~= dec_digits(n as int));
        }
        s
    }
}

/// The canonical decimal rendering consists of digits.
pub proof fn lemma_dec_digits_are_digits(n: int)
    requires
        n >= 0,
    ensures
        dec_digits(n).len() > 0,
        all_digits(dec_digits(n)),
        dec_digits(n)[0] != '+',
    decreases n,
{
    if n < 10 {
        assert(is_digit(digit_char(n)));
    } else {
        lemma_dec_digits_are_digits(n / 10);
        assert(is_digit(digit_char(n % 10)));
        assert(dec_digits(n)[0] == dec_digits(n / 10)[0]);
    }
}

/// Reading back the canonical decimal rendering gives the number.
pub proof fn lemma_digits_val_of_dec(n: int)
    requires
        n >= 0,
    ensures
        digits_val(dec_digits(n)) == n,
    decreases n,
{
    if n < 10 {
        assert(dec_digits(n).drop_last() =~= Seq::<char>::empty());
        assert(digits_val(Seq::<char>::empty()) == 0);
        assert(digit_char(n) as int == n + 48);
    } else {
        lemma_digits_val_of_dec(n / 10);
        assert(dec_digits(n).drop_last() =~= dec_digits(n / 10));
        assert(digit_char(n % 10) as int == n % 10 + 48);
    }
}

/// Parsing the canonical decimal rendering of a value succeeds and
/// returns that value.
pub proof fn lemma_parse_of_dec(n: u32)
    ensures
        spec_parse_u32(dec_digits(n as int)) == Some(n),
{
    lemma_dec_digits_are_digits(n as int);
    lemma_digits_val_of_dec(n as int);
}

/// A digit extension can only grow the value, so a prefix that is
/// already too large for the type can never parse.
proof fn lemma_digits_val_monotone(s: Seq<char>, k: int)
    requires
        0 <= k <= s.len(),
        all_digits(s),
    ensures
        digits_val(s.take(k)) <= digits_val(s),
    decreases s.len() - k,
{
    if k < s.len() {
        assert forall|i: int| 0 <= i < s.take(k).len() implies is_digit(#[trigger] s.take(k)[i]) by {
            assert(s.take(k)[i] == s[i]);
        }
        lemma_digits_val_nonneg(s.take(k));
        let v = digits_val(s.take(k));
        let d = s[k] as int - 48;
        assert(s.take(k + 1).drop_last() =~= s.take(k));
        assert(s.take(k + 1).last() == s[k]);
        assert(is_digit(s[k]));
        assert(v <= v * 10 + d) by (nonlinear_arith)
            requires
                v >= 0,
                d >= 0,
        ;
        lemma_digits_val_monotone(s, k + 1);
    } else {
        assert(s.take(k) =~= s);
    }
}

/// The value of a digit sequence is non-negative.
proof fn lemma_digits_val_nonneg(s: Seq<char>)
    requires
        all_digits(s),
    ensures
        digits_val(s) >= 0,
    decreases s.len(),
{
    if s.len() > 0 {
        assert(all_digits(s.drop_last())) by {
            assert(forall|i: int|
                0 <= i < s.len() - 1 ==> is_digit(#[trigger] s.drop_last()[i]));
        }
        lemma_digits_val_nonneg(s.drop_last());
        assert(is_digit(s.last()));
    }
}

/// Parses an unsigned number the way `u32::from_str` reads it: an
/// optional plus sign, then digits; `None` on any other shape or when
/// the value does not fit.
pub fn parse_u32(s: &str) -> (r: Option<u32>)
    ensures
        r == spec_parse_u32(s@),
{
    let len = s.unicode_len();
    let start: usize = if len > 0 && s.get_char(0) == '+' {
        1
    } else {
        0
    };
    let ghost body = numeral_body(s@);
    proof {
        assert(body =~= s@.skip(start as int));
    }
    if len == start {
        return None;
    }
    let mut acc: u32 = 0;
    let mut over: bool = false;
    let mut i: usize = start;
    while i < len
        invariant
            len == s@.len(),
            start <= i <= len,
            body == numeral_body(s@),
            body == s@.skip(start as int),
            forall|j: int| start <= j < i ==> is_digit(#[trigger] s@[j]),
            !over ==> acc == digits_val(body.take(i - start)),
            over ==> digits_val(body.take(i - start)) > u32::MAX,
            forall|j: int| 0 <= j < body.len() ==> body[j] == s@[start + j],
        decreases len - i,
    {
        let c = s.get_char(i);
        if c < '0' || c > '9' {
            proof {
                assert(body[i - start] == s@[i as int]);
                assert(!is_digit(body[i - start]));
                assert(!all_digits(body));
            }
            return None;
        }
        let d: u32 = (c as u32) - 48;
        proof {
            assert(body.take(i - start + 1).drop_last() =~= body.take(i - start));
            assert(body.take(i - start + 1).last() == s@[i as int]);
        }
        if over {
            proof {
                lemma_digits_val_monotone_step(body.take(i - start + 1));
            }
        } else if acc > (u32::MAX - d) / 10 {
            proof {
                let v = digits_val(body.take(i - start)) as int;
                assert(v * 10 + d > u32::MAX) by (nonlinear_arith)
                    requires
                        v == acc as int,
                        acc > (u32::MAX - d) / 10,
                        d < 10,
                ;
            }
            over = true;
        } else {
            proof {
                let v = acc as int;
                assert(v * 10 + d <= u32::MAX) by (nonlinear_arith)
                    requires
                        0 <= v,
                        v <= (u32::MAX - d) / 10,
                        0 <= d < 10,
                ;
            }
            acc = acc * 10 + d;
        }
        i = i + 1;
    }
    proof {
        assert(body.take(len - start) =~= body);
        assert(all_digits(body));
    }
    if over {
        None
    } else {
        Some(acc)
    }
}

/// A digit sequence whose prefix is already past the largest `u32`
/// stays past it when one more digit is read.
proof fn lemma_digits_val_monotone_step(s: Seq<char>)
    requires
        s.len() > 0,
        is_digit(s.last()),
        digits_val(s.drop_last()) > u32::MAX,
    ensures
        digits_val(s) > u32::MAX,
{
    let v = digits_val(s.drop_last());
    assert(v * 10 + (s.last() as int - 48) > u32::MAX) by (nonlinear_arith)
        requires
            v > u32::MAX,
            s.last() as int - 48 >= 0,
    ;
}

} // verus!

