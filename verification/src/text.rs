//! Text helpers over strings viewed as sequences of characters: prefix and
//! substring tests, replacement of every occurrence of a pattern, decimal
//! rendering of integers and decimal parsing of port numbers.
use vstd::prelude::*;

verus! {

// ---------------------------------------------------------------------------
// Specifications
// ---------------------------------------------------------------------------

/// `s` begins with `p`.
pub open spec fn has_prefix(s: Seq<char>, p: Seq<char>) -> bool {
    p.len() <= s.len() && s.take(p.len() as int) == p
}

/// `p` occurs in `s` at position `i`.
pub open spec fn occurs_at(s: Seq<char>, p: Seq<char>, i: int) -> bool {
    0 <= i && i + p.len() <= s.len() && s.subrange(i, i + p.len()) == p
}

/// `p` occurs somewhere in `s` (the empty pattern occurs in every string).
pub open spec fn has_substring(s: Seq<char>, p: Seq<char>) -> bool {
    exists|i: int| occurs_at(s, p, i)
}

/// `s` with every occurrence of the non-empty pattern `pat` replaced by `rep`,
/// scanning from the left and never letting two replaced occurrences overlap.
pub open spec fn replaced(s: Seq<char>, pat: Seq<char>, rep: Seq<char>) -> Seq<char>
    decreases s.len(),
{
    if s.len() == 0 || pat.len() == 0 {
        s
    } else if has_prefix(s, pat) {
        rep + replaced(s.skip(pat.len() as int), pat, rep)
    } else {
        seq![s[0]] + replaced(s.skip(1), pat, rep)
    }
}

/// The character of the decimal digit `d` (for `d < 10`).
pub open spec fn digit_char(d: nat) -> char {
    (48 + d) as char
}

/// `c` is one of `'0'..='9'`.
pub open spec fn is_digit(c: char) -> bool {
    '0' <= c && c <= '9'
}

/// The value of the decimal digit `c`.
pub open spec fn digit_value(c: char) -> int {
    c as int - 48
}

/// Decimal digits of `n`, most significant first, without leading zeros.
pub open spec fn decimal(n: nat) -> Seq<char>
    decreases n,
{
    if n < 10 {
        seq![digit_char(n)]
    } else {
        decimal(n / 10).push(digit_char(n % 10))
    }
}

/// Decimal rendering of a signed integer: a minus sign before the digits of
/// its magnitude when it is negative.
pub open spec fn signed_decimal(n: int) -> Seq<char> {
    if n < 0 {
        seq!['-'] + decimal((-n) as nat)
    } else {
        decimal(n as nat)
    }
}

/// Every character of `s` is a decimal digit.
pub open spec fn all_digits(s: Seq<char>) -> bool {
    forall|i: int| 0 <= i < s.len() ==> is_digit(#[trigger] s[i])
}

/// The number that the decimal digits `s` denote.
pub open spec fn digits_value(s: Seq<char>) -> int
    decreases s.len(),
{
    if s.len() == 0 {
        0
    } else {
        digits_value(s.drop_last()) * 10 + digit_value(s.last())
    }
}

/// The digits of a number text after an optional leading `'+'`.
pub open spec fn unsigned_body(s: Seq<char>) -> Seq<char> {
    if s.len() > 0 && s[0] == '+' {
        s.drop_first()
    } else {
        s
    }
}

/// What parsing `s` as a `u16` gives: an optional `'+'`, then at least one
/// decimal digit and nothing else, denoting a value that fits in 16 bits.
pub open spec fn parsed_u16(s: Seq<char>) -> Option<u16> {
    let body = unsigned_body(s);
    if body.len() > 0 && all_digits(body) && digits_value(body) <= 65535 {
        Some(digits_value(body) as u16)
    } else {
        None
    }
}

// ---------------------------------------------------------------------------
// Lemmas
// ---------------------------------------------------------------------------

/// The digits of a number are all decimal digits, and there is at least one.
pub proof fn lemma_decimal_digits(n: nat)
    ensures
        decimal(n).len() >= 1,
        all_digits(decimal(n)),
        digits_value(decimal(n)) == n,
    decreases n,
{
    let c = digit_char(n % 10);
    assert(c as int == 48 + n % 10);
    assert(digit_value(c) == n % 10);
    assert(is_digit(c));
    if n >= 10 {
        lemma_decimal_digits(n / 10);
        assert((n / 10) * 10 + n % 10 == n) by (nonlinear_arith);
        let d = decimal(n);
        assert(d.drop_last() == decimal(n / 10));
        assert(d.last() == c);
        assert(digits_value(d) == digits_value(d.drop_last()) * 10 + digit_value(d.last()));
        assert(digits_value(d) == (n / 10) * 10 + n % 10);
        assert forall|i: int| 0 <= i < d.len() implies is_digit(#[trigger] d[i]) by {
            if i < d.len() - 1 {
                assert(d[i] == decimal(n / 10)[i]);
            }
        }
    } else {
        let d = decimal(n);
        assert(d.drop_last().len() == 0);
        assert(digits_value(d.drop_last()) == 0);
        assert(d.last() == c);
        assert(n % 10 == n);
    }
}

/// Different numbers are written differently in decimal.
pub proof fn law_signed_decimal_injective(a: int, b: int)
    ensures
        signed_decimal(a) == signed_decimal(b) <==> a == b,
{
    if signed_decimal(a) == signed_decimal(b) {
        if a >= 0 && b >= 0 {
            lemma_decimal_digits(a as nat);
            lemma_decimal_digits(b as nat);
        } else if a < 0 && b < 0 {
            let da = decimal((-a) as nat);
            let db = decimal((-b) as nat);
            assert((seq!['-'] + da).drop_first() =~= da);
            assert((seq!['-'] + db).drop_first() =~= db);
            lemma_decimal_digits((-a) as nat);
            lemma_decimal_digits((-b) as nat);
        } else if a < 0 {
            lemma_decimal_digits(b as nat);
            assert((seq!['-'] + decimal((-a) as nat))[0] == '-');
            assert(is_digit(decimal(b as nat)[0]));
        } else {
            lemma_decimal_digits(a as nat);
            assert((seq!['-'] + decimal((-b) as nat))[0] == '-');
            assert(is_digit(decimal(a as nat)[0]));
        }
    }
}

/// A digit string denotes at least what any of its prefixes denotes.
pub proof fn lemma_digits_value_prefix(s: Seq<char>, k: int)
    requires
        all_digits(s),
        0 <= k <= s.len(),
    ensures
        0 <= digits_value(s.take(k)) <= digits_value(s),
    decreases s.len(),
{
    if s.len() == 0 {
        assert(s.take(k) == s);
    } else if k == s.len() {
        assert(s.take(k) == s);
        lemma_digits_value_prefix(s.drop_last(), k - 1);
        assert(s.drop_last().take(k - 1) == s.drop_last());
    } else {
        lemma_digits_value_prefix(s.drop_last(), k);
        assert(s.drop_last().take(k) == s.take(k));
        let x = digits_value(s.drop_last());
        assert(x * 10 + digit_value(s.last()) >= x) by (nonlinear_arith)
            requires
                x >= 0,
                digit_value(s.last()) >= 0,
        ;
    }
}

// ---------------------------------------------------------------------------
// Executable functions
// ---------------------------------------------------------------------------

/// The characters of `s`, in order.
pub fn chars_of(s: &str) -> (v: Vec<char>)
    ensures
        v@ == s@,
{
    let mut v: Vec<char> = Vec::new();
    for c in it: s.chars()
        invariant
            v@ == it.seq().take(it.index() as int),
            it.seq() == s@,
    {
        v.push(c);
    }
    v
}

/// Appends the character `c` to `s` (`String::push`).
#[verifier::external_body]
fn push_char(s: &mut String, c: char)
    ensures
        final(s)@ == old(s)@.push(c),
{
    s.push(c);
}

/// A string holding the characters `v`.
pub fn string_of(v: &Vec<char>) -> (s: String)
    ensures
        s@ == v@,
{
    let mut s = String::new();
    for i in 0..v.len()
        invariant
            s@ == v@.take(i as int),
    {
        push_char(&mut s, v[i]);
        assert(v@.take(i + 1) == v@.take(i as int).push(v@[i as int]));
    }
    assert(v@.take(v.len() as int) == v@);
    s
}

/// A string holding the characters of `a` followed by those of `b`.
pub fn concat2(a: &str, b: &str) -> (s: String)
    ensures
        s@ == a@ + b@,
{
    let mut s = String::from_str(a);
    s.append(b);
    s
}

/// A string holding the characters of `a`, `b` and `c`, in that order.
pub fn concat3(a: &str, b: &str, c: &str) -> (s: String)
    ensures
        s@ == a@ + b@ + c@,
{
    let mut s = String::from_str(a);
    s.append(b);
    s.append(c);
    s
}

/// Whether `p` occurs in `s` at position `i`.
fn matches_at(s: &Vec<char>, p: &Vec<char>, i: usize) -> (r: bool)
    requires
        i + p@.len() <= s@.len(),
    ensures
        r == occurs_at(s@, p@, i as int),
{
    let slen = s.len();
    let mut j: usize = 0;
    while j < p.len()
        invariant
            slen == s@.len(),
            i + p@.len() <= s@.len(),
            j <= p@.len(),
            forall|k: int| 0 <= k < j ==> s@[i + k] == p@[k],
        decreases p@.len() - j,
    {
        assert(i + j < s@.len());
        if s[i + j] != p[j] {
            assert(s@.subrange(i as int, i + p@.len())[j as int] != p@[j as int]);
            return false;
        }
        j = j + 1;
    }
    assert(s@.subrange(i as int, i + p@.len()) =~= p@);
    true
}

/// Whether the characters `s` begin with the characters `p`.
pub fn chars_start_with(s: &Vec<char>, p: &Vec<char>) -> (r: bool)
    ensures
        r == has_prefix(s@, p@),
{
    if p.len() > s.len() {
        return false;
    }
    let r = matches_at(s, p, 0);
    assert(s@.subrange(0, p@.len() as int) == s@.take(p@.len() as int));
    r
}

/// Whether `s` begins with `p`.
pub fn starts_with(s: &str, p: &str) -> (r: bool)
    ensures
        r == has_prefix(s@, p@),
{
    chars_start_with(&chars_of(s), &chars_of(p))
}

/// Whether `p` occurs somewhere in `s`.
pub fn contains(s: &str, p: &str) -> (r: bool)
    ensures
        r == has_substring(s@, p@),
{
    let sv = chars_of(s);
    let pv = chars_of(p);
    if pv.len() > sv.len() {
        assert forall|i: int| !occurs_at(s@, p@, i) by {}
        return false;
    }
    let last = sv.len() - pv.len();
    let mut i: usize = 0;
    loop
        invariant
            sv@ == s@,
            pv@ == p@,
            last == sv@.len() - pv@.len(),
            i <= last,
            forall|k: int| 0 <= k < i ==> !occurs_at(s@, p@, k),
        ensures
            forall|k: int| 0 <= k <= last ==> !occurs_at(s@, p@, k),
        decreases last - i,
    {
        if matches_at(&sv, &pv, i) {
            return true;
        }
        if i == last {
            break;
        }
        i = i + 1;
    }
    assert forall|k: int| !occurs_at(s@, p@, k) by {
        if 0 <= k <= last {
        }
    }
    false
}

/// Whether `a` and `b` hold the same characters.
pub fn same_text(a: &str, b: &str) -> (r: bool)
    ensures
        r == (a@ == b@),
{
    let av = chars_of(a);
    let bv = chars_of(b);
    if av.len() != bv.len() {
        return false;
    }
    let r = matches_at(&av, &bv, 0);
    assert(av@.subrange(0, bv@.len() as int) == av@);
    r
}

/// `s` with every occurrence of the non-empty `pat` replaced by `rep`, as
/// `str::replace` does.
pub fn replace_all(s: &str, pat: &str, rep: &str) -> (r: String)
    requires
        pat@.len() > 0,
    ensures
        r@ == replaced(s@, pat@, rep@),
{
    let sv = chars_of(s);
    let pv = chars_of(pat);
    let mut out = String::new();
    let mut i: usize = 0;
    assert(sv@.skip(0) == sv@);
    while i < sv.len()
        invariant
            sv@ == s@,
            pv@ == pat@,
            pat@.len() > 0,
            i <= sv@.len(),
            replaced(s@, pat@, rep@) == out@ + replaced(s@.skip(i as int), pat@, rep@),
        decreases sv@.len() - i,
    {
        let ghost rest = s@.skip(i as int);
        if pv.len() <= sv.len() - i && matches_at(&sv, &pv, i) {
            assert(rest.take(pat@.len() as int) == s@.subrange(i as int, i + pat@.len()));
            assert(rest.skip(pat@.len() as int) == s@.skip(i + pat@.len()));
            out.append(rep);
            i = i + pv.len();
        } else {
            assert(!has_prefix(rest, pat@)) by {
                if has_prefix(rest, pat@) {
                    assert(rest.take(pat@.len() as int) == s@.subrange(
                        i as int,
                        i + pat@.len(),
                    ));
                }
            }
            assert(rest.skip(1) == s@.skip(i + 1));
            assert(rest[0] == s@[i as int]);
            let c = sv[i];
            push_char(&mut out, c);
            assert(out@ == (out@.drop_last() + seq![c]));
            i = i + 1;
        }
    }
    assert(s@.skip(i as int).len() == 0);
    assert(out@ + replaced(s@.skip(i as int), pat@, rep@) == out@);
    out
}

/// The decimal digits of `n`.
pub fn decimal_u64(n: u64) -> (s: String)
    ensures
        s@ == decimal(n as nat),
{
    // `rev` holds the digits below `m`, least significant first.
    let mut rev: Vec<char> = Vec::new();
    let mut m: u64 = n;
    while m >= 10
        invariant
            decimal(n as nat) == decimal(m as nat) + rev@.reverse(),
        decreases m,
    {
        let d = (m % 10) as u8;
        let c = (48u8 + d) as char;
        assert(c == digit_char((m % 10) as nat));
        let ghost old_rev = rev@;
        rev.push(c);
        assert(rev@.reverse() == seq![c] + old_rev.reverse());
        assert(decimal(m as nat) == decimal((m / 10) as nat).push(c));
        m = m / 10;
    }
    let first = (48u8 + (m as u8)) as char;
    assert(decimal(m as nat) == seq![first]);
    let mut s = String::new();
    push_char(&mut s, first);
    let mut k: usize = rev.len();
    while k > 0
        invariant
            k <= rev@.len(),
            decimal(n as nat) == seq![first] + rev@.reverse(),
            s@ == seq![first] + rev@.reverse().take((rev@.len() - k) as int),
        decreases k,
    {
        k = k - 1;
        push_char(&mut s, rev[k]);
        assert(rev@.reverse().take((rev@.len() - k) as int) == rev@.reverse().take(
            (rev@.len() - k - 1) as int,
        ).push(rev@[k as int]));
    }
    assert(rev@.reverse().take(rev@.len() as int) == rev@.reverse());
    s
}

/// The decimal rendering of `n`, with a minus sign when it is negative, as
/// `i64::to_string` gives it.
pub fn decimal_i64(n: i64) -> (s: String)
    ensures
        s@ == signed_decimal(n as int),
{
    proof {
        reveal_strlit("-");
    }
    if n < 0 {
        let magnitude: u64 = (0i128 - (n as i128)) as u64;
        let digits = decimal_u64(magnitude);
        concat2("-", digits.as_str())
    } else {
        decimal_u64(n as u64)
    }
}

/// Parses `s` as a `u16` the way `str::parse::<u16>` does: an optional `'+'`
/// and then decimal digits only; `None` for anything else or for a value
/// above 65535.
pub fn parse_u16(s: &str) -> (r: Option<u16>)
    ensures
        r == parsed_u16(s@),
{
    let v = chars_of(s);
    let start: usize = if v.len() > 0 && v[0] == '+' {
        1
    } else {
        0
    };
    let ghost body = unsigned_body(s@);
    assert(body == v@.skip(start as int));
    if start >= v.len() {
        assert(body.len() == 0);
        return None;
    }
    let mut acc: u32 = 0;
    let mut i: usize = start;
    while i < v.len()
        invariant
            v@ == s@,
            body == v@.skip(start as int),
            body == unsigned_body(s@),
            start <= i <= v@.len(),
            all_digits(body.take(i - start)),
            acc as int == digits_value(body.take(i - start)),
            acc <= 65535,
        decreases v@.len() - i,
    {
        let c = v[i];
        if !('0' <= c && c <= '9') {
            assert(body[i - start] == c);
            assert(!is_digit(body[i - start]));
            assert(!all_digits(body));
            return None;
        }
        let d = (c as u32) - 48;
        assert(acc * 10 + d <= 655359) by (nonlinear_arith)
            requires
                acc <= 65535,
                d <= 9,
        ;
        let next = acc * 10 + d;
        let ghost t = body.take(i + 1 - start);
        assert(t.drop_last() == body.take(i - start));
        assert(t.last() == c);
        assert(digits_value(t) == next);
        assert(all_digits(t)) by {
            assert forall|k: int| 0 <= k < t.len() implies is_digit(#[trigger] t[k]) by {
                if k < t.len() - 1 {
                    assert(t[k] == body.take(i - start)[k]);
                }
            }
        }
        if next > 65535 {
            assert(all_digits(body) ==> digits_value(body) > 65535) by {
                if all_digits(body) {
                    lemma_digits_value_prefix(body, i + 1 - start);
                }
            }
            return None;
        }
        acc = next;
        i = i + 1;
    }
    assert(body.take(i - start) == body);
    Some(acc as u16)
}

} // verus!
