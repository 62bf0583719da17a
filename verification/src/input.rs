//! Validated live-input binding: a free-text buffer coupled to a parsed
//! fixed-point value and a validity indicator.
//!
//! Every edit replaces the buffer and recomputes the parse and the validity
//! flag together, so the triple is never observably inconsistent. The accepted
//! grammar is a plain signed decimal: an optional `+` or `-`, then digits with
//! at most one `.`, at least one digit in all, at most twelve integer digits;
//! fraction digits beyond the sixth are read but do not change the value
//! (scalars count millionths).

use vstd::prelude::*;
use crate::fixed::SCALE;

verus! {

/// The visual style a numeric entry should be drawn with.
#[derive(Clone, Copy, Debug, PartialEq, Eq, Structural)]
pub enum Theme {
    Valid,
    Invalid,
}

/// A decimal digit.
pub open spec fn is_digit_char(c: char) -> bool {
    48 <= c as int <= 57
}

/// The numeric value of a digit character.
pub open spec fn digit_val(c: char) -> int {
    c as int - 48
}

/// Every character of `s` is a digit.
pub open spec fn all_digits(s: Seq<char>) -> bool {
    forall|i: int| 0 <= i < s.len() ==> is_digit_char(#[trigger] s[i])
}

/// The value of a digit string, most significant first.
pub open spec fn digits_val(s: Seq<char>) -> int
    decreases s.len(),
{
    if s.len() == 0 {
        0
    } else {
        10 * digits_val(s.drop_last()) + digit_val(s.last())
    }
}

/// Powers of ten.
pub open spec fn pow10(k: int) -> int
    decreases k,
{
    if k <= 0 {
        1
    } else {
        10 * pow10(k - 1)
    }
}

/// Length of a leading sign: one for `+` or `-`, else zero.
pub open spec fn sign_len(s: Seq<char>) -> int {
    if s.len() > 0 && (s[0] == '-' || s[0] == '+') {
        1
    } else {
        0
    }
}

/// The text denotes a negated value.
pub open spec fn is_negative(s: Seq<char>) -> bool {
    s.len() > 0 && s[0] == '-'
}

/// Position of the first `.` at or after `i`, or the length if there is none.
pub open spec fn dot_pos(s: Seq<char>, i: int) -> int
    recommends
        0 <= i <= s.len(),
    decreases s.len() - i,
{
    if i < 0 || i >= s.len() {
        s.len() as int
    } else if s[i] == '.' {
        i
    } else {
        dot_pos(s, i + 1)
    }
}

/// The integer digits: between the sign and the first dot.
pub open spec fn int_part(s: Seq<char>) -> Seq<char> {
    s.subrange(sign_len(s), dot_pos(s, sign_len(s)))
}

/// The fraction digits: after the first dot, if any.
pub open spec fn frac_part(s: Seq<char>) -> Seq<char> {
    if dot_pos(s, sign_len(s)) < s.len() {
        s.subrange(dot_pos(s, sign_len(s)) + 1, s.len() as int)
    } else {
        Seq::empty()
    }
}

/// The text is a well-formed decimal of admissible size.
pub open spec fn grammar_ok(s: Seq<char>) -> bool {
    &&& all_digits(int_part(s))
    &&& all_digits(frac_part(s))
    &&& int_part(s).len() + frac_part(s).len() >= 1
    &&& int_part(s).len() <= 12
}

/// The denoted magnitude in millionths: the integer digits scaled up, plus the
/// first six fraction digits scaled to their place.
pub open spec fn magnitude(s: Seq<char>) -> int {
    let fp = frac_part(s);
    let m = if fp.len() >= 6 {
        6int
    } else {
        fp.len() as int
    };
    digits_val(int_part(s)) * (SCALE as int) + digits_val(fp.take(m)) * pow10(6 - m)
}

/// The parse of a text: its signed magnitude, or `None` when the grammar does
/// not match.
pub open spec fn parse_scalar_spec(s: Seq<char>) -> Option<int> {
    if grammar_ok(s) {
        if is_negative(s) {
            Some(-magnitude(s))
        } else {
            Some(magnitude(s))
        }
    } else {
        None
    }
}

/// Any position with the first-dot properties is `dot_pos`.
proof fn lemma_dot_pos_unique(s: Seq<char>, i: int, d: int)
    requires
        0 <= i <= d <= s.len(),
        forall|t: int| i <= t < d ==> s[t] != '.',
        d < s.len() ==> s[d] == '.',
    ensures
        dot_pos(s, i) == d,
    decreases d - i,
{
    if i < d {
        lemma_dot_pos_unique(s, i + 1, d);
    }
}

/// Powers of ten are positive.
proof fn lemma_pow10_pos(k: int)
    ensures
        pow10(k) >= 1,
    decreases (if k > 0 { k } else { 0 }),
{
    if k > 0 {
        lemma_pow10_pos(k - 1);
    }
}

/// Powers of ten are monotone.
proof fn lemma_pow10_mono(a: int, b: int)
    requires
        a <= b,
    ensures
        pow10(a) <= pow10(b),
    decreases (if b > 0 { b } else { 0 }),
{
    if b > 0 && a < b {
        lemma_pow10_mono(a, b - 1);
        lemma_pow10_pos(b - 1);
    }
}

/// Powers of ten multiply by adding exponents.
proof fn lemma_pow10_add(a: int, b: int)
    requires
        a >= 0,
        b >= 0,
    ensures
        pow10(a + b) == pow10(a) * pow10(b),
    decreases a,
{
    if a == 0 {
        assert(pow10(b) == 1 * pow10(b)) by (nonlinear_arith);
    } else {
        lemma_pow10_add(a - 1, b);
        assert(pow10(a) * pow10(b) == 10 * (pow10(a - 1) * pow10(b))) by (nonlinear_arith)
            requires
                pow10(a) == 10 * pow10(a - 1),
        ;
    }
}

/// The small powers of ten, as literals.
proof fn lemma_pow10_values()
    ensures
        pow10(0) == 1,
        pow10(1) == 10,
        pow10(2) == 100,
        pow10(3) == 1_000,
        pow10(4) == 10_000,
        pow10(5) == 100_000,
        pow10(6) == 1_000_000,
        pow10(12) == 1_000_000_000_000,
{
    assert(pow10(0) == 1);
    assert(pow10(1) == 10);
    assert(pow10(2) == 100);
    assert(pow10(3) == 1_000);
    assert(pow10(4) == 10_000);
    assert(pow10(5) == 100_000);
    assert(pow10(6) == 1_000_000);
    assert(pow10(7) == 10_000_000);
    assert(pow10(8) == 100_000_000);
    assert(pow10(9) == 1_000_000_000);
    assert(pow10(10) == 10_000_000_000);
    assert(pow10(11) == 100_000_000_000);
    assert(pow10(12) == 1_000_000_000_000);
}

/// A digit string's value is nonnegative and below ten to its length.
proof fn lemma_digits_val_bound(s: Seq<char>)
    requires
        all_digits(s),
    ensures
        0 <= digits_val(s) < pow10(s.len() as int),
    decreases s.len(),
{
    if s.len() == 0 {
    } else {
        let h = s.drop_last();
        assert(all_digits(h));
        lemma_digits_val_bound(h);
        assert(pow10(s.len() as int) == 10 * pow10(h.len() as int));
        assert(is_digit_char(s.last()));
    }
}

/// Appending a digit multiplies the value by ten and adds the digit.
proof fn lemma_digits_val_push(s: Seq<char>, c: char)
    ensures
        digits_val(s.push(c)) == 10 * digits_val(s) + digit_val(c),
{
    assert(s.push(c).drop_last() =~= s);
    assert(s.push(c).last() == c);
}

/// Position of the first dot at or after `start`, or the length if none.
fn find_first_dot(text: &str, start: usize) -> (dot: usize)
    requires
        start as int <= text@.len(),
    ensures
        start <= dot <= text@.len(),
        forall|t: int| start <= t < dot ==> text@[t] != '.',
        dot < text@.len() ==> text@[dot as int] == '.',
{
    let n: usize = text.unicode_len();
    let mut dot: usize = start;
    while dot < n
        invariant
            start <= dot <= n,
            n == text@.len(),
            forall|t: int| start <= t < dot ==> text@[t] != '.',
        ensures
            start <= dot <= n,
            forall|t: int| start <= t < dot ==> text@[t] != '.',
            dot < n ==> text@[dot as int] == '.',
        decreases n - dot,
    {
        let c = text.get_char(dot);
        if c == '.' {
            break;
        }
        dot = dot + 1;
    }
    dot
}

/// Parse a decimal text into a fixed-point scalar.
///
/// Returns `Some` exactly when the grammar matches, and then the signed
/// magnitude that `parse_scalar_spec` denotes.
#[verifier::loop_isolation(false)]
pub fn parse_scalar(text: &str) -> (r: Option<i64>)
    ensures
        r is Some <==> parse_scalar_spec(text@) is Some,
        r is Some ==> r->Some_0 as int == parse_scalar_spec(text@)->Some_0,
{
    let ghost s = text@;
    let n: usize = text.unicode_len();
    let mut start: usize = 0;
    let mut neg: bool = false;
    if n > 0 {
        let c0 = text.get_char(0);
        if c0 == '-' {
            neg = true;
            start = 1;
        } else if c0 == '+' {
            start = 1;
        }
    }
    assert(start as int == sign_len(s));
    assert(neg == is_negative(s));
    // locate the first dot
    let dot: usize = find_first_dot(text, start);
    proof {
        lemma_dot_pos_unique(s, start as int, dot as int);
    }
    let ghost ip = int_part(s);
    assert(ip =~= s.subrange(start as int, dot as int));
    // integer digits
    let mut acc: u64 = 0;
    let mut j: usize = start;
    while j < dot
        invariant
            start <= j <= dot <= n,
            n == s.len(),
            s == text@,
            j - start <= 12,
            ip =~= s.subrange(start as int, dot as int),
            forall|t: int| start <= t < j ==> is_digit_char(#[trigger] s[t]),
            acc == digits_val(s.subrange(start as int, j as int)),
            acc <= 999_999_999_999,
        decreases dot - j,
    {
        let c = text.get_char(j);
        let d: u32 = c as u32;
        if d < 48 || d > 57 {
            // a non-digit in the integer part: the grammar does not match
            assert(!is_digit_char(s[j as int]));
            assert(ip[j as int - start as int] == s[j as int]);
            assert(!all_digits(ip));
            return None;
        }
        if j - start >= 12 {
            // a thirteenth integer digit: the number is out of range
            assert(ip.len() > 12);
            return None;
        }
        proof {
            let pre = s.subrange(start as int, j as int);
            assert(s.subrange(start as int, j as int + 1) =~= pre.push(s[j as int]));
            lemma_digits_val_push(pre, s[j as int]);
            assert(all_digits(pre));
            lemma_digits_val_bound(pre);
            lemma_pow10_mono(pre.len() as int, 11);
            lemma_pow10_values();
            assert(pow10(11) == 100_000_000_000);
        }
        acc = acc * 10 + ((d - 48) as u64);
        j = j + 1;
    }
    assert(acc == digits_val(ip));
    assert(all_digits(ip));
    assert(ip.len() <= 12);
    // fraction digits: all must be digits, the first six carry value
    let ghost fp = frac_part(s);
    let mut facc: u64 = 0;
    let mut fcnt: usize = 0;
    if dot < n {
        assert(fp =~= s.subrange(dot as int + 1, n as int));
        let mut k: usize = dot + 1;
        while k < n
            invariant
                dot as int + 1 <= k as int <= n,
                n == s.len(),
                s == text@,
                fp =~= s.subrange(dot as int + 1, n as int),
                forall|t: int| dot as int + 1 <= t < k ==> is_digit_char(#[trigger] s[t]),
                fcnt <= 6,
                k - (dot + 1) <= 6 ==> fcnt == k - (dot + 1),
                k - (dot + 1) > 6 ==> fcnt == 6,
                facc == digits_val(s.subrange(dot as int + 1, dot as int + 1 + fcnt as int)),
                facc <= 999_999,
            decreases n - k,
        {
            let c = text.get_char(k);
            let d: u32 = c as u32;
            if d < 48 || d > 57 {
                // a non-digit (or second dot) in the fraction: no match
                assert(!is_digit_char(s[k as int]));
                assert(fp[k - (dot as int + 1)] == s[k as int]);
                assert(!all_digits(fp));
                return None;
            }
            if fcnt < 6 {
                proof {
                    let pre = s.subrange(dot as int + 1, dot as int + 1 + fcnt as int);
                    assert(s.subrange(dot as int + 1, dot as int + 1 + fcnt as int + 1) =~= pre.push(
                        s[k as int],
                    ));
                    lemma_digits_val_push(pre, s[k as int]);
                    assert(all_digits(pre));
                    lemma_digits_val_bound(pre);
                    lemma_pow10_mono(pre.len() as int, 5);
                    lemma_pow10_values();
                }
                facc = facc * 10 + ((d - 48) as u64);
                fcnt = fcnt + 1;
            }
            k = k + 1;
        }
        assert(all_digits(fp));
    } else {
        assert(fp =~= Seq::<char>::empty());
        assert(digits_val(fp.take(0)) == 0) by {
            assert(fp.take(0) =~= Seq::<char>::empty());
        }
    }
    // emptiness: at least one digit somewhere
    let int_len: usize = dot - start;
    let frac_len: usize = if dot < n {
        n - dot - 1
    } else {
        0
    };
    if int_len == 0 && frac_len == 0 {
        assert(int_part(s).len() + frac_part(s).len() == 0);
        return None;
    }
    assert(grammar_ok(s));
    // scale the fraction to millionths
    let scale: u64 = if fcnt == 0 {
        1_000_000
    } else if fcnt == 1 {
        100_000
    } else if fcnt == 2 {
        10_000
    } else if fcnt == 3 {
        1_000
    } else if fcnt == 4 {
        100
    } else if fcnt == 5 {
        10
    } else {
        1
    };
    proof {
        lemma_pow10_values();
    }
    assert(scale as int == pow10(6 - fcnt as int));
    let ghost m = if fp.len() >= 6 {
        6int
    } else {
        fp.len() as int
    };
    assert(fcnt as int == m);
    assert(fp.take(m) =~= s.subrange(dot as int + 1, dot as int + 1 + fcnt as int) || fp.len()
        == 0);
    proof {
        if fp.len() == 0 {
            assert(fp.take(m) =~= Seq::<char>::empty());
        }
        lemma_digits_val_bound(fp.take(m));
        lemma_pow10_mono(m, 6);
        lemma_pow10_values();
        assert((facc as int) * (scale as int) <= (pow10(m) - 1) * pow10(6 - m))
            by (nonlinear_arith)
            requires
                0 <= facc as int <= pow10(m) - 1,
                scale as int == pow10(6 - m),
                pow10(6 - m) >= 1,
        ;
        lemma_pow10_add(m, 6 - m);
        assert((pow10(m) - 1) * pow10(6 - m) == pow10(6) - pow10(6 - m)) by (nonlinear_arith)
            requires
                pow10(m) * pow10(6 - m) == pow10(6),
        ;
        lemma_digits_val_bound(ip);
        lemma_pow10_mono(ip.len() as int, 12);
    }
    let fscaled: u64 = facc * scale;
    assert(fscaled as int == digits_val(fp.take(m)) * pow10(6 - m));
    assert(fscaled <= 999_999);
    assert(acc <= 999_999_999_999);
    let mag: u64 = acc * 1_000_000 + fscaled;
    assert(mag as int == magnitude(s));
    if neg {
        Some(-(mag as i64))
    } else {
        Some(mag as i64)
    }
}

/// The parse, truncated into the executable scalar type (every parsed value
/// fits, by the twelve-digit bound).
pub open spec fn parse_scalar_i64(s: Seq<char>) -> Option<i64> {
    match parse_scalar_spec(s) {
        Some(v) => Some(v as i64),
        None => None,
    }
}

/// A validated numeric entry: the raw text, its parse and the validity flag,
/// updated together on every edit.
pub struct TextInput {
    /// The text as last edited, valid or not.
    pub buffer: String,
    /// The parse of the buffer, if it succeeded.
    pub parsed: Option<i64>,
    /// Whether the buffer parses; drives the entry's visual style.
    pub valid: bool,
}

impl TextInput {
    /// The triple is consistent: the flag and the value are exactly the parse
    /// of the buffer.
    pub open spec fn wf(&self) -> bool {
        &&& self.parsed == parse_scalar_i64(self.buffer@)
        &&& self.valid <==> self.parsed is Some
    }

    /// Bind an initial text, parsing it at once.
    pub fn new(text: String) -> (r: TextInput)
        ensures
            r.wf(),
            r.buffer@ == text@,
    {
        let parsed = parse_scalar(text.as_str());
        let valid = parsed.is_some();
        TextInput { buffer: text, parsed, valid }
    }

    /// Replace the buffer with an edited text: the parse and the flag are
    /// recomputed in the same step, and the parse is handed back so the caller
    /// can forward a valid value into the parameter it feeds.
    pub fn on_edit(&mut self, text: String) -> (parsed: Option<i64>)
        ensures
            final(self).wf(),
            final(self).buffer@ == text@,
            final(self).parsed == parse_scalar_i64(text@),
            final(self).valid <==> parse_scalar_spec(text@) is Some,
            parsed == final(self).parsed,
    {
        let p = parse_scalar(text.as_str());
        self.buffer = text;
        self.parsed = p;
        self.valid = p.is_some();
        p
    }

    /// The style the entry should be drawn with: `Valid` while the buffer
    /// parses, `Invalid` otherwise.
    pub fn theme(&self) -> (t: Theme)
        ensures
            t == Theme::Valid <==> self.valid,
            t == Theme::Invalid <==> !self.valid,
    {
        if self.valid {
            Theme::Valid
        } else {
            Theme::Invalid
        }
    }
}

} // verus!
