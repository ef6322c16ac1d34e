//! The JSON wire format of the agent's own records, written and read at
//! the character level with exact contracts.
use vstd::prelude::*;
use vstd::string::StringExecFns;
use vstd::string::StrSliceExecFns;
use crate::textenc::char_from_u32;
use crate::textenc::dec_chars;
use crate::textenc::hex_char;
use crate::textenc::is_digit;
use crate::textenc::lemma_dec_chars_shape;
use crate::textenc::push_char;
use crate::textenc::push_hex_digit;
use crate::textenc::push_u64;

verus! {

/// The JSON escape of one character: quotes and backslashes get a
/// backslash, control characters a `\u00..` form, everything else passes
/// through.
pub open spec fn esc_char(c: char) -> Seq<char> {
    if c == '"' {
        seq!['\\', '"']
    } else if c == '\\' {
        seq!['\\', '\\']
    } else if (c as u32) < 0x20 {
        seq!['\\', 'u', '0', '0', hex_char((c as u32 / 16) as u8), hex_char((c as u32 % 16) as u8)]
    } else {
        seq![c]
    }
}

/// The JSON escape of a string's characters.
pub open spec fn json_escape(s: Seq<char>) -> Seq<char>
    decreases s.len(),
{
    if s.len() == 0 {
        Seq::empty()
    } else {
        esc_char(s[0]) + json_escape(s.drop_first())
    }
}

pub proof fn lemma_json_escape_push(s: Seq<char>, c: char)
    ensures
        json_escape(s.push(c)) == json_escape(s) + esc_char(c),
    decreases s.len(),
{
    if s.len() == 0 {
        assert(s.push(c).drop_first() =~= s);
        assert(s.push(c)[0] == c);
        assert(json_escape(s.push(c)) == esc_char(c) + json_escape(s));
        assert(esc_char(c) + json_escape(s) =~= esc_char(c));
        assert(json_escape(s) + esc_char(c) =~= esc_char(c));
    } else {
        assert(s.push(c).drop_first() =~= s.drop_first().push(c));
        lemma_json_escape_push(s.drop_first(), c);
        assert(json_escape(s.push(c)) =~= json_escape(s) + esc_char(c));
    }
}

/// The escape of a split string is the concatenation of the halves'
/// escapes.
pub proof fn lemma_json_escape_concat(a: Seq<char>, k: int)
    requires
        0 <= k <= a.len(),
    ensures
        json_escape(a) == json_escape(a.take(k)) + json_escape(a.skip(k)),
    decreases k,
{
    if k == 0 {
        assert(a.take(0) =~= Seq::<char>::empty());
        assert(a.skip(0) =~= a);
        assert(json_escape(a.take(0)) + json_escape(a.skip(0)) =~= json_escape(a));
    } else {
        assert(a.take(k)[0] == a[0]);
        assert(a.take(k).drop_first() =~= a.drop_first().take(k - 1));
        assert(a.skip(k) =~= a.drop_first().skip(k - 1));
        lemma_json_escape_concat(a.drop_first(), k - 1);
        assert(json_escape(a) =~= json_escape(a.take(k)) + json_escape(a.skip(k)));
    }
}

/// Appends one character in its JSON-escaped form.
fn push_esc_char(out: &mut String, c: char)
    ensures
        final(out)@ == old(out)@ + esc_char(c),
{
    if c == '"' {
        proof {
            reveal_strlit("\\\"");
        }
        out.append("\\\"");
        proof {
            assert(old(out)@ + "\\\""@ =~= old(out)@ + esc_char(c));
        }
    } else if c == '\\' {
        proof {
            reveal_strlit("\\\\");
        }
        out.append("\\\\");
        proof {
            assert(old(out)@ + "\\\\"@ =~= old(out)@ + esc_char(c));
        }
    } else if (c as u32) < 0x20 {
        proof {
            reveal_strlit("\\u00");
        }
        out.append("\\u00");
        let v = c as u32;
        push_hex_digit(out, (v / 16) as u8);
        push_hex_digit(out, (v % 16) as u8);
        proof {
            assert(old(out)@ + "\\u00"@ + seq![hex_char((c as u32 / 16) as u8)] + seq![
                hex_char((c as u32 % 16) as u8),
            ] =~= old(out)@ + esc_char(c));
        }
    } else {
        push_char(out, c);
    }
}

/// Appends the JSON escape of a whole string (without the surrounding
/// quotes).
pub fn push_json_escaped(out: &mut String, s: &String)
    ensures
        final(out)@ == old(out)@ + json_escape(s@),
{
    let text = s.as_str();
    let n = text.unicode_len();
    let mut i: usize = 0;
    while i < n
        invariant
            n == s@.len(),
            text@ == s@,
            0 <= i <= n,
            out@ == old(out)@ + json_escape(s@.take(i as int)),
        decreases n - i,
    {
        let c = text.get_char(i);
        push_esc_char(out, c);
        proof {
            lemma_json_escape_push(s@.take(i as int), c);
            assert(s@.take(i + 1 as int) =~= s@.take(i as int).push(s@[i as int]));
        }
        i = i + 1;
    }
    proof {
        assert(s@.take(n as int) =~= s@);
    }
}

/// One captured event as the queue stores it: four fields, fixed key
/// order.
pub open spec fn event_json_chars(ts_ms: u64, app: Seq<char>, title: Seq<char>, idle: u64) -> Seq<
    char,
> {
    "{\"ts_ms\":"@ + dec_chars(ts_ms as int) + ",\"app_name\":\""@ + json_escape(app)
        + "\",\"window_title\":\""@ + json_escape(title) + "\",\"input_idle_ms\":"@ + dec_chars(
        idle as int,
    ) + "}"@
}

/// The value of a decimal digit character.
fn digit_val(c: char) -> (r: Option<u8>)
    ensures
        r matches Some(d) ==> d < 10 && hex_char(d) == c,
        (r is Some) <==> is_digit(c),
        forall|d: u8| d < 10 && hex_char(d) == c ==> r == Some(d),
{
    if c == '0' { Some(0) } else if c == '1' { Some(1) } else if c == '2' { Some(2) }
    else if c == '3' { Some(3) } else if c == '4' { Some(4) } else if c == '5' { Some(5) }
    else if c == '6' { Some(6) } else if c == '7' { Some(7) } else if c == '8' { Some(8) }
    else if c == '9' { Some(9) } else { None }
}

/// The value of a lowercase hexadecimal digit character.
fn hex_val(c: char) -> (r: Option<u8>)
    ensures
        r matches Some(d) ==> d < 16 && hex_char(d) == c,
        forall|d: u8| d < 16 && hex_char(d) == c ==> r == Some(d),
{
    if c == 'a' { Some(10) } else if c == 'b' { Some(11) } else if c == 'c' { Some(12) }
    else if c == 'd' { Some(13) } else if c == 'e' { Some(14) } else if c == 'f' { Some(15) }
    else { digit_val(c) }
}

/// Advances past the literal exactly when the text carries it at `i`.
fn expect_lit(s: &String, i: usize, lit: &str) -> (r: Option<usize>)
    requires
        i <= s@.len(),
    ensures
        r matches Some(j) ==> i <= j <= s@.len() && j - i == lit@.len() && s@.subrange(
            i as int,
            j as int,
        ) == lit@,
        (i + lit@.len() <= s@.len() && s@.subrange(i as int, i + lit@.len()) == lit@) ==> r
            is Some,
{
    let text = s.as_str();
    let n = text.unicode_len();
    let m = lit.unicode_len();
    if m > n - i {
        return None;
    }
    let mut k: usize = 0;
    while k < m
        invariant
            n == s@.len(),
            m == lit@.len(),
            text@ == s@,
            i + m <= n,
            0 <= k <= m,
            forall|t: int| 0 <= t < k ==> s@[i + t] == lit@[t],
        decreases m - k,
    {
        if text.get_char(i + k) != lit.get_char(k) {
            proof {
                if s@.subrange(i as int, i + m as int) == lit@ {
                    assert(s@.subrange(i as int, i + m as int)[k as int] == s@[i + k]);
                }
            }
            return None;
        }
        k = k + 1;
    }
    proof {
        assert(s@.subrange(i as int, (i + m) as int) =~= lit@);
    }
    Some(i + m)
}

proof fn lemma_dec_chars_step(v: int, d: int)
    requires
        v >= 1,
        0 <= d < 10,
    ensures
        dec_chars(10 * v + d) == dec_chars(v) + seq![hex_char(d as u8)],
{
    assert((10 * v + d) / 10 == v);
    assert((10 * v + d) % 10 == d);
}

/// Whether the text carries exactly the canonical numeral of `v` at `i`:
/// the numeral's characters, not followed by a further digit.
pub open spec fn canonical_u64_at(s: Seq<char>, i: int, v: u64) -> bool {
    let d = dec_chars(v as int);
    &&& i + d.len() <= s.len()
    &&& s.subrange(i, i + d.len()) == d
    &&& (i + d.len() == s.len() || !is_digit(s[i + d.len()]))
}

/// Reads a canonical decimal number at `i`: no leading zero, greedy, and
/// only values a 64-bit number can hold. A number standing canonically at
/// `i` is always read, and read exactly.
fn parse_u64_at(s: &String, i: usize) -> (r: Option<(u64, usize)>)
    requires
        i <= s@.len(),
    ensures
        r matches Some(p) ==> i < p.1 <= s@.len() && s@.subrange(i as int, p.1 as int) == dec_chars(
            p.0 as int,
        ),
        forall|v: u64| #[trigger]
            canonical_u64_at(s@, i as int, v) ==> (r matches Some(p) && p.0 == v && p.1 == i
                + dec_chars(v as int).len()),
{
    let text = s.as_str();
    let n = text.unicode_len();
    if i >= n {
        proof {
            assert forall|v: u64| !canonical_u64_at(s@, i as int, v) by {
                lemma_dec_chars_shape(v as int);
            }
        }
        return None;
    }
    let c0 = text.get_char(i);
    if c0 == '0' {
        proof {
            assert(s@.subrange(i as int, (i + 1) as int) =~= seq![c0]);
            assert(dec_chars(0) =~= seq![hex_char(0)]);
            assert forall|v: u64| #[trigger]
                canonical_u64_at(s@, i as int, v) implies v == 0 by {
                lemma_dec_chars_shape(v as int);
                assert(dec_chars(v as int)[0] == s@.subrange(
                    i as int,
                    i + dec_chars(v as int).len(),
                )[0]);
            }
        }
        return Some((0, i + 1));
    }
    let d0 = match digit_val(c0) {
        Some(d) => d,
        None => {
            proof {
                assert forall|v: u64| !canonical_u64_at(s@, i as int, v) by {
                    lemma_dec_chars_shape(v as int);
                    if canonical_u64_at(s@, i as int, v) {
                        assert(dec_chars(v as int)[0] == s@.subrange(
                            i as int,
                            i + dec_chars(v as int).len(),
                        )[0]);
                        assert(is_digit(c0));
                    }
                }
            }
            return None;
        },
    };
    let mut v: u64 = d0 as u64;
    let mut j: usize = i + 1;
    proof {
        assert(s@.subrange(i as int, j as int) =~= seq![c0]);
        assert(dec_chars(v as int) =~= seq![hex_char(d0)]);
    }
    while j < n && digit_exec(text.get_char(j))
        invariant
            n == s@.len(),
            text@ == s@,
            i < j <= n,
            v >= 1,
            s@.subrange(i as int, j as int) == dec_chars(v as int),
        decreases n - j,
    {
        let c = text.get_char(j);
        let d = match digit_val(c) {
            Some(d) => d,
            None => {
                proof {
                    assert(false);
                }
                0
            },
        };
        let next = match v.checked_mul(10) {
            Some(x) => match x.checked_add(d as u64) {
                Some(y) => y,
                None => {
                    proof {
                        lemma_no_canonical_on_overflow(s@, i as int, j as int, v, d);
                    }
                    return None;
                },
            },
            None => {
                proof {
                    lemma_no_canonical_on_overflow(s@, i as int, j as int, v, d);
                }
                return None;
            },
        };
        proof {
            lemma_dec_chars_step(v as int, d as int);
            assert(s@.subrange(i as int, (j + 1) as int) =~= s@.subrange(i as int, j as int).push(
                s@[j as int],
            ));
            assert(s@.subrange(i as int, j as int).push(c) =~= s@.subrange(i as int, j as int)
                + seq![hex_char(d)]);
        }
        v = next;
        j = j + 1;
    }
    proof {
        assert forall|w: u64| #[trigger]
            canonical_u64_at(s@, i as int, w) implies (w == v && i + dec_chars(w as int).len()
            == j) by {
            lemma_scan_ended_exactly(s@, i as int, j as int, v, w);
        }
    }
    Some((v, j))
}

/// The digits scanned so far, extended by the digit standing next, are a
/// prefix of any canonical numeral at the same position — so their value
/// fits the numeral's value, and the scan cannot overflow a number that
/// stands there canonically.
proof fn lemma_no_canonical_on_overflow(s: Seq<char>, i: int, j: int, v: u64, d: u8)
    requires
        0 <= i < j <= s.len(),
        v >= 1,
        s.subrange(i, j) == dec_chars(v as int),
        j < s.len(),
        is_digit(s[j]),
        hex_char(d) == s[j],
        d < 10,
        10 * (v as int) + d > u64::MAX,
    ensures
        forall|w: u64| !(#[trigger] canonical_u64_at(s, i, w)),
{
    assert forall|w: u64| !(#[trigger] canonical_u64_at(s, i, w)) by {
        if canonical_u64_at(s, i, w) {
            lemma_dec_chars_shape(w as int);
            lemma_dec_chars_shape(v as int);
            let lenw = dec_chars(w as int).len() as int;
            let lenv = j - i;
            // The scan sits strictly inside the numeral of w: the digit at
            // `j` rules out ending at or before it.
            if lenw <= lenv {
                assert(s[i + lenw] == dec_chars(v as int)[lenw]) by {
                    assert(s.subrange(i, j)[lenw] == s[i + lenw]);
                }
                assert(is_digit(s[i + lenw]));
                assert(false);
            }
            assert(lenv + 1 <= lenw);
            let scanned = dec_chars(v as int) + seq![hex_char(d)];
            assert(s.subrange(i, j + 1) =~= scanned);
            assert(s.subrange(i, i + lenw).take(lenv + 1) =~= s.subrange(i, j + 1));
            assert(dec_chars(w as int).take(lenv + 1) == scanned);
            crate::textenc::lemma_dec_prefix_le(w as int, lenv + 1);
            let u = choose|u: int|
                0 <= u <= w as int && dec_chars(w as int).take(lenv + 1) == dec_chars(
                    #[trigger] (u + 0),
                );
            lemma_dec_chars_shape(u);
            // The prefix's own numeral ends in the digit d over the numeral
            // of v, so its value is exactly 10 * v + d.
            assert(dec_chars(u).len() == lenv + 1 >= 2);
            assert(u >= 10);
            assert(dec_chars(u).drop_last() =~= dec_chars(u / 10));
            assert(scanned.drop_last() =~= dec_chars(v as int));
            crate::textenc::lemma_dec_chars_injective(u / 10, v as int);
            assert(dec_chars(u).last() == hex_char((u % 10) as u8));
            assert(scanned.last() == hex_char(d));
            assert(u % 10 == d);
            assert(u == 10 * (v as int) + d);
            assert(u <= w <= u64::MAX);
            assert(false);
        }
    }
}

/// When the greedy scan stops — at the end or before a non-digit — the
/// digits read are exactly any canonical numeral standing at `i`.
proof fn lemma_scan_ended_exactly(s: Seq<char>, i: int, j: int, v: u64, w: u64)
    requires
        0 <= i < j <= s.len(),
        v >= 1,
        s.subrange(i, j) == dec_chars(v as int),
        j == s.len() || !is_digit(s[j]),
        canonical_u64_at(s, i, w),
    ensures
        w == v,
        i + dec_chars(w as int).len() == j,
{
    lemma_dec_chars_shape(w as int);
    lemma_dec_chars_shape(v as int);
    let lenw = dec_chars(w as int).len() as int;
    let lenv = j - i;
    if lenw < lenv {
        // The numeral of w would end at a digit of the scanned region.
        assert(s[i + lenw] == dec_chars(v as int)[lenw]) by {
            assert(s.subrange(i, j)[lenw] == s[i + lenw]);
        }
        assert(is_digit(s[i + lenw]));
        assert(false);
    }
    if lenw > lenv {
        // The scan would have stopped inside the numeral of w, on a digit.
        assert(s[j] == dec_chars(w as int)[lenv]) by {
            assert(s.subrange(i, i + lenw)[lenv] == s[j]);
        }
        assert(is_digit(s[j]));
        assert(false);
    }
    assert(dec_chars(w as int) == dec_chars(v as int));
    crate::textenc::lemma_dec_chars_injective(w as int, v as int);
}

/// Whether a character is a decimal digit, decided.
fn digit_exec(c: char) -> (r: bool)
    ensures
        r == is_digit(c),
{
    c == '0' || c == '1' || c == '2' || c == '3' || c == '4' || c == '5' || c == '6' || c == '7'
        || c == '8' || c == '9'
}

/// The shape of one escape chunk, by the character it encodes.
proof fn lemma_esc_char_shape(c: char)
    ensures
        esc_char(c).len() >= 1,
        esc_char(c)[0] != '"',
        (c == '"' || c == '\\' || (c as u32) < 0x20) ==> esc_char(c)[0] == '\\'
            && esc_char(c).len() >= 2,
        !(c == '"' || c == '\\' || (c as u32) < 0x20) ==> esc_char(c) == seq![c],
        c == '"' ==> esc_char(c)[1] == '"' && esc_char(c).len() == 2,
        c == '\\' ==> esc_char(c)[1] == '\\' && esc_char(c).len() == 2,
        (c != '"' && c != '\\' && (c as u32) < 0x20) ==> esc_char(c).len() == 6
            && esc_char(c)[1] == 'u' && esc_char(c)[2] == '0' && esc_char(c)[3] == '0'
            && esc_char(c)[4] == hex_char((c as u32 / 16) as u8) && esc_char(c)[5] == hex_char(
            (c as u32 % 16) as u8,
        ),
{
}

/// Whether the text carries exactly the escape of `content` at `i`,
/// closed by a quote.
pub open spec fn canonical_string_at(s: Seq<char>, i: int, content: Seq<char>) -> bool {
    let e = json_escape(content);
    &&& i + e.len() + 1 <= s.len()
    &&& s.subrange(i, i + e.len()) == e
    &&& s[i + e.len()] == '"'
}

/// Splits a canonical string at the read position: either the escape of
/// the next content character stands there whole, or the content is
/// spent and the closing quote stands there.
proof fn lemma_canonical_chunk(s: Seq<char>, i: int, j: int, built: Seq<char>, content: Seq<char>)
    requires
        0 <= i <= j <= s.len(),
        s.subrange(i, j) == json_escape(built),
        canonical_string_at(s, i, content),
        built.len() <= content.len(),
        built == content.take(built.len() as int),
    ensures
        built.len() < content.len() ==> ({
            let cc = content[built.len() as int];
            &&& j + esc_char(cc).len() + 1 <= s.len()
            &&& s.subrange(j, j + esc_char(cc).len()) == esc_char(cc)
            &&& json_escape(content.take(built.len() as int + 1)) == json_escape(built) + esc_char(cc)
        }),
        built.len() == content.len() ==> j == i + json_escape(content).len() && j < s.len()
            && s[j] == '"' && built == content,
{
    lemma_json_escape_concat(content, built.len() as int);
    let e = json_escape(content);
    if built.len() < content.len() {
        let bl = built.len() as int;
        let cc = content[bl];
        let rest = content.skip(bl);
        assert(rest[0] == cc);
        assert(rest.drop_first() =~= content.skip(bl + 1));
        assert(json_escape(rest) == esc_char(cc) + json_escape(content.skip(bl + 1)));
        assert(e =~= json_escape(built) + esc_char(cc) + json_escape(content.skip(bl + 1)));
        assert(j - i == json_escape(built).len());
        lemma_esc_char_shape(cc);
        assert(j + esc_char(cc).len() <= i + e.len());
        assert forall|t: int| 0 <= t < esc_char(cc).len() implies s[j + t] == esc_char(cc)[t] by {
            assert(s.subrange(i, i + e.len())[j - i + t] == s[j + t]);
            assert(e[j - i + t] == esc_char(cc)[t]);
        }
        assert(s.subrange(j, j + esc_char(cc).len()) =~= esc_char(cc));
        assert(content.take(bl + 1) =~= built.push(cc));
        lemma_json_escape_push(built, cc);
    } else {
        assert(content.take(built.len() as int) =~= content);
        assert(j - i == e.len());
    }
}

/// Reads the body of a canonical JSON string at `i` (the opening quote is
/// already consumed), through its closing quote. A string standing
/// canonically at `i` is always read, and read exactly.
fn parse_json_string_at(s: &String, i: usize) -> (r: Option<(String, usize)>)
    requires
        i <= s@.len(),
    ensures
        r matches Some(p) ==> i < p.1 <= s@.len() && s@.subrange(i as int, p.1 as int)
            == json_escape(p.0@) + seq!['"'],
        forall|full: Seq<char>| #[trigger]
            canonical_string_at(s@, i as int, full) ==> (r matches Some(p) && p.0@ == full && p.1
                == i + json_escape(full).len() + 1),
{
    let text = s.as_str();
    let n = text.unicode_len();
    let mut content = String::new();
    let mut j: usize = i;
    while j < n
        invariant
            n == s@.len(),
            text@ == s@,
            i <= j <= n,
            s@.subrange(i as int, j as int) == json_escape(content@),
            forall|full: Seq<char>| #[trigger]
                canonical_string_at(s@, i as int, full) ==> content@.len() <= full.len()
                    && content@ == full.take(content@.len() as int),
        decreases n - j,
    {
        let c = text.get_char(j);
        if c == '"' {
            proof {
                assert(s@.subrange(i as int, (j + 1) as int) =~= s@.subrange(i as int, j as int)
                    + seq!['"']);
                assert forall|full: Seq<char>| #[trigger]
                    canonical_string_at(s@, i as int, full) implies content@ == full && j + 1 == i
                    + json_escape(full).len() + 1 by {
                    lemma_canonical_chunk(s@, i as int, j as int, content@, full);
                    if content@.len() < full.len() {
                        lemma_esc_char_shape(full[content@.len() as int]);
                        assert(false);
                    }
                }
            }
            return Some((content, j + 1));
        } else if c == '\\' {
            if n - j < 2 {
                proof {
                    assert forall|full: Seq<char>| !(#[trigger] canonical_string_at(
                        s@,
                        i as int,
                        full,
                    )) by {
                        if canonical_string_at(s@, i as int, full) {
                            lemma_canonical_chunk(s@, i as int, j as int, content@, full);
                            if content@.len() < full.len() {
                                lemma_esc_char_shape(full[content@.len() as int]);
                            }
                        }
                    }
                }
                return None;
            }
            let e = text.get_char(j + 1);
            if e == '"' || e == '\\' {
                let ghost pre = content@;
                push_char(&mut content, e);
                proof {
                    lemma_json_escape_push(pre, e);
                    assert(content@ =~= pre.push(e));
                    assert(esc_char(e) =~= seq!['\\', e]);
                    assert(s@.subrange(i as int, (j + 2) as int) =~= s@.subrange(
                        i as int,
                        j as int,
                    ) + seq!['\\', e]);
                    assert(s@.subrange(i as int, (j + 2) as int) == json_escape(content@));
                    assert forall|full: Seq<char>| #[trigger]
                        canonical_string_at(s@, i as int, full) implies content@.len() <= full.len()
                        && content@ == full.take(content@.len() as int) by {
                        lemma_canonical_chunk(s@, i as int, j as int, pre, full);
                        if pre.len() == full.len() {
                            assert(false);
                        } else {
                            let cc = full[pre.len() as int];
                            lemma_esc_char_shape(cc);
                            assert(s@[j as int] == esc_char(cc)[0]);
                            assert(s@[j + 1] == esc_char(cc)[1]);
                            assert(cc == e);
                            assert(content@ =~= full.take(pre.len() as int + 1));
                        }
                    }
                }
                j = j + 2;
            } else if e == 'u' {
                if n - j < 6 {
                    proof {
                        assert forall|full: Seq<char>| !(#[trigger] canonical_string_at(
                            s@,
                            i as int,
                            full,
                        )) by {
                            if canonical_string_at(s@, i as int, full) {
                                lemma_canonical_chunk(s@, i as int, j as int, content@, full);
                                if content@.len() < full.len() {
                                    lemma_esc_char_shape(full[content@.len() as int]);
                                }
                            }
                        }
                    }
                    return None;
                }
                proof {
                    assert forall|full: Seq<char>| #[trigger]
                        canonical_string_at(s@, i as int, full) implies ({
                        let cc = full[content@.len() as int];
                        &&& content@.len() < full.len()
                        &&& cc != '"'
                        &&& cc != '\\'
                        &&& (cc as u32) < 0x20
                        &&& s@[j + 2] == '0'
                        &&& s@[j + 3] == '0'
                        &&& s@[j + 4] == hex_char((cc as u32 / 16) as u8)
                        &&& s@[j + 5] == hex_char((cc as u32 % 16) as u8)
                    }) by {
                        lemma_canonical_chunk(s@, i as int, j as int, content@, full);
                        if content@.len() == full.len() {
                            assert(false);
                        } else {
                            let cc = full[content@.len() as int];
                            lemma_esc_char_shape(cc);
                            assert(s@[j as int] == esc_char(cc)[0]);
                            assert(s@[j + 1] == esc_char(cc)[1]);
                        }
                    }
                }
                if !(text.get_char(j + 2) == '0' && text.get_char(j + 3) == '0') {
                    return None;
                }
                let hc = text.get_char(j + 4);
                let lc = text.get_char(j + 5);
                let h = match hex_val(hc) {
                    Some(d) => d,
                    None => {
                        return None;
                    },
                };
                let l = match hex_val(lc) {
                    Some(d) => d,
                    None => {
                        return None;
                    },
                };
                let v: u32 = (h as u32) * 16 + (l as u32);
                if v >= 0x20 {
                    return None;
                }
                let c2 = match char_from_u32(v) {
                    Some(c2) => c2,
                    None => {
                        return None;
                    },
                };
                if c2 == '"' || c2 == '\\' {
                    return None;
                }
                let ghost pre = content@;
                push_char(&mut content, c2);
                proof {
                    lemma_json_escape_push(pre, c2);
                    assert(content@ =~= pre.push(c2));
                    assert(c2 as u32 == v);
                    assert((c2 as u32) < 0x20);
                    assert(v / 16 == h as u32 && v % 16 == l as u32);
                    assert((c2 as u32 / 16) as u8 == h);
                    assert((c2 as u32 % 16) as u8 == l);
                    assert(hex_char((c2 as u32 / 16) as u8) == hc);
                    assert(hex_char((c2 as u32 % 16) as u8) == lc);
                    assert(esc_char(c2) =~= seq!['\\', 'u', '0', '0', hc, lc]);
                    assert(s@.subrange(i as int, (j + 6) as int) =~= s@.subrange(
                        i as int,
                        j as int,
                    ) + seq!['\\', 'u', '0', '0', hc, lc]);
                    assert(s@.subrange(i as int, (j + 6) as int) == json_escape(content@));
                    assert forall|full: Seq<char>| #[trigger]
                        canonical_string_at(s@, i as int, full) implies content@.len() <= full.len()
                        && content@ == full.take(content@.len() as int) by {
                        lemma_canonical_chunk(s@, i as int, j as int, pre, full);
                        if pre.len() == full.len() {
                            assert(false);
                        } else {
                            let cc = full[pre.len() as int];
                            lemma_esc_char_shape(cc);
                            assert(s@[j as int] == esc_char(cc)[0]);
                            assert(s@[j + 1] == esc_char(cc)[1]);
                            assert(cc != '"' && cc != '\\' && (cc as u32) < 0x20);
                            assert(s@[j + 4] == hex_char((cc as u32 / 16) as u8));
                            assert(s@[j + 5] == hex_char((cc as u32 % 16) as u8));
                            assert(hc == hex_char((cc as u32 / 16) as u8));
                            assert(lc == hex_char((cc as u32 % 16) as u8));
                            assert(h as u32 == cc as u32 / 16 && l as u32 == cc as u32 % 16) by {
                                assert(cc as u32 / 16 < 16 && cc as u32 % 16 < 16);
                            }
                            assert(v == cc as u32);
                            assert(c2 as u32 == cc as u32);
                            vstd::utf8::char_u32_cast(c2, v);
                            vstd::utf8::char_u32_cast(cc, v);
                            assert(c2 == cc);
                            assert(content@ =~= full.take(pre.len() as int + 1));
                        }
                    }
                }
                j = j + 6;
            } else {
                proof {
                    assert forall|full: Seq<char>| !(#[trigger] canonical_string_at(
                        s@,
                        i as int,
                        full,
                    )) by {
                        if canonical_string_at(s@, i as int, full) {
                            lemma_canonical_chunk(s@, i as int, j as int, content@, full);
                            if content@.len() < full.len() {
                                lemma_esc_char_shape(full[content@.len() as int]);
                            }
                        }
                    }
                }
                return None;
            }
        } else if (c as u32) < 0x20 {
            proof {
                assert forall|full: Seq<char>| !(#[trigger] canonical_string_at(
                    s@,
                    i as int,
                    full,
                )) by {
                    if canonical_string_at(s@, i as int, full) {
                        lemma_canonical_chunk(s@, i as int, j as int, content@, full);
                        if content@.len() < full.len() {
                            lemma_esc_char_shape(full[content@.len() as int]);
                        }
                    }
                }
            }
            return None;
        } else {
            let ghost pre = content@;
            push_char(&mut content, c);
            proof {
                lemma_json_escape_push(pre, c);
                assert(content@ =~= pre.push(c));
                assert(esc_char(c) =~= seq![c]);
                assert(s@.subrange(i as int, (j + 1) as int) =~= s@.subrange(i as int, j as int)
                    + seq![c]);
                assert(s@.subrange(i as int, (j + 1) as int) == json_escape(content@));
                assert forall|full: Seq<char>| #[trigger]
                    canonical_string_at(s@, i as int, full) implies content@.len() <= full.len()
                    && content@ == full.take(content@.len() as int) by {
                    lemma_canonical_chunk(s@, i as int, j as int, pre, full);
                    if pre.len() == full.len() {
                        assert(false);
                    } else {
                        let cc = full[pre.len() as int];
                        lemma_esc_char_shape(cc);
                        assert(s@[j as int] == esc_char(cc)[0]);
                        assert(cc == c);
                        assert(content@ =~= full.take(pre.len() as int + 1));
                    }
                }
            }
            j = j + 1;
        }
    }
    proof {
        assert forall|full: Seq<char>| !(#[trigger] canonical_string_at(s@, i as int, full)) by {
            if canonical_string_at(s@, i as int, full) {
                lemma_canonical_chunk(s@, i as int, j as int, content@, full);
                if content@.len() < full.len() {
                    lemma_esc_char_shape(full[content@.len() as int]);
                }
            }
        }
    }
    None
}

/// Where each piece of a canonical record stands in the text.
#[verifier::rlimit(100)]
proof fn lemma_event_layout(s: Seq<char>, ts: u64, app: Seq<char>, title: Seq<char>, idle: u64)
    requires
        s == event_json_chars(ts, app, title, idle),
    ensures
        ({
            let l1 = "{\"ts_ms\":"@;
            let d1 = dec_chars(ts as int);
            let l2 = ",\"app_name\":\""@;
            let ea = json_escape(app);
            let l3 = ",\"window_title\":\""@;
            let et = json_escape(title);
            let l4 = ",\"input_idle_ms\":"@;
            let d2 = dec_chars(idle as int);
            let p1 = l1.len() as int;
            let p2 = p1 + d1.len();
            let p3 = p2 + l2.len();
            let p4 = p3 + ea.len() + 1;
            let p5 = p4 + l3.len();
            let p6 = p5 + et.len() + 1;
            let p7 = p6 + l4.len();
            let p8 = p7 + d2.len();
            &&& s.len() == p8 + 1
            &&& s.subrange(0, p1) == l1
            &&& canonical_u64_at(s, p1, ts)
            &&& s.subrange(p2, p3) == l2
            &&& canonical_string_at(s, p3, app)
            &&& s.subrange(p4, p5) == l3
            &&& canonical_string_at(s, p5, title)
            &&& s.subrange(p6, p7) == l4
            &&& canonical_u64_at(s, p7, idle)
            &&& s.subrange(p8, p8 + 1) == "}"@
        }),
{
    reveal_strlit("{\"ts_ms\":");
    reveal_strlit(",\"app_name\":\"");
    reveal_strlit("\",\"window_title\":\"");
    reveal_strlit(",\"window_title\":\"");
    reveal_strlit("\",\"input_idle_ms\":");
    reveal_strlit(",\"input_idle_ms\":");
    reveal_strlit("}");
    lemma_dec_chars_shape(ts as int);
    lemma_dec_chars_shape(idle as int);
    let l1 = "{\"ts_ms\":"@;
    let d1 = dec_chars(ts as int);
    let l2 = ",\"app_name\":\""@;
    let ea = json_escape(app);
    let l3 = ",\"window_title\":\""@;
    let et = json_escape(title);
    let l4 = ",\"input_idle_ms\":"@;
    let d2 = dec_chars(idle as int);
    let p1 = l1.len() as int;
    let p2 = p1 + d1.len();
    let p3 = p2 + l2.len();
    let p4 = p3 + ea.len() + 1;
    let p5 = p4 + l3.len();
    let p6 = p5 + et.len() + 1;
    let p7 = p6 + l4.len();
    let p8 = p7 + d2.len();
    assert("\",\"window_title\":\""@ =~= seq!['"'] + l3);
    assert("\",\"input_idle_ms\":"@ =~= seq!['"'] + l4);
    assert(s =~= l1 + d1 + l2 + ea + seq!['"'] + l3 + et + seq!['"'] + l4 + d2 + "}"@);
    assert(s.subrange(0, p1) =~= l1);
    assert(s.subrange(p1, p2) =~= d1);
    assert(s.subrange(p2, p3) =~= l2);
    assert(s.subrange(p3, p4 - 1) =~= ea);
    assert(s.subrange(p4, p5) =~= l3);
    assert(s.subrange(p5, p6 - 1) =~= et);
    assert(s.subrange(p6, p7) =~= l4);
    assert(s.subrange(p7, p8) =~= d2);
    assert(s.subrange(p8, p8 + 1) =~= "}"@);
    assert(s[p2] == l2[0]);
    assert(l2[0] == ',');
    assert(!is_digit(','));
    assert(s[p4 - 1] == '"');
    assert(s[p6 - 1] == '"');
    assert(s[p8] == '}');
    assert(!is_digit('}'));
    assert(canonical_u64_at(s, p1, ts));
    assert(canonical_string_at(s, p3, app));
    assert(canonical_string_at(s, p5, title));
    assert(canonical_u64_at(s, p7, idle));
}

/// The head of one record: everything through the closing quote of the
/// application name.
pub open spec fn event_head_chars(ts_ms: u64, app: Seq<char>) -> Seq<char> {
    "{\"ts_ms\":"@ + dec_chars(ts_ms as int) + ",\"app_name\":\""@ + json_escape(app) + "\""@
}

/// Reads the head of one record: the timestamp and the application name,
/// through the latter's closing quote. A canonical record is always read
/// this far, to exactly its head fields.
#[verifier::rlimit(100)]
fn parse_event_head(s: &String) -> (r: Option<(u64, String, usize)>)
    ensures
        r matches Some(p) ==> p.2 <= s@.len() && s@.subrange(0, p.2 as int) == event_head_chars(
            p.0,
            p.1@,
        ),
        forall|ts: u64, app: Seq<char>, title: Seq<char>, idle: u64|
            s@ == #[trigger] event_json_chars(ts, app, title, idle) ==> (r matches Some(p) && p.0
                == ts && p.1@ == app && p.2 == "{\"ts_ms\":"@.len() + dec_chars(ts as int).len()
                + ",\"app_name\":\""@.len() + json_escape(app).len() + 1),
{
    let i1 = match expect_lit(s, 0, "{\"ts_ms\":") {
        Some(i) => i,
        None => {
            proof {
                assert forall|ts: u64, app: Seq<char>, title: Seq<char>, idle: u64|
                    s@ != #[trigger] event_json_chars(ts, app, title, idle) by {
                    if s@ == event_json_chars(ts, app, title, idle) {
                        lemma_event_layout(s@, ts, app, title, idle);
                    }
                }
            }
            return None;
        },
    };
    let (ts, i2) = match parse_u64_at(s, i1) {
        Some(p) => p,
        None => {
            proof {
                assert forall|ts: u64, app: Seq<char>, title: Seq<char>, idle: u64|
                    s@ != #[trigger] event_json_chars(ts, app, title, idle) by {
                    if s@ == event_json_chars(ts, app, title, idle) {
                        lemma_event_layout(s@, ts, app, title, idle);
                        assert(canonical_u64_at(s@, i1 as int, ts));
                    }
                }
            }
            return None;
        },
    };
    let i3 = match expect_lit(s, i2, ",\"app_name\":\"") {
        Some(i) => i,
        None => {
            proof {
                assert forall|ts0: u64, app: Seq<char>, title: Seq<char>, idle: u64|
                    s@ != #[trigger] event_json_chars(ts0, app, title, idle) by {
                    if s@ == event_json_chars(ts0, app, title, idle) {
                        lemma_event_layout(s@, ts0, app, title, idle);
                        assert(canonical_u64_at(s@, i1 as int, ts0));
                    }
                }
            }
            return None;
        },
    };
    let (app, i4) = match parse_json_string_at(s, i3) {
        Some(p) => p,
        None => {
            proof {
                assert forall|ts0: u64, app: Seq<char>, title: Seq<char>, idle: u64|
                    s@ != #[trigger] event_json_chars(ts0, app, title, idle) by {
                    if s@ == event_json_chars(ts0, app, title, idle) {
                        lemma_event_layout(s@, ts0, app, title, idle);
                        assert(canonical_u64_at(s@, i1 as int, ts0));
                        assert(canonical_string_at(s@, i3 as int, app));
                    }
                }
            }
            return None;
        },
    };
    proof {
        reveal_strlit("\"");
        assert("\""@ =~= seq!['"']);
        assert(s@.subrange(0, i4 as int) =~= s@.subrange(0, i1 as int) + s@.subrange(
            i1 as int,
            i2 as int,
        ) + s@.subrange(i2 as int, i3 as int) + s@.subrange(i3 as int, i4 as int));
        assert(s@.subrange(0, i4 as int) =~= event_head_chars(ts, app@));
        assert forall|ts0: u64, app0: Seq<char>, title0: Seq<char>, idle0: u64|
            s@ == #[trigger] event_json_chars(ts0, app0, title0, idle0) implies ts == ts0 && app@
            == app0 && i4 == "{\"ts_ms\":"@.len() + dec_chars(ts0 as int).len()
            + ",\"app_name\":\""@.len() + json_escape(app0).len() + 1 by {
            lemma_event_layout(s@, ts0, app0, title0, idle0);
            assert(canonical_u64_at(s@, i1 as int, ts0));
            assert(canonical_string_at(s@, i3 as int, app0));
        }
    }
    Some((ts, app, i4))
}

/// Reads back one record written by `write_event_json`. A successful
/// parse pins the whole text to the canonical form of the returned
/// fields, and the canonical form of any fields is always read back as
/// exactly those fields — the parser inverts the writer.
#[verifier::rlimit(100)]
pub fn parse_event_json(s: &String) -> (r: Option<(u64, String, String, u64)>)
    ensures
        r matches Some(e) ==> s@ == event_json_chars(e.0, e.1@, e.2@, e.3),
        forall|ts: u64, app: Seq<char>, title: Seq<char>, idle: u64|
            s@ == #[trigger] event_json_chars(ts, app, title, idle) ==> (r matches Some(e) && e.0
                == ts && e.1@ == app && e.2@ == title && e.3 == idle),
{
    let text = s.as_str();
    let n = text.unicode_len();
    let (ts, app, i4) = match parse_event_head(s) {
        Some(p) => p,
        None => {
            return None;
        },
    };
    let i5 = match expect_lit(s, i4, ",\"window_title\":\"") {
        Some(i) => i,
        None => {
            proof {
                assert forall|ts0: u64, app0: Seq<char>, title: Seq<char>, idle: u64|
                    s@ != #[trigger] event_json_chars(ts0, app0, title, idle) by {
                    if s@ == event_json_chars(ts0, app0, title, idle) {
                        lemma_event_layout(s@, ts0, app0, title, idle);
                    }
                }
            }
            return None;
        },
    };
    let (title, i6) = match parse_json_string_at(s, i5) {
        Some(p) => p,
        None => {
            proof {
                assert forall|ts0: u64, app0: Seq<char>, title: Seq<char>, idle: u64|
                    s@ != #[trigger] event_json_chars(ts0, app0, title, idle) by {
                    if s@ == event_json_chars(ts0, app0, title, idle) {
                        lemma_event_layout(s@, ts0, app0, title, idle);
                        assert(canonical_string_at(s@, i5 as int, title));
                    }
                }
            }
            return None;
        },
    };
    let i7 = match expect_lit(s, i6, ",\"input_idle_ms\":") {
        Some(i) => i,
        None => {
            proof {
                assert forall|ts0: u64, app0: Seq<char>, title0: Seq<char>, idle: u64|
                    s@ != #[trigger] event_json_chars(ts0, app0, title0, idle) by {
                    if s@ == event_json_chars(ts0, app0, title0, idle) {
                        lemma_event_layout(s@, ts0, app0, title0, idle);
                        assert(canonical_string_at(s@, i5 as int, title0));
                    }
                }
            }
            return None;
        },
    };
    let (idle, i8) = match parse_u64_at(s, i7) {
        Some(p) => p,
        None => {
            proof {
                assert forall|ts0: u64, app0: Seq<char>, title0: Seq<char>, idle: u64|
                    s@ != #[trigger] event_json_chars(ts0, app0, title0, idle) by {
                    if s@ == event_json_chars(ts0, app0, title0, idle) {
                        lemma_event_layout(s@, ts0, app0, title0, idle);
                        assert(canonical_string_at(s@, i5 as int, title0));
                        assert(canonical_u64_at(s@, i7 as int, idle));
                    }
                }
            }
            return None;
        },
    };
    let i9 = match expect_lit(s, i8, "}") {
        Some(i) => i,
        None => {
            proof {
                assert forall|ts0: u64, app0: Seq<char>, title0: Seq<char>, idle0: u64|
                    s@ != #[trigger] event_json_chars(ts0, app0, title0, idle0) by {
                    if s@ == event_json_chars(ts0, app0, title0, idle0) {
                        lemma_event_layout(s@, ts0, app0, title0, idle0);
                        assert(canonical_string_at(s@, i5 as int, title0));
                        assert(canonical_u64_at(s@, i7 as int, idle0));
                    }
                }
            }
            return None;
        },
    };
    if i9 != n {
        proof {
            assert forall|ts0: u64, app0: Seq<char>, title0: Seq<char>, idle0: u64|
                s@ != #[trigger] event_json_chars(ts0, app0, title0, idle0) by {
                if s@ == event_json_chars(ts0, app0, title0, idle0) {
                    lemma_event_layout(s@, ts0, app0, title0, idle0);
                    assert(canonical_string_at(s@, i5 as int, title0));
                    assert(canonical_u64_at(s@, i7 as int, idle0));
                }
            }
        }
        return None;
    }
    proof {
        reveal_strlit("\"");
        reveal_strlit("\",\"window_title\":\"");
        reveal_strlit(",\"window_title\":\"");
        reveal_strlit("\",\"input_idle_ms\":");
        reveal_strlit(",\"input_idle_ms\":");
        assert("\",\"window_title\":\""@ =~= "\""@ + ",\"window_title\":\""@);
        assert("\",\"input_idle_ms\":"@ =~= "\""@ + ",\"input_idle_ms\":"@);
        assert(s@ =~= s@.subrange(0, i4 as int) + s@.subrange(i4 as int, i5 as int) + s@.subrange(
            i5 as int,
            i6 as int,
        ) + s@.subrange(i6 as int, i7 as int) + s@.subrange(i7 as int, i8 as int) + s@.subrange(
            i8 as int,
            i9 as int,
        ));
        assert(s@ =~= event_json_chars(ts, app@, title@, idle));
        assert forall|ts0: u64, app0: Seq<char>, title0: Seq<char>, idle0: u64|
            s@ == #[trigger] event_json_chars(ts0, app0, title0, idle0) implies ts == ts0 && app@
            == app0 && title@ == title0 && idle == idle0 by {
            lemma_event_layout(s@, ts0, app0, title0, idle0);
            assert(canonical_string_at(s@, i5 as int, title0));
            assert(canonical_u64_at(s@, i7 as int, idle0));
        }
    }
    Some((ts, app, title, idle))
}

/// Writes one captured event in the queue's record format.
pub fn write_event_json(ts_ms: u64, app: &String, title: &String, idle: u64) -> (r: String)
    ensures
        r@ == event_json_chars(ts_ms, app@, title@, idle),
{
    let mut out = String::new();
    out.append("{\"ts_ms\":");
    push_u64(&mut out, ts_ms);
    out.append(",\"app_name\":\"");
    push_json_escaped(&mut out, app);
    out.append("\",\"window_title\":\"");
    push_json_escaped(&mut out, title);
    out.append("\",\"input_idle_ms\":");
    push_u64(&mut out, idle);
    out.append("}");
    proof {
        assert(out@ =~= event_json_chars(ts_ms, app@, title@, idle));
    }
    out
}

} // verus!
