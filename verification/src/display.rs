use vstd::prelude::*;

use crate::text::{
    char_from_u32, chars_of, decimal, find_char, first_position, is_digit,
    lemma_first_position_exists,
    law_parse_u32_of_decimal, lemma_decimal_digits, lemma_first_position, parse_u32,
    parse_u32_chars, push_decimal, push_str, string_from_chars, text_of, to_uppercase, uppercase,
};
use crate::types::MonitorConfig;

verus! {

// ---------------------------------------------------------------------------
// UTF-16
// ---------------------------------------------------------------------------

/// Whether a code unit lies in the surrogate range.
pub open spec fn is_surrogate(u: u16) -> bool {
    0xD800 <= u && u <= 0xDFFF
}

/// Whether a code unit is a leading (high) surrogate.
pub open spec fn is_high_surrogate(u: u16) -> bool {
    0xD800 <= u && u <= 0xDBFF
}

/// Whether a code unit is a trailing (low) surrogate.
pub open spec fn is_low_surrogate(u: u16) -> bool {
    0xDC00 <= u && u <= 0xDFFF
}

/// The code point that a surrogate pair stands for.
pub open spec fn surrogate_pair_value(hi: u16, lo: u16) -> u32 {
    (0x10000 + (hi - 0xD800) * 0x400 + (lo - 0xDC00)) as u32
}

/// The character that replaces ill-formed input.
pub open spec fn replacement_char() -> char {
    '\u{FFFD}'
}

/// The UTF-16 code units of one character: one unit below U+10000, else a
/// surrogate pair.
pub open spec fn char_utf16(c: char) -> Seq<u16> {
    let v = c as u32;
    if v < 0x10000 {
        seq![v as u16]
    } else {
        seq![(0xD800 + (v - 0x10000) / 0x400) as u16, (0xDC00 + (v - 0x10000) % 0x400) as u16]
    }
}

/// The UTF-16 encoding of a character sequence.
pub open spec fn utf16_encode(s: Seq<char>) -> Seq<u16>
    decreases s.len(),
{
    if s.len() == 0 {
        Seq::empty()
    } else {
        char_utf16(s[0]) + utf16_encode(s.drop_first())
    }
}

/// Lossy UTF-16 decoding: a unit outside the surrogate range is its own
/// character, a high surrogate followed by a low one is the character of the
/// pair, and any other surrogate becomes U+FFFD.
pub open spec fn utf16_decode_lossy(w: Seq<u16>) -> Seq<char>
    decreases w.len(),
{
    if w.len() == 0 {
        Seq::empty()
    } else if !is_surrogate(w[0]) {
        seq![(w[0] as u32) as char] + utf16_decode_lossy(w.drop_first())
    } else if is_high_surrogate(w[0]) && w.len() > 1 && is_low_surrogate(w[1]) {
        seq![surrogate_pair_value(w[0], w[1]) as char] + utf16_decode_lossy(
            w.subrange(2, w.len() as int),
        )
    } else {
        seq![replacement_char()] + utf16_decode_lossy(w.drop_first())
    }
}

/// The units of a NUL-terminated buffer: those before the first zero unit,
/// or all of them when there is none.
pub open spec fn before_nul(w: Seq<u16>) -> Seq<u16> {
    w.take(first_position(w, 0u16))
}

proof fn lemma_encode_append(a: Seq<char>, b: Seq<char>)
    ensures
        utf16_encode(a + b) == utf16_encode(a) + utf16_encode(b),
    decreases a.len(),
{
    if a.len() == 0 {
        assert(a + b =~= b);
        assert(utf16_encode(a) =~= Seq::<u16>::empty());
        assert(utf16_encode(b) =~= Seq::<u16>::empty() + utf16_encode(b));
    } else {
        lemma_encode_append(a.drop_first(), b);
        assert((a + b).drop_first() =~= a.drop_first() + b);
        assert((a + b)[0] == a[0]);
        assert(utf16_encode(a + b) =~= char_utf16(a[0]) + (utf16_encode(a.drop_first())
            + utf16_encode(b)));
    }
}

proof fn lemma_encode_single(c: char)
    ensures
        utf16_encode(seq![c]) == char_utf16(c),
{
    assert(seq![c].drop_first() =~= Seq::<char>::empty());
    assert(utf16_encode(Seq::<char>::empty()) =~= Seq::<u16>::empty());
    assert(char_utf16(c) + Seq::<u16>::empty() =~= char_utf16(c));
}

proof fn lemma_char_utf16_nonzero(c: char)
    requires
        c != '\0',
    ensures
        forall|k: int| 0 <= k < char_utf16(c).len() ==> char_utf16(c)[k] != 0u16,
{
    let v = c as u32;
    assert(v != 0);
}

proof fn lemma_encode_no_nul(s: Seq<char>)
    requires
        forall|i: int| 0 <= i < s.len() ==> s[i] != '\0',
    ensures
        forall|k: int| 0 <= k < utf16_encode(s).len() ==> utf16_encode(s)[k] != 0u16,
    decreases s.len(),
{
    if s.len() > 0 {
        let rest = s.drop_first();
        assert forall|i: int| 0 <= i < rest.len() implies rest[i] != '\0' by {
            assert(rest[i] == s[i + 1]);
        }
        lemma_encode_no_nul(rest);
        lemma_char_utf16_nonzero(s[0]);
        let e = utf16_encode(s);
        let head = char_utf16(s[0]);
        assert forall|k: int| 0 <= k < e.len() implies e[k] != 0u16 by {
            if k < head.len() {
                assert(e[k] == head[k]);
            } else {
                assert(e[k] == utf16_encode(rest)[k - head.len()]);
            }
        }
    }
}

proof fn lemma_decode_char_then(c: char, rest: Seq<u16>)
    ensures
        utf16_decode_lossy(char_utf16(c) + rest) == seq![c] + utf16_decode_lossy(rest),
{
    let v = c as u32;
    let w = char_utf16(c) + rest;
    if v < 0x10000 {
        assert(w[0] == v as u16);
        assert(!is_surrogate(w[0]));
        assert(((w[0] as u32) as char) == c);
        assert(w.drop_first() =~= rest);
    } else {
        let u = v - 0x10000;
        assert(u == (u / 0x400) * 0x400 + u % 0x400);
        let hi = (0xD800 + u / 0x400) as u16;
        let lo = (0xDC00 + u % 0x400) as u16;
        assert(w[0] == hi);
        assert(w[1] == lo);
        assert(is_high_surrogate(hi));
        assert(is_low_surrogate(lo));
        assert(surrogate_pair_value(hi, lo) == v);
        assert(w.subrange(2, w.len() as int) =~= rest);
    }
}

proof fn lemma_decode_encode(s: Seq<char>)
    ensures
        utf16_decode_lossy(utf16_encode(s)) == s,
    decreases s.len(),
{
    if s.len() == 0 {
        assert(utf16_encode(s) =~= Seq::<u16>::empty());
    } else {
        lemma_decode_encode(s.drop_first());
        lemma_decode_char_then(s[0], utf16_encode(s.drop_first()));
        assert(seq![s[0]] + s.drop_first() =~= s);
    }
}

/// Turning a text without NUL characters into a NUL-terminated UTF-16
/// buffer, then reading that buffer back, gives the text again.
pub proof fn law_wide_round_trip(s: Seq<char>)
    requires
        forall|i: int| 0 <= i < s.len() ==> s[i] != '\0',
    ensures
        utf16_decode_lossy(before_nul(utf16_encode(s).push(0u16))) == s,
{
    let e = utf16_encode(s);
    let w = e.push(0u16);
    lemma_encode_no_nul(s);
    assert forall|k: int| 0 <= k < e.len() implies w[k] != 0u16 by {
        assert(w[k] == e[k]);
    }
    lemma_first_position(w, 0u16, e.len() as int);
    assert(before_nul(w) =~= e);
    lemma_decode_encode(s);
}

proof fn lemma_decode_no_nul(w: Seq<u16>)
    requires
        forall|k: int| 0 <= k < w.len() ==> w[k] != 0u16,
    ensures
        forall|i: int|
            0 <= i < utf16_decode_lossy(w).len() ==> utf16_decode_lossy(w)[i] != '\0',
    decreases w.len(),
{
    if w.len() > 0 {
        let d = utf16_decode_lossy(w);
        let c: char;
        let rest: Seq<u16>;
        if !is_surrogate(w[0]) {
            rest = w.drop_first();
            c = (w[0] as u32) as char;
            assert(w[0] != 0u16);
            assert(c as u32 == w[0] as u32);
        } else if is_high_surrogate(w[0]) && w.len() > 1 && is_low_surrogate(w[1]) {
            rest = w.subrange(2, w.len() as int);
            c = surrogate_pair_value(w[0], w[1]) as char;
            assert(c as u32 == surrogate_pair_value(w[0], w[1]));
        } else {
            rest = w.drop_first();
            c = replacement_char();
        }
        assert forall|k: int| 0 <= k < rest.len() implies rest[k] != 0u16 by {
            if rest.len() == w.len() - 1 {
                assert(rest[k] == w[k + 1]);
            } else {
                assert(rest[k] == w[k + 2]);
            }
        }
        lemma_decode_no_nul(rest);
        assert(d == seq![c] + utf16_decode_lossy(rest));
        assert forall|i: int| 0 <= i < d.len() implies d[i] != '\0' by {
            if i > 0 {
                assert(d[i] == utf16_decode_lossy(rest)[i - 1]);
            }
        }
    }
}

/// The text read from a UTF-16 buffer never holds a NUL character: it ends
/// before the first zero unit.
pub proof fn law_wide_text_has_no_nul(w: Seq<u16>)
    ensures
        forall|i: int|
            0 <= i < utf16_decode_lossy(before_nul(w)).len() ==> utf16_decode_lossy(
                before_nul(w),
            )[i] != '\0',
{
    lemma_first_position_exists(w, 0u16);
    let b = before_nul(w);
    assert forall|k: int| 0 <= k < b.len() implies b[k] != 0u16 by {
        assert(b[k] == w[k]);
    }
    lemma_decode_no_nul(b);
}

/// Whatever follows the first zero unit of a buffer is ignored: a text
/// without NUL characters, encoded and followed by a zero unit and then any
/// units at all (more zeros, or stale data), reads back as that text.
pub proof fn law_wide_text_ends_at_first_nul(s: Seq<char>, rest: Seq<u16>)
    requires
        forall|i: int| 0 <= i < s.len() ==> s[i] != '\0',
    ensures
        utf16_decode_lossy(before_nul(utf16_encode(s).push(0u16) + rest)) == s,
{
    let e = utf16_encode(s);
    let w = e.push(0u16) + rest;
    lemma_encode_no_nul(s);
    assert forall|k: int| 0 <= k < e.len() implies w[k] != 0u16 by {
        assert(w[k] == e[k]);
    }
    assert(w[e.len() as int] == 0u16);
    lemma_first_position(w, 0u16, e.len() as int);
    assert(before_nul(w) =~= e);
    lemma_decode_encode(s);
}

/// The UTF-16 code units of `s` followed by a terminating zero unit.
pub fn to_wide_null(s: &str) -> (w: Vec<u16>)
    ensures
        w@ == utf16_encode(s@).push(0u16),
{
    let chars = chars_of(s);
    let n = chars.len();
    let mut w: Vec<u16> = Vec::new();
    for i in 0..n
        invariant
            n == chars@.len(),
            w@ == utf16_encode(chars@.subrange(0, i as int)),
    {
        let c = chars[i];
        let v = c as u32;
        if v < 0x10000 {
            w.push(v as u16);
        } else {
            let u = v - 0x10000;
            w.push((0xD800 + u / 0x400) as u16);
            w.push((0xDC00 + u % 0x400) as u16);
        }
        proof {
            let prefix = chars@.subrange(0, i as int);
            assert(chars@.subrange(0, i + 1) =~= prefix + seq![c]);
            lemma_encode_append(prefix, seq![c]);
            lemma_encode_single(c);
            assert(w@ =~= utf16_encode(prefix) + char_utf16(c));
        }
    }
    assert(chars@.subrange(0, n as int) =~= chars@);
    w.push(0);
    w
}

/// Decodes UTF-16 units, replacing ill-formed ones with U+FFFD.
fn decode_utf16_lossy(w: &[u16], end: usize) -> (r: Vec<char>)
    requires
        end <= w@.len(),
    ensures
        r@ == utf16_decode_lossy(w@.subrange(0, end as int)),
{
    let ghost all = w@.subrange(0, end as int);
    let mut out: Vec<char> = Vec::new();
    let mut i: usize = 0;
    while i < end
        invariant
            i <= end <= w@.len(),
            all == w@.subrange(0, end as int),
            utf16_decode_lossy(all) == out@ + utf16_decode_lossy(w@.subrange(i as int, end as int)),
        decreases end - i,
    {
        let ghost rest = w@.subrange(i as int, end as int);
        let u = w[i];
        assert(rest[0] == u);
        if u < 0xD800 || u > 0xDFFF {
            let c = char_from_u32(u as u32);
            match c {
                Some(c) => {
                    out.push(c);
                },
                None => {
                    assert(false);
                },
            }
            assert(rest.drop_first() =~= w@.subrange(i + 1, end as int));
            i = i + 1;
        } else if u <= 0xDBFF && i + 1 < end && w[i + 1] >= 0xDC00 && w[i + 1] <= 0xDFFF {
            let lo = w[i + 1];
            assert(rest[1] == lo);
            let v: u32 = 0x10000 + ((u as u32) - 0xD800) * 0x400 + ((lo as u32) - 0xDC00);
            let c = char_from_u32(v);
            match c {
                Some(c) => {
                    out.push(c);
                },
                None => {
                    assert(false);
                },
            }
            assert(rest.subrange(2, rest.len() as int) =~= w@.subrange(i + 2, end as int));
            i = i + 2;
        } else {
            out.push('\u{FFFD}');
            assert(rest.drop_first() =~= w@.subrange(i + 1, end as int));
            i = i + 1;
        }
    }
    assert(w@.subrange(end as int, end as int) =~= Seq::<u16>::empty());
    assert(out@ + Seq::<char>::empty() =~= out@);
    out
}

/// Where the first zero unit of `w` stands, or `w.len()` when there is none.
fn find_nul(w: &[u16]) -> (r: usize)
    ensures
        r == first_position(w@, 0u16),
        r <= w@.len(),
{
    let n = w.len();
    let mut i: usize = 0;
    while i < n && w[i] != 0
        invariant
            i <= n,
            n == w@.len(),
            forall|k: int| 0 <= k < i ==> w@[k] != 0u16,
        decreases n - i,
    {
        i = i + 1;
    }
    proof {
        lemma_first_position(w@, 0u16, i as int);
    }
    i
}

/// The text of a NUL-terminated UTF-16 buffer: the units before the first
/// zero, decoded with ill-formed units replaced by U+FFFD.
pub fn wide_to_string(wide: &[u16]) -> (s: String)
    ensures
        s@ == utf16_decode_lossy(before_nul(wide@)),
        forall|i: int| 0 <= i < s@.len() ==> s@[i] != '\0',
{
    proof {
        law_wide_text_has_no_nul(wide@);
    }
    let end = find_nul(wide);
    let chars = decode_utf16_lossy(wide, end);
    assert(wide@.subrange(0, end as int) =~= before_nul(wide@));
    string_from_chars(&chars)
}

// ---------------------------------------------------------------------------
// Device names and monitor identifiers
// ---------------------------------------------------------------------------

/// The word that precedes the display number in an adapter name.
pub open spec fn display_word() -> Seq<char> {
    seq!['D', 'I', 'S', 'P', 'L', 'A', 'Y']
}

/// Whether `DISPLAY` occurs in `s` at position `i`.
pub open spec fn display_word_at(s: Seq<char>, i: int) -> bool {
    0 <= i && i + 7 <= s.len() && s.subrange(i, i + 7) == display_word()
}

/// Whether `i` is the last position at which `DISPLAY` occurs in `s`.
pub open spec fn is_last_display_word(s: Seq<char>, i: int) -> bool {
    display_word_at(s, i) && forall|k: int| display_word_at(s, k) ==> k <= i
}

/// What follows the last `DISPLAY` in `s`; all of `s` when it holds none.
pub open spec fn after_last_display(s: Seq<char>) -> Seq<char> {
    if exists|i: int| is_last_display_word(s, i) {
        s.skip((choose|i: int| is_last_display_word(s, i)) + 7)
    } else {
        s
    }
}

/// The display number that an upper-case adapter name carries: what follows
/// its last `DISPLAY`, read as a `u32`.
pub open spec fn display_number(upper: Seq<char>) -> Option<u32> {
    parse_u32(after_last_display(upper))
}

fn display_word_at_exec(s: &Vec<char>, i: usize) -> (r: bool)
    requires
        i + 7 <= s@.len(),
    ensures
        r == display_word_at(s@, i as int),
{
    let word = vec!['D', 'I', 'S', 'P', 'L', 'A', 'Y'];
    assert(word@ =~= display_word());
    let mut k: usize = 0;
    while k < 7
        invariant
            k <= 7,
            i + 7 <= s@.len(),
            s@.len() == s.len(),
            word@ == display_word(),
            forall|j: int| 0 <= j < k ==> s@[i + j] == word@[j],
        decreases 7 - k,
    {
        if s[i + k] != word[k] {
            assert(s@.subrange(i as int, i + 7)[k as int] != display_word()[k as int]);
            return false;
        }
        k = k + 1;
    }
    assert(s@.subrange(i as int, i + 7) =~= display_word());
    true
}

/// The display number of an adapter name that is already upper case: what
/// follows its last `DISPLAY` (all of it when there is none), read as a
/// `u32`.
pub fn display_index_of_uppercased(upper: &str) -> (r: Option<u32>)
    ensures
        r == display_number(upper@),
{
    let s = chars_of(upper);
    let n = s.len();
    let mut start: usize = 0;
    let mut found = false;
    if n >= 7 {
        let mut j: usize = n - 6;
        while j > 0 && !found
            invariant
                j <= n - 6,
                n == s@.len(),
                n >= 7,
                !found ==> forall|k: int| j <= k <= n - 7 ==> !display_word_at(s@, k),
                found ==> start >= 7 && is_last_display_word(s@, start - 7),
                !found ==> start == 0,
            decreases j,
        {
            j = j - 1;
            if display_word_at_exec(&s, j) {
                start = j + 7;
                found = true;
            }
        }
        if !found {
            assert forall|i: int| !is_last_display_word(s@, i) by {
                if display_word_at(s@, i) {
                    assert(j <= i <= n - 7);
                }
            }
        }
    } else {
        assert forall|i: int| !is_last_display_word(s@, i) by {}
    }
    proof {
        if found {
            let i = (start - 7) as int;
            let c = choose|i: int| is_last_display_word(s@, i);
            assert(is_last_display_word(s@, c));
            assert(c <= i && i <= c);
            assert(display_word_at(s@, i));
        }
    }
    assert(start <= n);
    let mut tail: Vec<char> = Vec::new();
    let mut k: usize = start;
    while k < n
        invariant
            start <= k <= n,
            n == s@.len(),
            tail@ =~= s@.subrange(start as int, k as int),
        decreases n - k,
    {
        tail.push(s[k]);
        k = k + 1;
    }
    assert(tail@ =~= after_last_display(s@));
    parse_u32_chars(&tail)
}

/// An upper-case adapter name that ends in `DISPLAY` followed by the
/// decimal digits of `n` carries the display number `n`, whatever comes
/// before.
pub proof fn law_display_number_of_name(prefix: Seq<char>, n: u32)
    ensures
        display_number(prefix + display_word() + decimal(n as nat)) == Some(n),
{
    let d = decimal(n as nat);
    let s = prefix + display_word() + d;
    let p = prefix.len() as int;
    lemma_decimal_digits(n as nat);
    assert(s.subrange(p, p + 7) =~= display_word());
    assert forall|k: int| display_word_at(s, k) implies k <= p by {
        if k > p {
            assert(s.subrange(k, k + 7)[6] == 'Y');
            assert(s[k + 6] == d[k + 6 - p - 7]);
            assert(is_digit(d[k + 6 - p - 7]));
        }
    }
    assert(is_last_display_word(s, p));
    let c = choose|i: int| is_last_display_word(s, i);
    assert(is_last_display_word(s, c));
    assert(c == p);
    assert(s.skip(p + 7) =~= d);
    law_parse_u32_of_decimal(n);
}

/// The display number in an adapter name such as `\\.\DISPLAY3`: the name
/// is upper-cased, and what follows its last `DISPLAY` is read as a `u32`.
pub fn display_index(device_name: &str) -> (r: Option<u32>)
    ensures
        r == display_number(uppercase(device_name@)),
{
    let upper = to_uppercase(device_name);
    display_index_of_uppercased(upper.as_str())
}

/// The monitor model within a monitor's device identifier
/// (`MONITOR\<model>\{GUID}\<instance>`): the second `\`-separated field,
/// when there is one and it is not empty.
pub open spec fn model_in_device_id(id: Seq<char>) -> Option<Seq<char>> {
    let i = first_position(id, '\\');
    if i >= id.len() {
        None
    } else {
        let rest = id.skip(i + 1);
        let model = rest.take(first_position(rest, '\\'));
        if model.len() > 0 {
            Some(model)
        } else {
            None
        }
    }
}

/// The monitor model named by a NUL-terminated UTF-16 device identifier of
/// the form `MONITOR\<model>\{GUID}\<instance>`: the second `\`-separated
/// field of the decoded text, or `None` when there is no such field or it is
/// empty.
pub fn get_monitor_model(device_id: &[u16]) -> (r: Option<String>)
    ensures
        text_of(r) == model_in_device_id(utf16_decode_lossy(before_nul(device_id@))),
{
    let text = wide_to_string(device_id);
    let s = chars_of(text.as_str());
    let n = s.len();
    let i = find_char(&s, '\\');
    if i >= n {
        return None;
    }
    let mut rest: Vec<char> = Vec::new();
    let mut k: usize = i + 1;
    while k < n
        invariant
            i + 1 <= k <= n,
            n == s@.len(),
            rest@ =~= s@.subrange(i + 1, k as int),
        decreases n - k,
    {
        rest.push(s[k]);
        k = k + 1;
    }
    assert(rest@ =~= s@.skip(i + 1));
    let j = find_char(&rest, '\\');
    let mut model: Vec<char> = Vec::new();
    let mut k: usize = 0;
    while k < j
        invariant
            k <= j <= rest@.len(),
            model@ =~= rest@.subrange(0, k as int),
        decreases j - k,
    {
        model.push(rest[k]);
        k = k + 1;
    }
    assert(model@ =~= rest@.take(j as int));
    if model.len() == 0 {
        None
    } else {
        Some(string_from_chars(&model))
    }
}

/// The label shown for a monitor: `Display <n>: <model>`, `Display <n>`,
/// `<model>`, or none, depending on which of the two is known.
pub open spec fn friendly_name_of(index: Option<u32>, model: Option<Seq<char>>) -> Option<Seq<char>> {
    match (index, model) {
        (Some(i), Some(m)) => Some("Display "@ + decimal(i as nat) + ": "@ + m),
        (Some(i), None) => Some("Display "@ + decimal(i as nat)),
        (None, Some(m)) => Some(m),
        (None, None) => None,
    }
}

/// A numbered label reads `Display ` followed by the display number in
/// decimal, which parses back to that number; with a model it is the same
/// label followed by `: ` and the model; without a number it is the model
/// alone, and with neither there is no label.
pub proof fn law_friendly_name_numbered(i: u32, m: Seq<char>)
    ensures
        friendly_name_of(Some(i), None) is Some,
        friendly_name_of(Some(i), None).unwrap().take(8) == "Display "@,
        parse_u32(friendly_name_of(Some(i), None).unwrap().skip(8)) == Some(i),
        friendly_name_of(Some(i), Some(m)) == Some(
            friendly_name_of(Some(i), None).unwrap() + ": "@ + m,
        ),
        friendly_name_of(None, Some(m)) == Some(m),
        friendly_name_of(None, None) is None,
{
    reveal_strlit("Display ");
    let l = friendly_name_of(Some(i), None).unwrap();
    assert(l.take(8) =~= "Display "@);
    assert(l.skip(8) =~= decimal(i as nat));
    law_parse_u32_of_decimal(i);
    assert(friendly_name_of(Some(i), Some(m)).unwrap() =~= l + ": "@ + m);
}

/// The label shown for a monitor, from its display number and its model.
pub fn friendly_name(index: Option<u32>, model: Option<String>) -> (r: Option<String>)
    ensures
        text_of(r) == friendly_name_of(index, text_of(model)),
{
    match (index, model) {
        (Some(i), Some(m)) => {
            let mut out: Vec<char> = Vec::new();
            push_str(&mut out, "Display ");
            push_decimal(&mut out, i as u64);
            push_str(&mut out, ": ");
            push_str(&mut out, m.as_str());
            Some(string_from_chars(&out))
        },
        (Some(i), None) => {
            let mut out: Vec<char> = Vec::new();
            push_str(&mut out, "Display ");
            push_decimal(&mut out, i as u64);
            Some(string_from_chars(&out))
        },
        (None, Some(m)) => Some(m),
        (None, None) => None,
    }
}

/// Whether the state flags of a display device have `flag` set (for
/// instance, attached to the desktop, or primary).
pub fn has_state_flag(state_flags: u32, flag: u32) -> (r: bool)
    ensures
        r == (state_flags & flag != 0),
{
    state_flags & flag != 0
}

/// The current mode of one display, as the system reports it.
pub struct DisplaySettings {
    pub position_x: i32,
    pub position_y: i32,
    pub width: u32,
    pub height: u32,
    pub refresh_rate: u32,
    pub bits_per_pel: u32,
    pub orientation: u32,
}

/// The warning given when the current mode of an adapter cannot be read.
pub fn settings_unreadable_message(device_name: &str) -> (r: String)
    ensures
        r@ == "Warning: could not read settings for "@ + device_name@,
{
    let mut out: Vec<char> = Vec::new();
    push_str(&mut out, "Warning: could not read settings for ");
    push_str(&mut out, device_name);
    string_from_chars(&out)
}

/// The saved record of one attached display: its adapter name (a
/// NUL-terminated UTF-16 buffer), the device identifier of the monitor on
/// it when the system gave one, its current mode, and whether it is the
/// primary display.
pub fn monitor_config_from_device(
    adapter_name: &[u16],
    monitor_device_id: Option<&[u16]>,
    settings: &DisplaySettings,
    is_primary: bool,
) -> (r: MonitorConfig)
    ensures
        r.device_name@ == utf16_decode_lossy(before_nul(adapter_name@)),
        ({
            let model = match monitor_device_id {
                Some(id) => model_in_device_id(utf16_decode_lossy(before_nul(id@))),
                None => None,
            };
            text_of(r.friendly_name) == friendly_name_of(
                display_number(uppercase(r.device_name@)),
                model,
            )
        }),
        r.position_x == settings.position_x,
        r.position_y == settings.position_y,
        r.width == settings.width,
        r.height == settings.height,
        r.refresh_rate == settings.refresh_rate,
        r.bits_per_pel == settings.bits_per_pel,
        r.orientation == settings.orientation,
        r.is_primary == is_primary,
{
    let device_name = wide_to_string(adapter_name);
    let model = match monitor_device_id {
        Some(id) => get_monitor_model(id),
        None => None,
    };
    let index = display_index(device_name.as_str());
    let friendly = friendly_name(index, model);
    MonitorConfig {
        device_name,
        friendly_name: friendly,
        position_x: settings.position_x,
        position_y: settings.position_y,
        width: settings.width,
        height: settings.height,
        refresh_rate: settings.refresh_rate,
        bits_per_pel: settings.bits_per_pel,
        orientation: settings.orientation,
        is_primary,
    }
}

} // verus!
