use vstd::prelude::*;

verus! {

// ---------------------------------------------------------------------------
// Decimal numbers
// ---------------------------------------------------------------------------

/// The ASCII digit for a value below ten.
pub open spec fn digit_char(d: nat) -> char {
    ((d + 48) as u32) as char
}

/// Whether a character is an ASCII decimal digit.
pub open spec fn is_digit(c: char) -> bool {
    '0' <= c && c <= '9'
}

/// The value of an ASCII decimal digit.
pub open spec fn digit_value(c: char) -> nat {
    ((c as u32) - 48) as nat
}

/// The decimal representation of a natural number, without leading zeros
/// (zero is written `0`).
pub open spec fn decimal(n: nat) -> Seq<char>
    decreases n,
{
    if n < 10 {
        seq![digit_char(n)]
    } else {
        decimal(n / 10).push(digit_char(n % 10))
    }
}

/// The decimal representation of an integer: a minus sign before the
/// digits of its magnitude when it is negative.
pub open spec fn signed_decimal(i: int) -> Seq<char> {
    if i < 0 {
        seq!['-'] + decimal((-i) as nat)
    } else {
        decimal(i as nat)
    }
}

/// The value of a sequence of ASCII digits read in base ten.
pub open spec fn digits_value(s: Seq<char>) -> nat
    decreases s.len(),
{
    if s.len() == 0 {
        0
    } else {
        digits_value(s.drop_last()) * 10 + digit_value(s.last())
    }
}

/// Whether every character of `s` is an ASCII digit.
pub open spec fn all_digits(s: Seq<char>) -> bool {
    forall|i: int| 0 <= i < s.len() ==> is_digit(#[trigger] s[i])
}

/// What parsing `s` as a `u32` gives: an optional `+`, then one or more
/// ASCII digits whose value fits in 32 bits.
pub open spec fn parse_u32(s: Seq<char>) -> Option<u32> {
    let body = if s.len() > 0 && s[0] == '+' {
        s.drop_first()
    } else {
        s
    };
    if body.len() > 0 && all_digits(body) && digits_value(body) <= u32::MAX {
        Some(digits_value(body) as u32)
    } else {
        None
    }
}

proof fn lemma_digit_char(d: nat)
    requires
        d < 10,
    ensures
        is_digit(digit_char(d)),
        digit_value(digit_char(d)) == d,
        d > 0 ==> digit_char(d) != '0',
        digit_char(d) != '+',
        digit_char(d) as u32 == d + 48,
{
}

pub proof fn lemma_decimal_digits(n: nat)
    ensures
        decimal(n).len() > 0,
        all_digits(decimal(n)),
        digits_value(decimal(n)) == n,
        n > 0 ==> decimal(n)[0] != '0',
    decreases n,
{
    lemma_digit_char(n % 10);
    if n >= 10 {
        lemma_decimal_digits(n / 10);
        let d = decimal(n);
        assert(d.drop_last() =~= decimal(n / 10));
        assert(d.last() == digit_char(n % 10));
        assert(digits_value(d) == digits_value(d.drop_last()) * 10 + digit_value(d.last()));
        assert(n == (n / 10) * 10 + n % 10);
        assert(digits_value(d.drop_last()) == n / 10);
        assert forall|i: int| 0 <= i < d.len() implies is_digit(#[trigger] d[i]) by {
            if i < d.len() - 1 {
                assert(d[i] == decimal(n / 10)[i]);
            }
        }
    } else {
        assert(decimal(n).drop_last() =~= Seq::<char>::empty());
        assert(digits_value(Seq::<char>::empty()) == 0);
        assert(digits_value(decimal(n)) == digits_value(decimal(n).drop_last()) * 10 + digit_value(
            decimal(n).last(),
        ));
    }
}

/// Parsing the decimal representation of a `u32` gives the number back.
pub proof fn law_parse_u32_of_decimal(n: u32)
    ensures
        parse_u32(decimal(n as nat)) == Some(n),
{
    lemma_decimal_digits(n as nat);
    assert(decimal(n as nat)[0] != '+');
}

/// Appends the decimal digits of `n` to `out`.
pub fn push_decimal(out: &mut Vec<char>, n: u64)
    ensures
        final(out)@ == old(out)@ + decimal(n as nat),
{
    // Collect the digits least significant first, then copy them in reverse.
    let mut rev: Vec<char> = Vec::new();
    let mut m: u64 = n;
    let ghost mut pending: nat = n as nat;
    while m >= 10
        invariant
            m as nat == pending,
            decimal(n as nat) =~= decimal(pending) + rev@.reverse(),
        decreases m,
    {
        let c = ((m % 10 + 48) as u8) as char;
        proof {
            lemma_digit_char(pending % 10);
            assert(c == digit_char(pending % 10));
            assert(decimal(pending) == decimal(pending / 10).push(c));
            assert(rev@.push(c).reverse() =~= seq![c] + rev@.reverse());
        }
        rev.push(c);
        m = m / 10;
        proof {
            pending = pending / 10;
        }
    }
    let c = ((m + 48) as u8) as char;
    proof {
        lemma_digit_char(pending);
        assert(decimal(pending) =~= seq![c]);
        assert(rev@.push(c).reverse() =~= seq![c] + rev@.reverse());
    }
    rev.push(c);
    assert(decimal(n as nat) =~= rev@.reverse());
    let k = rev.len();
    let ghost start = out@;
    let mut j: usize = k;
    while j > 0
        invariant
            j <= k,
            k == rev.len(),
            out@ =~= start + rev@.reverse().subrange(0, (k - j) as int),
        decreases j,
    {
        j = j - 1;
        out.push(rev[j]);
        proof {
            assert(rev@.reverse()[(k - j - 1) as int] == rev@[j as int]);
            assert(rev@.reverse().subrange(0, (k - j) as int) =~= rev@.reverse().subrange(
                0,
                (k - j - 1) as int,
            ).push(rev@[j as int]));
        }
    }
    assert(rev@.reverse().subrange(0, k as int) =~= rev@.reverse());
}

/// Appends the decimal representation of `i` (with a leading `-` when
/// negative) to `out`.
pub fn push_signed_decimal(out: &mut Vec<char>, i: i32)
    ensures
        final(out)@ == old(out)@ + signed_decimal(i as int),
{
    if i < 0 {
        out.push('-');
        let magnitude: u64 = (0i64 - (i as i64)) as u64;
        push_decimal(out, magnitude);
        assert(out@ =~= old(out)@ + (seq!['-'] + decimal(magnitude as nat)));
    } else {
        push_decimal(out, i as u64);
    }
}

/// Parses `s` as a `u32`: an optional `+` followed by one or more ASCII
/// digits whose value fits in 32 bits; anything else gives `None`.
pub fn parse_u32_chars(s: &Vec<char>) -> (r: Option<u32>)
    ensures
        r == parse_u32(s@),
{
    let n = s.len();
    let start: usize = if n > 0 && s[0] == '+' { 1 } else { 0 };
    let ghost body = if s@.len() > 0 && s@[0] == '+' { s@.drop_first() } else { s@ };
    assert(body =~= s@.subrange(start as int, n as int));
    if start == n {
        return None;
    }
    let mut value: u64 = 0;
    let mut overflow = false;
    let mut i: usize = start;
    while i < n
        invariant
            start <= i <= n,
            n == s@.len(),
            body =~= s@.subrange(start as int, n as int),
            body == (if s@.len() > 0 && s@[0] == '+' { s@.drop_first() } else { s@ }),
            all_digits(s@.subrange(start as int, i as int)),
            !overflow ==> value == digits_value(s@.subrange(start as int, i as int)),
            !overflow ==> value <= u32::MAX,
            overflow ==> digits_value(s@.subrange(start as int, i as int)) > u32::MAX,
        decreases n - i,
    {
        let c = s[i];
        let ghost prev = s@.subrange(start as int, i as int);
        let ghost next = s@.subrange(start as int, i + 1);
        assert(next.drop_last() =~= prev);
        assert(next.last() == c);
        if !('0' <= c && c <= '9') {
            proof {
                assert(body[i - start] == c);
                assert(!is_digit(body[i - start]));
            }
            return None;
        }
        assert forall|k: int| 0 <= k < next.len() implies is_digit(#[trigger] next[k]) by {
            if k < prev.len() {
                assert(next[k] == prev[k]);
            }
        }
        let d: u64 = (c as u32 - 48) as u64;
        if !overflow {
            value = value * 10 + d;
            if value > 0xFFFF_FFFF {
                overflow = true;
            }
        }
        i = i + 1;
    }
    if overflow {
        None
    } else {
        Some(value as u32)
    }
}

// ---------------------------------------------------------------------------
// Padding
// ---------------------------------------------------------------------------

/// `n` spaces.
pub open spec fn spaces(n: nat) -> Seq<char> {
    Seq::new(n, |i: int| ' ')
}

/// `s` followed by spaces up to `width` characters (left-aligned field).
pub open spec fn pad_right(s: Seq<char>, width: nat) -> Seq<char> {
    if s.len() < width {
        s + spaces((width - s.len()) as nat)
    } else {
        s
    }
}

/// Spaces followed by `s` up to `width` characters (right-aligned field).
pub open spec fn pad_left(s: Seq<char>, width: nat) -> Seq<char> {
    if s.len() < width {
        spaces((width - s.len()) as nat) + s
    } else {
        s
    }
}

/// Appends `n` spaces to `out`.
pub fn push_spaces(out: &mut Vec<char>, n: usize)
    ensures
        final(out)@ == old(out)@ + spaces(n as nat),
{
    let ghost start = out@;
    for i in 0..n
        invariant
            out@ =~= start + spaces(i as nat),
    {
        out.push(' ');
    }
}

/// Appends the characters of `s` to `out`.
pub fn push_chars(out: &mut Vec<char>, s: &Vec<char>)
    ensures
        final(out)@ == old(out)@ + s@,
{
    let ghost start = out@;
    let n = s.len();
    for i in 0..n
        invariant
            n == s.len(),
            out@ =~= start + s@.subrange(0, i as int),
    {
        out.push(s[i]);
        assert(s@.subrange(0, i + 1) =~= s@.subrange(0, i as int).push(s@[i as int]));
    }
    assert(s@.subrange(0, n as int) =~= s@);
}

/// Appends the characters of `s` to `out`.
pub fn push_str(out: &mut Vec<char>, s: &str)
    ensures
        final(out)@ == old(out)@ + s@,
{
    let v = chars_of(s);
    push_chars(out, &v);
}

/// Appends `s` to `out`, padded with spaces on the right to `width`
/// characters.
pub fn push_padded_right(out: &mut Vec<char>, s: &Vec<char>, width: usize)
    ensures
        final(out)@ == old(out)@ + pad_right(s@, width as nat),
{
    push_chars(out, s);
    if s.len() < width {
        push_spaces(out, width - s.len());
        assert(out@ =~= old(out)@ + pad_right(s@, width as nat));
    }
}

/// Appends `s` to `out`, padded with spaces on the left to `width`
/// characters.
pub fn push_padded_left(out: &mut Vec<char>, s: &Vec<char>, width: usize)
    ensures
        final(out)@ == old(out)@ + pad_left(s@, width as nat),
{
    if s.len() < width {
        push_spaces(out, width - s.len());
    }
    push_chars(out, s);
    assert(out@ =~= old(out)@ + pad_left(s@, width as nat));
}

// ---------------------------------------------------------------------------
// Moving between `str`, `String` and characters
// ---------------------------------------------------------------------------

/// The characters of `s`, in order.
pub fn chars_of(s: &str) -> (v: Vec<char>)
    ensures
        v@ == s@,
{
    let mut v: Vec<char> = Vec::new();
    for c in it: s.chars()
        invariant
            v@ == it.seq().subrange(0, it.index() as int),
    {
        v.push(c);
    }
    v
}

/// Builds a `String` from characters (std's `FromIterator<&char>` for
/// `String`); the claim is that the string holds exactly these characters,
/// in order.
#[verifier::external_body]
pub(crate) fn string_from_chars(v: &Vec<char>) -> (s: String)
    ensures
        s@ == v@,
{
    v.iter().collect()
}

/// The characters of an optional string.
pub open spec fn text_of(o: Option<String>) -> Option<Seq<char>> {
    match o {
        Some(s) => Some(s@),
        None => None,
    }
}

// ---------------------------------------------------------------------------
// Searching
// ---------------------------------------------------------------------------

/// `i` is where `x` first occurs in `s`, or `s.len()` when it does not occur.
pub open spec fn is_first_position<T>(s: Seq<T>, x: T, i: int) -> bool {
    &&& 0 <= i <= s.len()
    &&& i < s.len() ==> s[i] == x
    &&& forall|k: int| 0 <= k < i ==> s[k] != x
}

/// Where `x` first occurs in `s`, or `s.len()` when it does not occur.
pub open spec fn first_position<T>(s: Seq<T>, x: T) -> int {
    choose|i: int| is_first_position(s, x, i)
}

/// There is only one first position.
pub proof fn lemma_first_position<T>(s: Seq<T>, x: T, i: int)
    requires
        is_first_position(s, x, i),
    ensures
        first_position(s, x) == i,
{
    let j = first_position(s, x);
    assert(is_first_position(s, x, j));
    if j < i {
        assert(s[j] == x);
    } else if i < j {
        assert(s[i] == x);
    }
}

/// Every sequence has a first position of any value (its length when the
/// value does not occur).
pub proof fn lemma_first_position_exists<T>(s: Seq<T>, x: T)
    ensures
        is_first_position(s, x, first_position(s, x)),
    decreases s.len(),
{
    if s.len() == 0 {
        lemma_first_position(s, x, 0);
    } else {
        let t = s.drop_last();
        lemma_first_position_exists(t, x);
        let j = first_position(t, x);
        if j < t.len() {
            assert(s[j] == t[j]);
            assert forall|k: int| 0 <= k < j implies s[k] != x by {
                assert(s[k] == t[k]);
            }
            lemma_first_position(s, x, j);
        } else {
            assert forall|k: int| 0 <= k < t.len() implies s[k] != x by {
                assert(s[k] == t[k]);
            }
            if s.last() == x {
                lemma_first_position(s, x, t.len() as int);
            } else {
                lemma_first_position(s, x, s.len() as int);
            }
        }
    }
}

/// Where `c` first occurs in `s`, or `s.len()` when it does not occur.
pub fn find_char(s: &Vec<char>, c: char) -> (r: usize)
    ensures
        r == first_position(s@, c),
        r <= s@.len(),
{
    let n = s.len();
    let mut i: usize = 0;
    while i < n && s[i] != c
        invariant
            i <= n,
            n == s@.len(),
            forall|k: int| 0 <= k < i ==> s@[k] != c,
        decreases n - i,
    {
        i = i + 1;
    }
    proof {
        lemma_first_position(s@, c, i as int);
    }
    i
}

// ---------------------------------------------------------------------------
// Facts of std that the library relies on
// ---------------------------------------------------------------------------

/// What std's `str::to_uppercase` gives for a string: its Unicode upper-case
/// form.
pub uninterp spec fn uppercase(s: Seq<char>) -> Seq<char>;

/// What std's `str::to_lowercase` gives for a string: its Unicode lower-case
/// form (which may depend on the context of a character, as for a final
/// capital sigma).
pub uninterp spec fn lowercase(s: Seq<char>) -> Seq<char>;

/// Calls std's `str::to_uppercase`; the claim is only that the result is
/// the one named `uppercase` for these characters (Unicode's case tables are
/// not written out here).
#[verifier::external_body]
pub(crate) fn to_uppercase(s: &str) -> (r: String)
    ensures
        r@ == uppercase(s@),
{
    s.to_uppercase()
}

/// Calls std's `str::to_lowercase`; the claim is only that the result is
/// the one named `lowercase` for these characters.
#[verifier::external_body]
pub(crate) fn to_lowercase(s: &str) -> (r: String)
    ensures
        r@ == lowercase(s@),
{
    s.to_lowercase()
}

/// Whether a number is a Unicode scalar value, that is, the code of a `char`.
pub open spec fn is_scalar_value(v: u32) -> bool {
    v <= 0xD7FF || (0xE000 <= v && v <= 0x10FFFF)
}

/// Calls std's `char::from_u32`, which is documented to give the character
/// with that code when the number is a Unicode scalar value, and `None`
/// otherwise.
#[verifier::external_body]
pub(crate) fn char_from_u32(v: u32) -> (r: Option<char>)
    ensures
        r == (if is_scalar_value(v) {
            Some(v as char)
        } else {
            None
        }),
{
    char::from_u32(v)
}

} // verus!
