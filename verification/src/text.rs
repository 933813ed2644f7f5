//! Character-level helpers: decimal and hexadecimal digits, whitespace,
//! and building strings one piece at a time.
use vstd::prelude::*;

verus! {

pub open spec fn digit(n: int) -> char {
    (48 + n) as char
}

pub open spec fn is_digit(c: char) -> bool {
    '0' <= c <= '9'
}

pub open spec fn digit_value(c: char) -> int {
    c as int - 48
}

/// Decimal digits of `n` without leading zeros ("0" for zero).
pub open spec fn decimal(n: nat) -> Seq<char>
    decreases n,
{
    if n < 10 {
        seq![digit(n as int)]
    } else {
        decimal(n / 10).push(digit((n % 10) as int))
    }
}

/// Exactly two digits, for `n < 100`.
pub open spec fn two_digits(n: int) -> Seq<char> {
    seq![digit(n / 10), digit(n % 10)]
}

/// Exactly four digits, for `n < 10000`.
pub open spec fn four_digits(n: int) -> Seq<char> {
    seq![digit(n / 1000), digit((n / 100) % 10), digit((n / 10) % 10), digit(n % 10)]
}

pub open spec fn hex_digit(n: int) -> char {
    if n < 10 {
        (48 + n) as char
    } else {
        (87 + n) as char
    }
}

/// Eight lowercase hexadecimal digits of `n < 2^32`, most significant first.
pub open spec fn hex8(n: int) -> Seq<char> {
    Seq::new(8, |i: int| hex_digit((n / pow16(7 - i)) % 16))
}

pub open spec fn pow16(k: int) -> int
    decreases k,
{
    if k <= 0 {
        1
    } else {
        16 * pow16(k - 1)
    }
}

/// The characters that `char::is_whitespace` accepts (Unicode White_Space).
pub open spec fn is_space(c: char) -> bool {
    ||| ('\u{9}' <= c <= '\u{d}')
    ||| c == ' '
    ||| c == '\u{85}'
    ||| c == '\u{a0}'
    ||| c == '\u{1680}'
    ||| ('\u{2000}' <= c <= '\u{200a}')
    ||| c == '\u{2028}'
    ||| c == '\u{2029}'
    ||| c == '\u{202f}'
    ||| c == '\u{205f}'
    ||| c == '\u{3000}'
}

pub fn is_space_char(c: char) -> (r: bool)
    ensures
        r == is_space(c),
{
    ('\u{9}' <= c && c <= '\u{d}') || c == ' ' || c == '\u{85}' || c == '\u{a0}' || c
        == '\u{1680}' || ('\u{2000}' <= c && c <= '\u{200a}') || c == '\u{2028}' || c
        == '\u{2029}' || c == '\u{202f}' || c == '\u{205f}' || c == '\u{3000}'
}

/// Appends one character (`String::push`).
#[verifier::external_body]
pub fn push_char(s: &mut String, c: char)
    ensures
        final(s)@ == old(s)@.push(c),
{
    s.push(c);
}

/// Appends a string slice.
pub fn push_str(s: &mut String, t: &str)
    ensures
        final(s)@ == old(s)@ + t@,
{
    s.append(t);
}

/// The characters of a string slice, in order.
pub fn chars_of(s: &str) -> (r: Vec<char>)
    ensures
        r@ == s@,
{
    let mut out: Vec<char> = Vec::new();
    for c in it: s.chars()
        invariant
            out@ == it.seq().take(it.index() as int),
            it.seq() == s@,
    {
        out.push(c);
    }
    out
}

/// A string holding the given characters.
pub fn string_of(v: &Vec<char>) -> (r: String)
    ensures
        r@ == v@,
{
    let mut out = String::new();
    for i in 0..v.len()
        invariant
            out@ == v@.take(i as int),
    {
        push_char(&mut out, v[i]);
        assert(v@.take(i as int).push(v@[i as int]) == v@.take(i + 1));
    }
    assert(v@.take(v.len() as int) == v@);
    out
}

/// A string holding the characters `v[from..to]`.
pub fn string_of_range(v: &Vec<char>, from: usize, to: usize) -> (r: String)
    requires
        from <= to <= v.len(),
    ensures
        r@ == v@.subrange(from as int, to as int),
{
    let mut out = String::new();
    let mut i = from;
    while i < to
        invariant
            from <= i <= to <= v.len(),
            out@ == v@.subrange(from as int, i as int),
        decreases to - i,
    {
        push_char(&mut out, v[i]);
        assert(v@.subrange(from as int, i as int).push(v@[i as int]) == v@.subrange(
            from as int,
            i + 1,
        ));
        i = i + 1;
    }
    out
}

pub fn digit_char(n: u32) -> (c: char)
    requires
        n < 10,
    ensures
        c == digit(n as int),
{
    if n == 0 {
        '0'
    } else if n == 1 {
        '1'
    } else if n == 2 {
        '2'
    } else if n == 3 {
        '3'
    } else if n == 4 {
        '4'
    } else if n == 5 {
        '5'
    } else if n == 6 {
        '6'
    } else if n == 7 {
        '7'
    } else if n == 8 {
        '8'
    } else {
        '9'
    }
}

pub fn hex_char(n: u64) -> (c: char)
    requires
        n < 16,
    ensures
        c == hex_digit(n as int),
{
    if n < 10 {
        digit_char(n as u32)
    } else if n == 10 {
        'a'
    } else if n == 11 {
        'b'
    } else if n == 12 {
        'c'
    } else if n == 13 {
        'd'
    } else if n == 14 {
        'e'
    } else {
        'f'
    }
}

/// Appends the decimal digits of `n`.
pub fn push_decimal(out: &mut String, n: u64)
    ensures
        final(out)@ == old(out)@ + decimal(n as nat),
    decreases n,
{
    if n >= 10 {
        push_decimal(out, n / 10);
    }
    let c = digit_char((n % 10) as u32);
    push_char(out, c);
    proof {
        if n < 10 {
            assert(decimal(n as nat) == seq![digit(n as int)]);
        } else {
            assert(decimal(n as nat) == decimal((n / 10) as nat).push(digit((n % 10) as int)));
        }
    }
}

pub fn push_two_digits(out: &mut String, n: u32)
    requires
        n < 100,
    ensures
        final(out)@ == old(out)@ + two_digits(n as int),
{
    let a = digit_char(n / 10);
    push_char(out, a);
    let b = digit_char(n % 10);
    push_char(out, b);
}

pub fn push_four_digits(out: &mut String, n: u32)
    requires
        n < 10000,
    ensures
        final(out)@ == old(out)@ + four_digits(n as int),
{
    let a = digit_char(n / 1000);
    push_char(out, a);
    let b = digit_char((n / 100) % 10);
    push_char(out, b);
    let c = digit_char((n / 10) % 10);
    push_char(out, c);
    let d = digit_char(n % 10);
    push_char(out, d);
}

/// Appends eight lowercase hexadecimal digits of `n`.
pub fn push_hex8(out: &mut String, n: u64)
    requires
        n < 0x1_0000_0000,
    ensures
        final(out)@ == old(out)@ + hex8(n as int),
{
    let ghost start = out@;
    let mut k: u64 = 8;
    let mut div: u64 = 0x1000_0000;
    proof {
        reveal_with_fuel(pow16, 9);
    }
    while k > 0
        invariant
            k <= 8,
            div as int == pow16(k - 1),
            n < 0x1_0000_0000,
            out@ == start + hex8(n as int).take(8 - k),
        decreases k,
    {
        proof {
            reveal_with_fuel(pow16, 9);
        }
        let c = hex_char((n / div) % 16);
        proof {
            assert(c == hex8(n as int)[8 - k]);
            assert(hex8(n as int).take(8 - k).push(c) == hex8(n as int).take(8 - k + 1));
        }
        push_char(out, c);
        k = k - 1;
        if k > 0 {
            div = div / 16;
        }
    }
    assert(hex8(n as int).take(8) == hex8(n as int));
}

/// `str::trim_start`: drops leading whitespace.
pub open spec fn trim_start(s: Seq<char>) -> Seq<char>
    decreases s.len(),
{
    if s.len() > 0 && is_space(s[0]) {
        trim_start(s.skip(1))
    } else {
        s
    }
}

/// `str::trim_end`: drops trailing whitespace.
pub open spec fn trim_end(s: Seq<char>) -> Seq<char>
    decreases s.len(),
{
    if s.len() > 0 && is_space(s.last()) {
        trim_end(s.drop_last())
    } else {
        s
    }
}

/// `str::trim`.
pub open spec fn trim(s: Seq<char>) -> Seq<char> {
    trim_end(trim_start(s))
}

/// `str::split` on one character: the pieces between occurrences of `c`
/// (one empty piece for empty text).
pub open spec fn split_on(s: Seq<char>, c: char) -> Seq<Seq<char>>
    decreases s.len(),
{
    if s.len() == 0 {
        seq![Seq::<char>::empty()]
    } else {
        let rest = split_on(s.drop_last(), c);
        if s.last() == c {
            rest.push(Seq::<char>::empty())
        } else {
            rest.update(rest.len() - 1, rest.last().push(s.last()))
        }
    }
}

pub open spec fn strip_cr(s: Seq<char>) -> Seq<char> {
    if s.len() > 0 && s.last() == '\r' {
        s.drop_last()
    } else {
        s
    }
}

/// `str::lines`: split at `\n`, a `\r` before it dropped; a final line ending is optional.
pub open spec fn lines_of(s: Seq<char>) -> Seq<Seq<char>> {
    let p = split_on(s, '\n');
    if s.len() == 0 {
        Seq::empty()
    } else if s.last() == '\n' {
        p.drop_last().map_values(|l: Seq<char>| strip_cr(l))
    } else {
        p.drop_last().map_values(|l: Seq<char>| strip_cr(l)).push(p.last())
    }
}

/// `str::contains` for a text needle.
pub open spec fn contains_at(hay: Seq<char>, needle: Seq<char>, i: int) -> bool {
    0 <= i && i + needle.len() <= hay.len() && hay.subrange(i, i + needle.len()) == needle
}

pub open spec fn seq_contains(hay: Seq<char>, needle: Seq<char>) -> bool {
    exists|i: int| contains_at(hay, needle, i)
}

pub open spec fn is_ascii_text(s: Seq<char>) -> bool {
    forall|i: int| 0 <= i < s.len() ==> (s[i] as int) < 128
}

pub open spec fn ascii_lower_char(c: char) -> char {
    if 'A' <= c <= 'Z' {
        ((c as int) + 32) as char
    } else {
        c
    }
}

pub open spec fn ascii_lower(s: Seq<char>) -> Seq<char> {
    s.map_values(|c: char| ascii_lower_char(c))
}

/// What `str::to_lowercase` gives for text that is not all ASCII.
pub uninterp spec fn unicode_lowercase(s: Seq<char>) -> Seq<char>;

/// `str::to_lowercase`.
pub open spec fn lowercase(s: Seq<char>) -> Seq<char> {
    if is_ascii_text(s) {
        ascii_lower(s)
    } else {
        unicode_lowercase(s)
    }
}

/// `str::to_lowercase`: ASCII letters map to their lowercase forms and other ASCII
/// characters stay; the full Unicode mapping for other text is only named.
#[verifier::external_body]
fn str_to_lowercase(s: &str) -> (r: String)
    ensures
        r@ == unicode_lowercase(s@) || is_ascii_text(s@),
        is_ascii_text(s@) ==> r@ == ascii_lower(s@),
{
    s.to_lowercase()
}

/// The lowercase form of a text.
pub fn to_lowercase(s: &str) -> (r: String)
    ensures
        r@ == lowercase(s@),
{
    str_to_lowercase(s)
}

/// Range of `v[from..to]` left after trimming whitespace at both ends.
pub fn trim_range(v: &Vec<char>, from: usize, to: usize) -> (r: (usize, usize))
    requires
        from <= to <= v.len(),
    ensures
        from <= r.0 <= r.1 <= to,
        v@.subrange(r.0 as int, r.1 as int) == trim(v@.subrange(from as int, to as int)),
{
    let mut a = from;
    while a < to && is_space_char(v[a])
        invariant
            from <= a <= to <= v.len(),
            trim_start(v@.subrange(from as int, to as int)) == trim_start(
                v@.subrange(a as int, to as int),
            ),
        decreases to - a,
    {
        assert(v@.subrange(a as int, to as int).skip(1) == v@.subrange(a + 1, to as int));
        a = a + 1;
    }
    assert(trim_start(v@.subrange(a as int, to as int)) == v@.subrange(a as int, to as int));
    let mut b = to;
    while b > a && is_space_char(v[b - 1])
        invariant
            from <= a <= b <= to <= v.len(),
            trim_end(v@.subrange(a as int, to as int)) == trim_end(
                v@.subrange(a as int, b as int),
            ),
        decreases b - a,
    {
        assert(v@.subrange(a as int, b as int).drop_last() == v@.subrange(a as int, b - 1));
        b = b - 1;
    }
    (a, b)
}

/// Whether `needle` occurs in `hay`.
pub fn contains_chars(hay: &Vec<char>, needle: &Vec<char>) -> (r: bool)
    ensures
        r == seq_contains(hay@, needle@),
{
    if needle.len() == 0 {
        assert(hay@.subrange(0, 0) =~= needle@);
        assert(contains_at(hay@, needle@, 0));
        return true;
    }
    if needle.len() > hay.len() {
        assert forall|i: int| !contains_at(hay@, needle@, i) by {}
        return false;
    }
    let last = hay.len() - needle.len();
    let mut i: usize = 0;
    while i <= last
        invariant
            1 <= needle.len() <= hay.len(),
            last == hay.len() - needle.len(),
            i <= last + 1,
            forall|j: int| 0 <= j < i ==> !contains_at(hay@, needle@, j),
        decreases last + 1 - i,
    {
        let mut k: usize = 0;
        let mut same = true;
        assert(hay@.subrange(i as int, i as int) =~= needle@.take(0));
        while k < needle.len()
            invariant
                i <= last,
                last == hay.len() - needle.len(),
                k <= needle.len(),
                same == (hay@.subrange(i as int, i + k) == needle@.take(k as int)),
            decreases needle.len() - k,
        {
            let ghost a = hay@.subrange(i as int, i + k);
            let ghost b = needle@.take(k as int);
            if hay[i + k] != needle[k] {
                same = false;
            }
            proof {
                let x = hay@[i + k];
                let y = needle@[k as int];
                assert(hay@.subrange(i as int, i + k + 1) =~= a.push(x));
                assert(needle@.take(k + 1) =~= b.push(y));
                if a.push(x) == b.push(y) {
                    assert(a =~= a.push(x).drop_last());
                    assert(b =~= b.push(y).drop_last());
                    assert(x == a.push(x).last());
                    assert(y == b.push(y).last());
                }
            }
            k = k + 1;
        }
        if same {
            assert(needle@.take(needle.len() as int) =~= needle@);
            assert(contains_at(hay@, needle@, i as int));
            return true;
        }
        assert(needle@.take(needle.len() as int) =~= needle@);
        i = i + 1;
    }
    assert forall|j: int| !contains_at(hay@, needle@, j) by {}
    false
}

/// Whether two texts are equal, character by character.
pub fn same_text(a: &str, b: &str) -> (r: bool)
    ensures
        r == (a@ == b@),
{
    let x = chars_of(a);
    let y = chars_of(b);
    if x.len() != y.len() {
        return false;
    }
    let mut i: usize = 0;
    while i < x.len()
        invariant
            x@ == a@,
            y@ == b@,
            x.len() == y.len(),
            i <= x.len(),
            forall|k: int| 0 <= k < i ==> x@[k] == y@[k],
        decreases x.len() - i,
    {
        if x[i] != y[i] {
            return false;
        }
        i = i + 1;
    }
    assert(x@ =~= y@);
    true
}

/// The UTF-8 bytes of a text.
pub open spec fn utf8(s: Seq<char>) -> Seq<u8> {
    vstd::utf8::encode_utf8(s)
}

/// `String::insert`: puts `ch` at byte offset `idx`, which must start a character
/// or be the end of the text.
#[verifier::external_body]
pub fn string_insert(s: &mut String, idx: usize, ch: char)
    requires
        vstd::utf8::is_char_boundary(utf8(old(s)@), idx as int),
    ensures
        utf8(final(s)@) == utf8(old(s)@).take(idx as int) + utf8(seq![ch]) + utf8(old(s)@).skip(
            idx as int,
        ),
{
    s.insert(idx, ch);
}

/// `String::remove`: takes out the character that starts at byte offset `idx`,
/// which must start a character before the end of the text, and returns it;
/// its bytes are the text's from `idx` on.
#[verifier::external_body]
pub fn string_remove(s: &mut String, idx: usize) -> (r: char)
    requires
        vstd::utf8::is_char_boundary(utf8(old(s)@), idx as int),
        idx < utf8(old(s)@).len(),
    ensures
        idx + utf8(seq![r]).len() <= utf8(old(s)@).len(),
        utf8(old(s)@).subrange(idx as int, idx + utf8(seq![r]).len()) == utf8(seq![r]),
        utf8(final(s)@) == utf8(old(s)@).take(idx as int) + utf8(old(s)@).skip(
            idx + utf8(seq![r]).len(),
        ),
{
    s.remove(idx)
}

/// `str::len`: the length in bytes.
pub fn byte_length(s: &str) -> (r: usize)
    requires
        utf8(s@).len() <= usize::MAX,
    ensures
        r == utf8(s@).len(),
{
    s.len()
}

} // verus!
