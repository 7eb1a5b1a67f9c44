//! Text building: numbers in decimal and hexadecimal, padding and joining.

use vstd::prelude::*;

verus! {

/// `std`'s `String::push`: appends one character to the end of the string.
pub assume_specification[ String::push ](s: &mut String, c: char)
    ensures
        final(s)@ == old(s)@.push(c),
;

/// `n` times the character `c`.
pub open spec fn repeated(c: char, n: nat) -> Seq<char> {
    Seq::new(n, |i: int| c)
}

/// The digit that stands for `d` in lower-case hexadecimal.
pub open spec fn hex_digit(d: nat) -> char {
    if d < 10 {
        (48 + d) as char
    } else {
        (87 + d) as char
    }
}

/// The digit that stands for `d` in upper-case hexadecimal.
pub open spec fn upper_hex_digit(d: nat) -> char {
    if d < 10 {
        (48 + d) as char
    } else {
        (55 + d) as char
    }
}

/// `v` in lower-case hexadecimal without leading zeros.
pub open spec fn hex(v: nat) -> Seq<char>
    decreases v,
{
    if v < 16 {
        seq![hex_digit(v)]
    } else {
        hex(v / 16).push(hex_digit(v % 16))
    }
}

/// `v` in upper-case hexadecimal without leading zeros.
pub open spec fn upper_hex(v: nat) -> Seq<char>
    decreases v,
{
    if v < 16 {
        seq![upper_hex_digit(v)]
    } else {
        upper_hex(v / 16).push(upper_hex_digit(v % 16))
    }
}

/// `v` in decimal without leading zeros.
pub open spec fn dec(v: nat) -> Seq<char>
    decreases v,
{
    if v < 10 {
        seq![hex_digit(v)]
    } else {
        dec(v / 10).push(hex_digit(v % 10))
    }
}

/// `s` with `c` in front, as often as it takes to reach `width` characters.
pub open spec fn pad_left(s: Seq<char>, c: char, width: nat) -> Seq<char> {
    if s.len() >= width {
        s
    } else {
        repeated(c, (width - s.len()) as nat) + s
    }
}

/// `s` with `c` behind, as often as it takes to reach `width` characters.
pub open spec fn pad_right(s: Seq<char>, c: char, width: nat) -> Seq<char> {
    if s.len() >= width {
        s
    } else {
        s + repeated(c, (width - s.len()) as nat)
    }
}

/// `0x` and `v` in hexadecimal.
pub open spec fn prefixed_hex(v: nat) -> Seq<char> {
    "0x"@ + hex(v)
}

/// `0x` and `v` in hexadecimal with at least `digits` digits.
pub open spec fn prefixed_hex_padded(v: nat, digits: nat) -> Seq<char> {
    "0x"@ + pad_left(hex(v), '0', digits)
}

/// Every byte of `s` in two hexadecimal digits.
pub open spec fn hex_bytes(s: Seq<u8>) -> Seq<char>
    decreases s.len(),
{
    if s.len() == 0 {
        Seq::empty()
    } else {
        hex_bytes(s.drop_last()) + pad_left(hex(s.last() as nat), '0', 2)
    }
}

/// The parts one after another, with `separator` between them.
pub open spec fn joined(parts: Seq<Seq<char>>, separator: Seq<char>) -> Seq<char>
    decreases parts.len(),
{
    if parts.len() == 0 {
        Seq::empty()
    } else if parts.len() == 1 {
        parts[0]
    } else {
        joined(parts.drop_last(), separator) + separator + parts.last()
    }
}

/// The contents of each string.
pub open spec fn views(strings: Seq<String>) -> Seq<Seq<char>> {
    strings.map_values(|s: String| s@)
}

/// A visible ASCII character: anything from `!` to `~`.
pub open spec fn is_graphic(b: u8) -> bool {
    0x21 <= b <= 0x7E
}

/// Each byte as the character with that code.
pub open spec fn latin1(s: Seq<u8>) -> Seq<char> {
    s.map_values(|b: u8| b as char)
}

/// The tag itself when all its bytes are visible ASCII characters, its bytes
/// in hexadecimal otherwise.
pub open spec fn ascii_or_hex(s: Seq<u8>) -> Seq<char> {
    if forall|i: int| 0 <= i < s.len() ==> is_graphic(#[trigger] s[i]) {
        latin1(s)
    } else {
        hex_bytes(s)
    }
}

pub broadcast proof fn lemma_concat_assoc(a: Seq<char>, b: Seq<char>, c: Seq<char>)
    ensures
        #[trigger] ((a + b) + c) == a + (b + c),
{
    assert((a + b) + c =~= a + (b + c));
}

pub broadcast proof fn lemma_concat_empty_left(a: Seq<char>)
    ensures
        #[trigger] (Seq::<char>::empty() + a) == a,
{
    assert(Seq::<char>::empty() + a =~= a);
}

pub broadcast proof fn lemma_push_is_concat(a: Seq<char>, c: char)
    ensures
        #[trigger] a.push(c) == a + seq![c],
{
    assert(a.push(c) =~= a + seq![c]);
}

/// Rewriting of concatenated texts to one form, nested to the right.
pub broadcast group group_text {
    lemma_concat_assoc,
    lemma_concat_empty_left,
}

pub fn to_hex_digit(d: u8) -> (c: char)
    requires
        d < 16,
    ensures
        c == hex_digit(d as nat),
{
    if d < 10 {
        (48 + d) as char
    } else {
        (87 + d) as char
    }
}

pub fn to_upper_hex_digit(d: u8) -> (c: char)
    requires
        d < 16,
    ensures
        c == upper_hex_digit(d as nat),
{
    if d < 10 {
        (48 + d) as char
    } else {
        (55 + d) as char
    }
}

pub fn push_hex(v: u64, out: &mut String)
    ensures
        final(out)@ == old(out)@ + hex(v as nat),
    decreases v,
{
    if v >= 16 {
        push_hex(v / 16, out);
    }
    out.push(to_hex_digit((v % 16) as u8));
    assert(out@ =~= old(out)@ + hex(v as nat));
}

pub fn push_upper_hex(v: u64, out: &mut String)
    ensures
        final(out)@ == old(out)@ + upper_hex(v as nat),
    decreases v,
{
    if v >= 16 {
        push_upper_hex(v / 16, out);
    }
    out.push(to_upper_hex_digit((v % 16) as u8));
    assert(out@ =~= old(out)@ + upper_hex(v as nat));
}

pub fn push_dec(v: u64, out: &mut String)
    ensures
        final(out)@ == old(out)@ + dec(v as nat),
    decreases v,
{
    if v >= 10 {
        push_dec(v / 10, out);
    }
    out.push(to_hex_digit((v % 10) as u8));
    assert(out@ =~= old(out)@ + dec(v as nat));
}

pub fn push_repeated(c: char, n: usize, out: &mut String)
    ensures
        final(out)@ == old(out)@ + repeated(c, n as nat),
{
    let mut i: usize = 0;
    while i < n
        invariant
            i <= n,
            out@ == old(out)@ + repeated(c, i as nat),
        decreases n - i,
    {
        out.push(c);
        i += 1;
        assert(out@ =~= old(out)@ + repeated(c, i as nat));
    }
}

/// Append `text` with `c` in front of it up to `width` characters.
pub fn push_padded_left(text: &str, c: char, width: usize, out: &mut String)
    ensures
        final(out)@ == old(out)@ + pad_left(text@, c, width as nat),
{
    broadcast use group_text;

    let n: usize = text.unicode_len();
    if n < width {
        push_repeated(c, width - n, out);
    }
    out.append(text);
}

/// Append `text` with `c` behind it up to `width` characters.
pub fn push_padded_right(text: &str, c: char, width: usize, out: &mut String)
    ensures
        final(out)@ == old(out)@ + pad_right(text@, c, width as nat),
{
    broadcast use group_text;

    let n: usize = text.unicode_len();
    out.append(text);
    if n < width {
        push_repeated(c, width - n, out);
    }
}

pub fn push_hex_padded(v: u64, digits: usize, out: &mut String)
    ensures
        final(out)@ == old(out)@ + pad_left(hex(v as nat), '0', digits as nat),
{
    broadcast use group_text;

    let mut text = String::new();
    push_hex(v, &mut text);
    push_padded_left(text.as_str(), '0', digits, out);
}

pub fn push_prefixed_hex_padded(v: u64, digits: usize, out: &mut String)
    ensures
        final(out)@ == old(out)@ + prefixed_hex_padded(v as nat, digits as nat),
{
    broadcast use group_text;

    out.append("0x");
    push_hex_padded(v, digits, out);
}

pub fn push_dec_padded(v: u64, c: char, width: usize, out: &mut String)
    ensures
        final(out)@ == old(out)@ + pad_left(dec(v as nat), c, width as nat),
{
    broadcast use group_text;

    let mut text = String::new();
    push_dec(v, &mut text);
    push_padded_left(text.as_str(), c, width, out);
}

/// `0x` and `v` in hexadecimal.
pub fn format_hex_u64(v: u64) -> (r: String)
    ensures
        r@ == prefixed_hex(v as nat),
{
    broadcast use group_text;

    let mut out = String::new();
    out.append("0x");
    push_hex(v, &mut out);
    out
}

/// `v` in decimal.
pub fn format_dec(v: u64) -> (r: String)
    ensures
        r@ == dec(v as nat),
{
    broadcast use group_text;

    let mut out = String::new();
    push_dec(v, &mut out);
    out
}

pub fn push_hex_bytes(s: &[u8], out: &mut String)
    ensures
        final(out)@ == old(out)@ + hex_bytes(s@),
{
    let mut i: usize = 0;
    assert(s@.subrange(0, 0) =~= Seq::empty());
    while i < s.len()
        invariant
            i <= s@.len(),
            out@ == old(out)@ + hex_bytes(s@.subrange(0, i as int)),
        decreases s@.len() - i,
    {
        broadcast use group_text;

        push_hex_padded(s[i] as u64, 2, out);
        i += 1;
        assert(s@.subrange(0, i as int).drop_last() =~= s@.subrange(0, i - 1));
    }
    assert(s@.subrange(0, s@.len() as int) =~= s@);
}

/// The sixteen bytes of a key fingerprint in hexadecimal.
pub fn hex16(bytes: &[u8; 16]) -> (r: String)
    ensures
        r@ == hex_bytes(bytes@),
{
    broadcast use group_text;

    let mut out = String::new();
    push_hex_bytes(bytes, &mut out);
    out
}

/// Whether every byte is a visible ASCII character.
pub fn all_graphic(s: &[u8]) -> (r: bool)
    ensures
        r == (forall|i: int| 0 <= i < s@.len() ==> is_graphic(#[trigger] s@[i])),
{
    let mut i: usize = 0;
    while i < s.len()
        invariant
            i <= s@.len(),
            forall|j: int| 0 <= j < i ==> is_graphic(#[trigger] s@[j]),
        decreases s@.len() - i,
    {
        if !(s[i] >= 0x21 && s[i] <= 0x7E) {
            return false;
        }
        i += 1;
    }
    true
}

pub fn push_latin1(s: &[u8], out: &mut String)
    ensures
        final(out)@ == old(out)@ + latin1(s@),
{
    let mut i: usize = 0;
    assert(out@ =~= old(out)@ + latin1(s@.subrange(0, 0)));
    while i < s.len()
        invariant
            i <= s@.len(),
            out@ == old(out)@ + latin1(s@.subrange(0, i as int)),
        decreases s@.len() - i,
    {
        out.push(s[i] as char);
        i += 1;
        assert(out@ =~= old(out)@ + latin1(s@.subrange(0, i as int)));
    }
    assert(s@.subrange(0, s@.len() as int) =~= s@);
}

/// The four bytes as text when all are visible ASCII characters, else in
/// hexadecimal.
pub fn ascii_or_hex_4(bytes: &[u8; 4]) -> (r: String)
    ensures
        r@ == ascii_or_hex(bytes@),
{
    broadcast use group_text;

    let mut out = String::new();
    if all_graphic(bytes) {
        push_latin1(bytes, &mut out);
    } else {
        push_hex_bytes(bytes, &mut out);
    }
    out
}

/// Text of a tag in a table cell.
pub fn magic_string(bytes: &[u8; 4]) -> (r: String)
    ensures
        r@ == ascii_or_hex(bytes@),
{
    ascii_or_hex_4(bytes)
}

/// The strings one after another, with `separator` between them.
pub fn join(parts: &Vec<String>, separator: &str) -> (r: String)
    ensures
        r@ == joined(views(parts@), separator@),
{
    broadcast use group_text;

    let mut out = String::new();
    let mut i: usize = 0;
    while i < parts.len()
        invariant
            i <= parts@.len(),
            out@ == joined(views(parts@.subrange(0, i as int)), separator@),
        decreases parts@.len() - i,
    {
        broadcast use group_text;

        if i > 0 {
            out.append(separator);
        }
        out.append(parts[i].as_str());
        i += 1;
        proof {
            let now = views(parts@.subrange(0, i as int));
            assert(now.drop_last() =~= views(parts@.subrange(0, i - 1)));
            assert(now.last() == parts@[i - 1]@);
        }
    }
    assert(parts@.subrange(0, parts@.len() as int) =~= parts@);
    out
}

/// A character of a debug-quoted text: quotes and backslashes are escaped.
pub open spec fn quoted_char(b: u8) -> Seq<char> {
    if b == 0x22 || b == 0x5C {
        seq!['\\', b as char]
    } else {
        seq![b as char]
    }
}

/// The characters of a debug-quoted text, without the surrounding quotes.
pub open spec fn quoted_chars(s: Seq<u8>) -> Seq<char>
    decreases s.len(),
{
    if s.len() == 0 {
        Seq::empty()
    } else {
        quoted_chars(s.drop_last()) + quoted_char(s.last())
    }
}

pub fn push_quoted_chars(s: &[u8], out: &mut String)
    ensures
        final(out)@ == old(out)@ + quoted_chars(s@),
{
    let mut i: usize = 0;
    assert(s@.subrange(0, 0) =~= Seq::empty());
    while i < s.len()
        invariant
            i <= s@.len(),
            out@ == old(out)@ + quoted_chars(s@.subrange(0, i as int)),
        decreases s@.len() - i,
    {
        broadcast use {group_text, lemma_push_is_concat};

        let ghost before = out@;
        if s[i] == 0x22 || s[i] == 0x5C {
            out.push('\\');
        }
        out.push(s[i] as char);
        assert(out@ =~= before + quoted_char(s@[i as int]));
        i += 1;
        assert(s@.subrange(0, i as int).drop_last() =~= s@.subrange(0, i - 1));
    }
    assert(s@.subrange(0, s@.len() as int) =~= s@);
}

/// The number that a digit stands for, in either case.
pub open spec fn digit_value(c: char) -> int {
    if '0' <= c && c <= '9' {
        c as int - '0' as int
    } else if 'a' <= c && c <= 'f' {
        c as int - 'a' as int + 10
    } else {
        c as int - 'A' as int + 10
    }
}

/// The number that some digits stand for, the most significant first.
pub open spec fn number_in(s: Seq<char>, base: int) -> int
    decreases s.len(),
{
    if s.len() == 0 {
        0
    } else {
        number_in(s.drop_last(), base) * base + digit_value(s.last())
    }
}

proof fn lemma_digit_values(d: nat)
    requires
        d < 16,
    ensures
        digit_value(hex_digit(d)) == d,
        digit_value(upper_hex_digit(d)) == d,
        d < 10 ==> '0' <= hex_digit(d) && hex_digit(d) <= '9',
        d >= 10 ==> 'a' <= hex_digit(d) && hex_digit(d) <= 'f',
        d >= 10 ==> 'A' <= upper_hex_digit(d) && upper_hex_digit(d) <= 'F',
{
}

/// The decimal text of a number stands for the number.
pub proof fn lemma_dec_tells_number(v: nat)
    ensures
        number_in(dec(v), 10) == v,
        dec(v).len() > 0,
        v > 0 ==> dec(v)[0] != '0',
        forall|i: int| 0 <= i < dec(v).len() ==> '0' <= #[trigger] dec(v)[i] && dec(v)[i] <= '9',
    decreases v,
{
    reveal_with_fuel(number_in, 2);
    lemma_digit_values(v % 10);
    if v < 10 {
        lemma_digit_values(v);
        assert(dec(v).drop_last() =~= Seq::<char>::empty());
    } else {
        lemma_dec_tells_number(v / 10);
        assert(dec(v).drop_last() =~= dec(v / 10));
    }
}

/// The hexadecimal text of a number stands for the number, in lower or in upper
/// case.
pub proof fn lemma_hex_tells_number(v: nat)
    ensures
        number_in(hex(v), 16) == v,
        number_in(upper_hex(v), 16) == v,
        hex(v).len() > 0,
        upper_hex(v).len() == hex(v).len(),
        v > 0 ==> hex(v)[0] != '0' && upper_hex(v)[0] != '0',
        forall|i: int|
            0 <= i < hex(v).len() ==> ('0' <= #[trigger] hex(v)[i] && hex(v)[i] <= '9') || ('a'
                <= hex(v)[i] && hex(v)[i] <= 'f'),
        forall|i: int|
            0 <= i < upper_hex(v).len() ==> ('0' <= #[trigger] upper_hex(v)[i] && upper_hex(v)[i]
                <= '9') || ('A' <= upper_hex(v)[i] && upper_hex(v)[i] <= 'F'),
    decreases v,
{
    reveal_with_fuel(number_in, 2);
    lemma_digit_values(v % 16);
    if v < 16 {
        lemma_digit_values(v);
        assert(hex(v).drop_last() =~= Seq::<char>::empty());
        assert(upper_hex(v).drop_last() =~= Seq::<char>::empty());
    } else {
        lemma_hex_tells_number(v / 16);
        assert(hex(v).drop_last() =~= hex(v / 16));
        assert(upper_hex(v).drop_last() =~= upper_hex(v / 16));
    }
}

/// The text of some bytes has two digits for each, in order, that stand for it.
pub proof fn lemma_hex_bytes_tell_bytes(s: Seq<u8>)
    ensures
        hex_bytes(s).len() == 2 * s.len(),
        forall|i: int|
            0 <= i < s.len() ==> #[trigger] s[i] == 16 * digit_value(hex_bytes(s)[2 * i])
                + digit_value(hex_bytes(s)[2 * i + 1]),
    decreases s.len(),
{
    if s.len() > 0 {
        let rest = s.drop_last();
        lemma_hex_bytes_tell_bytes(rest);
        let v = s.last() as nat;
        let pair = pad_left(hex(v), '0', 2);
        lemma_digit_values(v % 16);
        lemma_digit_values(v / 16);
        reveal_with_fuel(hex, 2);
        if v < 16 {
            assert(pair =~= seq!['0', hex_digit(v)]);
        } else {
            assert(hex(v) =~= seq![hex_digit(v / 16), hex_digit(v % 16)]);
        }
        let all = hex_bytes(s);
        assert forall|i: int| 0 <= i < s.len() implies #[trigger] s[i] == 16 * digit_value(
            all[2 * i],
        ) + digit_value(all[2 * i + 1]) by {
            if i < rest.len() {
                assert(rest[i] == s[i]);
                assert(all[2 * i] == hex_bytes(rest)[2 * i]);
                assert(all[2 * i + 1] == hex_bytes(rest)[2 * i + 1]);
            } else {
                assert(all[2 * i] == pair[0]);
                assert(all[2 * i + 1] == pair[1]);
            }
        }
    }
}

/// Bytes from `0x21` up to `0x7E` are shown as the characters that they are; if
/// there is any other, all are shown by their digits.
pub proof fn lemma_shown_bytes(s: Seq<u8>)
    ensures
        (forall|i: int| 0 <= i < s.len() ==> 0x21 <= #[trigger] s[i] && s[i] <= 0x7E) ==> {
            &&& ascii_or_hex(s).len() == s.len()
            &&& forall|i: int|
                0 <= i < s.len() ==> #[trigger] ascii_or_hex(s)[i] as int == s[i] as int
        },
        !(forall|i: int| 0 <= i < s.len() ==> 0x21 <= #[trigger] s[i] && s[i] <= 0x7E)
            ==> ascii_or_hex(s) == hex_bytes(s),
{
    let plain = forall|i: int| 0 <= i < s.len() ==> 0x21 <= #[trigger] s[i] && s[i] <= 0x7E;
    if plain {
        assert forall|i: int| 0 <= i < s.len() implies is_graphic(#[trigger] s[i]) by {}
    } else {
        let i = choose|i: int| 0 <= i < s.len() && !(0x21 <= #[trigger] s[i] && s[i] <= 0x7E);
        assert(!is_graphic(s[i]));
    }
}

} // verus!
