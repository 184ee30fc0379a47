//! Text: UTF-8 bytes, comparison, and decimal and hexadecimal spellings.
use vstd::prelude::*;
use vstd::string::*;
use vstd::utf8::*;

verus! {

/// Different texts have different UTF-8 bytes.
pub proof fn lemma_utf8_injective(a: Seq<char>, b: Seq<char>)
    ensures
        encode_utf8(a) == encode_utf8(b) <==> a == b,
{
    encode_utf8_decode_utf8(a);
    encode_utf8_decode_utf8(b);
}

/// Text is empty exactly when its bytes are.
pub proof fn lemma_utf8_empty(a: Seq<char>)
    ensures
        encode_utf8(a).len() == 0 <==> a.len() == 0,
        encode_utf8(Seq::<char>::empty()) == Seq::<u8>::empty(),
{
    assert(encode_utf8(Seq::<char>::empty()) =~= Seq::<u8>::empty());
    lemma_utf8_injective(a, Seq::<char>::empty());
    if encode_utf8(a).len() == 0 {
        assert(encode_utf8(a) =~= Seq::<u8>::empty());
    }
    if a.len() == 0 {
        assert(a =~= Seq::<char>::empty());
    }
}

/// A character takes at most four bytes.
pub proof fn lemma_utf8_len(a: Seq<char>)
    ensures
        encode_utf8(a).len() <= 4 * a.len(),
    decreases a.len(),
{
    if a.len() > 0 {
        lemma_utf8_len(a.drop_first());
    }
}

/// `String::from_utf8`: the text whose UTF-8 bytes these are, or nothing when they are not
/// UTF-8. The input bytes that the error hands back are dropped.
#[verifier::external_body]
pub(crate) fn text_of_bytes(bytes: Vec<u8>) -> (r: Option<String>)
    ensures
        r is Some <==> valid_utf8(bytes@),
        r matches Some(s) ==> s@ == decode_utf8(bytes@),
{
    String::from_utf8(bytes).ok()
}

/// An ASCII capital in lower case; any other character as it is.
pub open spec fn lower_char(c: char) -> char {
    if 0x41 <= c as u32 && c as u32 <= 0x5A {
        (c as u32 + 0x20) as char
    } else {
        c
    }
}

/// A text with its ASCII capitals in lower case.
pub open spec fn lower(s: Seq<char>) -> Seq<char> {
    Seq::new(s.len(), |i: int| lower_char(s[i]))
}

/// An ASCII capital in lower case; any other byte as it is.
spec fn lower_byte(b: u8) -> u8 {
    if 0x41 <= b <= 0x5A {
        (b + 0x20) as u8
    } else {
        b
    }
}

/// Bytes with the ASCII capitals among them in lower case.
spec fn lower_bytes(s: Seq<u8>) -> Seq<u8> {
    Seq::new(s.len(), |i: int| lower_byte(s[i]))
}

/// The bytes of a character that takes more than one are all above ASCII.
proof fn lemma_bytes_above_ascii(x: u8)
    by (bit_vector)
    ensures
        0x80u8 | x >= 0x80,
        0xC0u8 | x >= 0x80,
        0xE0u8 | x >= 0x80,
        0xF0u8 | x >= 0x80,
{
}

/// The byte of an ASCII character is its code.
proof fn lemma_ascii_byte(c: u32)
    by (bit_vector)
    requires
        c <= 0x7F,
    ensures
        (c & 0x7F) as u8 == c,
{
}

/// A character in lower case has the bytes of the character in lower case.
proof fn lemma_lower_scalar(c: char)
    ensures
        encode_scalar(lower_char(c) as u32) == lower_bytes(encode_scalar(c as u32)),
{
    let v = c as u32;
    if has_width_1_encoding(v) {
        lemma_ascii_byte(v);
        lemma_ascii_byte(lower_char(c) as u32);
    } else {
        lemma_bytes_above_ascii(((v >> 6) & 0x1F) as u8);
        lemma_bytes_above_ascii(((v >> 12) & 0x0F) as u8);
        lemma_bytes_above_ascii(((v >> 18) & 0x7) as u8);
        lemma_bytes_above_ascii(((v >> 12) & 0x3F) as u8);
        lemma_bytes_above_ascii(((v >> 6) & 0x3F) as u8);
        lemma_bytes_above_ascii((v & 0x3F) as u8);
    }
    assert(encode_scalar(lower_char(c) as u32) =~= lower_bytes(encode_scalar(v)));
}

/// A text in lower case has the bytes of the text in lower case.
proof fn lemma_lower_utf8(s: Seq<char>)
    ensures
        encode_utf8(lower(s)) == lower_bytes(encode_utf8(s)),
    decreases s.len(),
{
    if s.len() > 0 {
        let first = encode_scalar(s[0] as u32);
        let rest = encode_utf8(s.drop_first());
        lemma_lower_scalar(s[0]);
        lemma_lower_utf8(s.drop_first());
        assert(lower(s).drop_first() =~= lower(s.drop_first()));
        assert(lower_bytes(first + rest) =~= lower_bytes(first) + lower_bytes(rest));
    }
    assert(encode_utf8(lower(s)) =~= lower_bytes(encode_utf8(s)));
}

/// A copy in which `A` to `Z` are `a` to `z`, and every other character is as it was.
pub(crate) fn lowercase(s: &str) -> (r: String)
    ensures
        r@ == lower(s@),
{
    let bytes = s.as_bytes();
    let mut out: Vec<u8> = Vec::new();
    let mut i: usize = 0;
    while i < bytes.len()
        invariant
            i <= bytes@.len(),
            out@ == lower_bytes(bytes@.take(i as int)),
        decreases bytes@.len() - i,
    {
        let b: u8 = bytes[i];
        let low: u8 = if 0x41 <= b && b <= 0x5A {
            b + 0x20
        } else {
            b
        };
        out.push(low);
        i += 1;
        assert(out@ =~= lower_bytes(bytes@.take(i as int)));
    }
    proof {
        assert(bytes@.take(i as int) =~= bytes@);
        lemma_lower_utf8(s@);
        encode_utf8_valid_utf8(lower(s@));
        encode_utf8_decode_utf8(lower(s@));
    }
    match text_of_bytes(out) {
        Some(t) => t,
        None => {
            assert(false);
            String::new()
        },
    }
}

/// Whether two texts are the same.
pub(crate) fn same_text(a: &str, b: &str) -> (r: bool)
    ensures
        r == (a@ == b@),
{
    let x = a.as_bytes();
    let y = b.as_bytes();
    proof {
        lemma_utf8_injective(a@, b@);
    }
    if x.len() != y.len() {
        return false;
    }
    let mut i: usize = 0;
    while i < x.len()
        invariant
            i <= x.len(),
            x.len() == y.len(),
            forall|j: int| 0 <= j < i ==> x@[j] == y@[j],
            x@ == encode_utf8(a@),
            y@ == encode_utf8(b@),
            encode_utf8(a@) == encode_utf8(b@) <==> a@ == b@,
        decreases x.len() - i,
    {
        if x[i] != y[i] {
            return false;
        }
        i += 1;
    }
    assert(x@ =~= y@);
    true
}

/// The texts of a run.
pub open spec fn texts_view(s: Seq<String>) -> Seq<Seq<char>> {
    Seq::new(s.len(), |i: int| s[i]@)
}

/// One decimal or hexadecimal digit, upper case.
pub open spec fn digit(n: int) -> char {
    if n == 0 {
        '0'
    } else if n == 1 {
        '1'
    } else if n == 2 {
        '2'
    } else if n == 3 {
        '3'
    } else if n == 4 {
        '4'
    } else if n == 5 {
        '5'
    } else if n == 6 {
        '6'
    } else if n == 7 {
        '7'
    } else if n == 8 {
        '8'
    } else if n == 9 {
        '9'
    } else if n == 10 {
        'A'
    } else if n == 11 {
        'B'
    } else if n == 12 {
        'C'
    } else if n == 13 {
        'D'
    } else if n == 14 {
        'E'
    } else {
        'F'
    }
}

/// The decimal spelling of `n`, without leading zeros.
pub open spec fn decimal(n: nat) -> Seq<char>
    decreases n,
{
    if n < 10 {
        seq![digit(n as int)]
    } else {
        decimal(n / 10).push(digit((n % 10) as int))
    }
}

/// The last `width` hexadecimal digits of `n`.
pub open spec fn hex(n: nat, width: nat) -> Seq<char>
    decreases width,
{
    if width == 0 {
        Seq::empty()
    } else {
        hex(n / 16, (width - 1) as nat).push(digit((n % 16) as int))
    }
}

fn digit_text(n: u8) -> (r: &'static str)
    requires
        n < 16,
    ensures
        r@ == seq![digit(n as int)],
{
    proof {
        reveal_strlit("0");
        reveal_strlit("1");
        reveal_strlit("2");
        reveal_strlit("3");
        reveal_strlit("4");
        reveal_strlit("5");
        reveal_strlit("6");
        reveal_strlit("7");
        reveal_strlit("8");
        reveal_strlit("9");
        reveal_strlit("A");
        reveal_strlit("B");
        reveal_strlit("C");
        reveal_strlit("D");
        reveal_strlit("E");
        reveal_strlit("F");
    }
    let r = match n {
        0 => "0",
        1 => "1",
        2 => "2",
        3 => "3",
        4 => "4",
        5 => "5",
        6 => "6",
        7 => "7",
        8 => "8",
        9 => "9",
        10 => "A",
        11 => "B",
        12 => "C",
        13 => "D",
        14 => "E",
        _ => "F",
    };
    assert(r@ =~= seq![digit(n as int)]);
    r
}

/// Appends the decimal spelling of `n`.
pub(crate) fn push_decimal(out: &mut String, n: u64)
    ensures
        final(out)@ == old(out)@ + decimal(n as nat),
    decreases n,
{
    if n >= 10 {
        push_decimal(out, n / 10);
    }
    out.append(digit_text((n % 10) as u8));
    assert(out@ =~= old(out)@ + decimal(n as nat));
}

/// Appends the last `width` hexadecimal digits of `n`.
pub(crate) fn push_hex(out: &mut String, n: u32, width: u32)
    ensures
        final(out)@ == old(out)@ + hex(n as nat, width as nat),
    decreases width,
{
    if width > 0 {
        push_hex(out, n / 16, width - 1);
        out.append(digit_text((n % 16) as u8));
    }
    assert(out@ =~= old(out)@ + hex(n as nat, width as nat));
}

/// Digits are those of ASCII, upper case above nine.
pub proof fn law_digits(n: int)
    requires
        0 <= n < 16,
    ensures
        n < 10 ==> digit(n) as int == 48 + n,
        n >= 10 ==> digit(n) as int == 55 + n,
{
}

/// A number in decimal: one digit, or the digits of a tenth of it and one more. The last digits of a
/// number in hexadecimal, likewise.
pub proof fn law_spellings(n: nat, d: nat, width: nat)
    requires
        d < 16,
    ensures
        d < 10 ==> decimal(d) == seq![digit(d as int)],
        n > 0 && d < 10 ==> decimal(10 * n + d) == decimal(n).push(digit(d as int)),
        hex(n, 0).len() == 0,
        hex(16 * n + d, width + 1) == hex(n, width).push(digit(d as int)),
{
    if n > 0 && d < 10 {
        assert((10 * n + d) / 10 == n && (10 * n + d) % 10 == d);
    }
    assert((16 * n + d) / 16 == n && (16 * n + d) % 16 == d);
}

/// Lower case changes the letters from A to Z, each by 32, and nothing else.
pub proof fn law_lower_case(s: Seq<char>, i: int, c: char)
    requires
        0 <= i < s.len(),
    ensures
        lower(s).len() == s.len(),
        lower(s)[i] == lower_char(s[i]),
        'A' <= c <= 'Z' ==> lower_char(c) as int == c as int + 32,
        c < 'A' || c > 'Z' ==> lower_char(c) == c,
{
}

} // verus!
