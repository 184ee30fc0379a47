//! Codec names of four characters.
use vstd::prelude::*;
use vstd::string::*;
use vstd::utf8::*;
use crate::text::{hex, push_hex, text_of_bytes};
use crate::wire::{be16, be32, push_u32};

verus! {

/// All four bytes are printable ASCII.
pub open spec fn printable(code: u32) -> bool {
    forall|i: int| 0 <= i < 4 ==> 0x20 <= #[trigger] be32(code)[i] <= 0x7e
}

/// The four characters, or the number in hexadecimal where one cannot be printed.
pub open spec fn spelled(code: u32) -> Seq<char> {
    if printable(code) {
        Seq::new(4, |i: int| be32(code)[i] as char)
    } else {
        "0x"@ + hex(code as nat, 8)
    }
}

/// Printable bytes are the UTF-8 of the characters with the same numbers.
proof fn lemma_printable_text(code: u32)
    requires
        printable(code),
    ensures
        valid_utf8(be32(code)),
        decode_utf8(be32(code)) == spelled(code),
{
    let chars = spelled(code);
    let bytes = be32(code);
    assert forall|i: int| 0 <= i < chars.len() implies '\0' <= #[trigger] chars[i] <= '\u{7f}' by {
        assert(0x20 <= bytes[i] <= 0x7e);
    }
    is_ascii_chars_encode_utf8(chars);
    assert forall|i: int| 0 <= i < 4 implies encode_utf8(chars)[i] == bytes[i] by {
        assert(0x20 <= bytes[i] <= 0x7e);
        assert(chars[i] as u8 == encode_utf8(chars)[i]);
    }
    assert(encode_utf8(chars) =~= bytes);
    encode_utf8_valid_utf8(chars);
    encode_utf8_decode_utf8(chars);
}

/// Appends the spelling of a code.
pub(crate) fn push_spelled(out: &mut String, code: u32)
    ensures
        final(out)@ == old(out)@ + spelled(code),
{
    let mut bytes: Vec<u8> = Vec::new();
    push_u32(&mut bytes, code);
    assert(bytes@ =~= be32(code));
    let mut i: usize = 0;
    while i < 4
        invariant
            i <= 4,
            bytes@ == be32(code),
            out@ == old(out)@,
            forall|j: int| 0 <= j < i ==> 0x20 <= #[trigger] be32(code)[j] <= 0x7e,
        decreases 4 - i,
    {
        if bytes[i] < 0x20 || bytes[i] > 0x7e {
            assert(!(0x20 <= be32(code)[i as int] <= 0x7e));
            out.append("0x");
            push_hex(out, code, 8);
            assert(out@ =~= old(out)@ + spelled(code));
            return;
        }
        i += 1;
    }
    proof {
        lemma_printable_text(code);
    }
    if let Some(s) = text_of_bytes(bytes) {
        out.append(s.as_str());
    }
}

/// A code of four printable bytes is spelled as those; any other as `0x` and eight digits.
#[verifier::spinoff_prover]
#[verifier::rlimit(40)]
pub proof fn law_codes_are_spelled(a: u8, b: u8, c: u8, d: u8)
    ensures
        ({
            let code = (a * 0x100_0000 + b * 0x1_0000 + c * 0x100 + d) as u32;
            spelled(code) == (if 32 <= a <= 126 && 32 <= b <= 126 && 32 <= c <= 126 && 32 <= d <= 126 {
                seq![a as char, b as char, c as char, d as char]
            } else {
                "0x"@ + hex(code as nat, 8)
            })
        }),
{
    let code = (a * 0x100_0000 + b * 0x1_0000 + c * 0x100 + d) as u32;
    assert(code == a * 0x100_0000 + b * 0x1_0000 + c * 0x100 + d);
    let s = be32(code);
    let hi = (code / 65536) as u16;
    let lo = (code % 65536) as u16;
    assert(hi == a * 256 + b);
    assert(lo == c * 256 + d);
    assert(be16(hi) =~= seq![a, b]);
    assert(be16(lo) =~= seq![c, d]);
    assert(s[0] == a && s[1] == b && s[2] == c && s[3] == d);
    if 32 <= a <= 126 && 32 <= b <= 126 && 32 <= c <= 126 && 32 <= d <= 126 {
        assert(printable(code));
        assert(spelled(code) =~= seq![a as char, b as char, c as char, d as char]);
    } else {
        assert(!printable(code));
    }
}

} // verus!
