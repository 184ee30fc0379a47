//! What stands in front of the payload of a tag that is behind a filter.
//!
//! The payload then starts with the number of filters, which is one, the name of the filter, and
//! its parameters behind their length. The filters encrypt every payload, or some.
use vstd::prelude::*;
use vstd::string::*;
use vstd::utf8::*;
use crate::error::{Error, Fault};
use crate::text::{same_text, text_of_bytes};
use crate::wire::{copy_range, read_u24, u24_at};

verus! {

/// How the payload of a tag is encrypted.
#[derive(Debug, PartialEq, Eq)]
pub struct EncryptedTagPreamble {
    /// The name of the filter.
    pub filter_name: String,
    /// The filter encrypts every payload.
    pub full_encryption: bool,
    /// This payload is encrypted.
    pub is_encrypted: bool,
    /// The initialisation vector of an encrypted payload.
    pub iv: Option<[u8; 16]>,
    /// The number of bytes in front of the payload proper.
    pub bytes_consumed: usize,
}

/// What a preamble is, apart from how it is held in memory.
#[verifier::ext_equal]
pub struct Preamble {
    pub filter_name: Seq<char>,
    pub full_encryption: bool,
    pub is_encrypted: bool,
    pub iv: Option<Seq<u8>>,
    pub bytes_consumed: int,
}

impl View for EncryptedTagPreamble {
    type V = Preamble;

    open spec fn view(&self) -> Preamble {
        Preamble {
            filter_name: self.filter_name@,
            full_encryption: self.full_encryption,
            is_encrypted: self.is_encrypted,
            iv: match self.iv {
                Some(v) => Some(v@),
                None => None,
            },
            bytes_consumed: self.bytes_consumed as int,
        }
    }
}

impl Clone for EncryptedTagPreamble {
    fn clone(&self) -> (r: Self)
        ensures
            r@ == self@,
    {
        EncryptedTagPreamble {
            filter_name: self.filter_name.clone(),
            full_encryption: self.full_encryption,
            is_encrypted: self.is_encrypted,
            iv: self.iv,
            bytes_consumed: self.bytes_consumed,
        }
    }
}

/// The place of the first zero byte, from `from` on.
pub open spec fn zero_from(body: Seq<u8>, from: int) -> Option<int>
    decreases body.len() - from,
{
    if !(0 <= from < body.len()) {
        None
    } else if body[from] == 0 {
        Some(from)
    } else {
        zero_from(body, from + 1)
    }
}

/// What the parameters of the filter called `name` say: that it encrypts every payload, that it
/// encrypted this one, and the initialisation vector.
pub open spec fn params(name: Seq<char>, p: Seq<u8>) -> Result<
    (bool, bool, Option<Seq<u8>>),
    Fault,
> {
    if name == "Encryption"@ {
        if p.len() < 16 {
            Err(Fault::FilterShortIv)
        } else {
            Ok((true, true, Some(p.take(16))))
        }
    } else if name == "SE"@ {
        if p.len() == 0 {
            Err(Fault::FilterNoSelector)
        } else if p[0] < 128 {
            Ok((false, false, None))
        } else if p.len() < 17 {
            Err(Fault::FilterTruncatedIv)
        } else {
            Ok((false, true, Some(p.subrange(1, 17))))
        }
    } else {
        Err(Fault::FilterUnknownName)
    }
}

/// The preamble at the start of a payload.
pub open spec fn preamble(body: Seq<u8>) -> Result<Preamble, Fault> {
    if body.len() == 0 {
        Err(Fault::FilterEmptyBody)
    } else if body[0] != 1 {
        Err(Fault::FilterCount)
    } else {
        match zero_from(body, 1) {
            None => Err(Fault::FilterNameUnterminated),
            Some(end) => {
                let name = body.subrange(1, end);
                let size = u24_at(body, end + 1);
                let start = end + 4;
                if !valid_utf8(name) {
                    Err(Fault::FilterNameNotUtf8)
                } else if start > body.len() {
                    Err(Fault::FilterTruncatedLength)
                } else if start + size > body.len() {
                    Err(Fault::FilterTruncatedParams)
                } else {
                    match params(decode_utf8(name), body.subrange(start, start + size)) {
                        Err(f) => Err(f),
                        Ok((full_encryption, is_encrypted, iv)) => Ok(
                            Preamble {
                                filter_name: decode_utf8(name),
                                full_encryption,
                                is_encrypted,
                                iv,
                                bytes_consumed: start + size,
                            },
                        ),
                    }
                }
            },
        }
    }
}

fn find_zero(body: &[u8]) -> (r: Option<usize>)
    requires
        body@.len() > 0,
    ensures
        match (r, zero_from(body@, 1)) {
            (Some(i), Some(j)) => i == j && 1 <= i < body@.len(),
            (None, None) => true,
            _ => false,
        },
{
    let mut i: usize = 1;
    while i < body.len()
        invariant
            1 <= i <= body@.len(),
            zero_from(body@, 1) == zero_from(body@, i as int),
        decreases body@.len() - i,
    {
        if body[i] == 0 {
            return Some(i);
        }
        i += 1;
    }
    None
}

fn read_iv(body: &[u8], p: usize) -> (r: [u8; 16])
    requires
        p + 16 <= body@.len(),
    ensures
        r@ == body@.subrange(p as int, p + 16),
{
    assert(p + 16 <= body.len());
    let r: [u8; 16] = [
        body[p],
        body[p + 1],
        body[p + 2],
        body[p + 3],
        body[p + 4],
        body[p + 5],
        body[p + 6],
        body[p + 7],
        body[p + 8],
        body[p + 9],
        body[p + 10],
        body[p + 11],
        body[p + 12],
        body[p + 13],
        body[p + 14],
        body[p + 15],
    ];
    assert(r@ =~= body@.subrange(p as int, p + 16));
    r
}

fn read_params(name: &str, body: &[u8], start: usize, size: usize) -> (r: Result<
    (bool, bool, Option<[u8; 16]>),
    Error,
>)
    requires
        start + size <= body@.len(),
    ensures
        match (r, params(name@, body@.subrange(start as int, start + size))) {
            (Ok((a, b, v)), Ok((c, d, w))) => a == c && b == d && (match (v, w) {
                (Some(x), Some(y)) => x@ == y,
                (None, None) => true,
                _ => false,
            }),
            (Err(e), Err(f)) => e == Error::InvalidData(f),
            _ => false,
        },
{
    let ghost p = body@.subrange(start as int, start + size);
    if same_text(name, "Encryption") {
        if size < 16 {
            return Err(Error::InvalidData(Fault::FilterShortIv));
        }
        let iv = read_iv(body, start);
        assert(iv@ =~= p.take(16));
        return Ok((true, true, Some(iv)));
    }
    if same_text(name, "SE") {
        if size == 0 {
            return Err(Error::InvalidData(Fault::FilterNoSelector));
        }
        assert(p[0] == body@[start as int]);
        if body[start] < 128 {
            return Ok((false, false, None));
        }
        if size < 17 {
            return Err(Error::InvalidData(Fault::FilterTruncatedIv));
        }
        let iv = read_iv(body, start + 1);
        assert(iv@ =~= p.subrange(1, 17));
        return Ok((false, true, Some(iv)));
    }
    Err(Error::InvalidData(Fault::FilterUnknownName))
}

impl EncryptedTagPreamble {
    /// Reads the preamble at the start of a payload.
    pub fn parse(body: &[u8]) -> (r: Result<Self, Error>)
        ensures
            match (r, preamble(body@)) {
                (Ok(p), Ok(x)) => p@ == x && p.bytes_consumed <= body@.len(),
                (Err(e), Err(f)) => e == Error::InvalidData(f),
                _ => false,
            },
    {
        if body.len() == 0 {
            return Err(Error::InvalidData(Fault::FilterEmptyBody));
        }
        if body[0] != 1 {
            return Err(Error::InvalidData(Fault::FilterCount));
        }
        let end: usize = match find_zero(body) {
            Some(i) => i,
            None => {
                return Err(Error::InvalidData(Fault::FilterNameUnterminated));
            },
        };
        let filter_name = match text_of_bytes(copy_range(body, 1, end)) {
            Some(s) => s,
            None => {
                return Err(Error::InvalidData(Fault::FilterNameNotUtf8));
            },
        };
        if body.len() - end < 4 {
            return Err(Error::InvalidData(Fault::FilterTruncatedLength));
        }
        let size: usize = read_u24(body, end + 1) as usize;
        let start: usize = end + 4;
        if body.len() - start < size {
            return Err(Error::InvalidData(Fault::FilterTruncatedParams));
        }
        let (full_encryption, is_encrypted, iv) = read_params(
            filter_name.as_str(),
            body,
            start,
            size,
        )?;
        Ok(
            EncryptedTagPreamble {
                filter_name,
                full_encryption,
                is_encrypted,
                iv,
                bytes_consumed: start + size,
            },
        )
    }
}

/// An initialisation vector comes with an encrypted payload and with no other, and a filter that
/// encrypts every payload encrypted this one.
pub proof fn law_iv_iff_encrypted(body: Seq<u8>)
    ensures
        preamble(body) matches Ok(p) ==> (p.iv is Some <==> p.is_encrypted) && (p.full_encryption
            ==> p.is_encrypted) && (p.iv matches Some(iv) ==> iv.len() == 16) && p.bytes_consumed
            <= body.len(),
{
    if let Ok(p) = preamble(body) {
        let end = zero_from(body, 1)->0;
        lemma_zero_from(body, 1);
        let size = u24_at(body, end + 1);
        let q = body.subrange(end + 4, end + 4 + size);
        assert(q.len() == size);
    }
}

proof fn lemma_zero_from(body: Seq<u8>, from: int)
    requires
        0 <= from,
    ensures
        zero_from(body, from) matches Some(i) ==> from <= i < body.len() && body[i] == 0,
    decreases body.len() - from,
{
    if from < body.len() && body[from] != 0 {
        lemma_zero_from(body, from + 1);
    }
}

} // verus!
