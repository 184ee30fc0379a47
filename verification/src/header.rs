//! The nine bytes at the start of a file.
use vstd::prelude::*;
use crate::error::{Error, Fault};
use crate::wire::{be32, lemma_at_index, lemma_at_split, lemma_be32_at, push_u32, read_u32, u32_at};

verus! {

/// The three bytes that every file starts with.
pub const FLV_SIGNATURE: [u8; 3] = [0x46, 0x4c, 0x56];

/// What a file says of itself at its start.
#[derive(Clone, Copy, Debug, PartialEq, Eq, Structural)]
pub struct FlvHeader {
    pub version: u8,
    /// The file has audio tags.
    pub has_audio: bool,
    /// The file has video tags.
    pub has_video: bool,
    /// Where the body starts.
    pub data_offset: u32,
}

/// One if `b`, else zero.
pub open spec fn bit(b: bool) -> u8 {
    if b {
        1
    } else {
        0
    }
}

/// The header as bytes.
pub open spec fn header_bytes(has_audio: bool, has_video: bool) -> Seq<u8> {
    seq![0x46u8, 0x4cu8, 0x56u8, 1u8, (bit(has_audio) * 4 + bit(has_video)) as u8] + be32(9)
}

/// Appends a header.
pub fn write(out: &mut Vec<u8>, has_audio: bool, has_video: bool) -> (r: Result<(), Error>)
    ensures
        r is Ok,
        final(out)@ == old(out)@ + header_bytes(has_audio, has_video),
{
    out.push(FLV_SIGNATURE[0]);
    out.push(FLV_SIGNATURE[1]);
    out.push(FLV_SIGNATURE[2]);
    out.push(1);
    let audio: u8 = if has_audio {
        4
    } else {
        0
    };
    let video: u8 = if has_video {
        1
    } else {
        0
    };
    out.push(audio + video);
    push_u32(out, 9);
    assert(out@ =~= old(out)@ + header_bytes(has_audio, has_video));
    Ok(())
}

/// The header at the start of `data`.
pub open spec fn header(data: Seq<u8>) -> Result<FlvHeader, Error> {
    if data.len() < 9 {
        Err(Error::UnexpectedEof)
    } else if data.take(3) != FLV_SIGNATURE@ {
        Err(Error::InvalidData(Fault::HeaderSignature))
    } else if data[3] != 1 {
        Err(Error::InvalidData(Fault::HeaderVersion))
    } else if u32_at(data, 5) != 9 {
        Err(Error::InvalidData(Fault::HeaderDataOffset))
    } else {
        Ok(
            FlvHeader {
                version: 1,
                has_audio: data[4] / 4 % 2 == 1,
                has_video: data[4] % 2 == 1,
                data_offset: 9,
            },
        )
    }
}

impl FlvHeader {
    /// Reads the header at the start of `data`.
    pub fn read(data: &[u8]) -> (r: Result<Self, Error>)
        ensures
            r == header(data@),
    {
        if data.len() < 9 {
            return Err(Error::UnexpectedEof);
        }
        if data[0] != FLV_SIGNATURE[0] || data[1] != FLV_SIGNATURE[1] || data[2]
            != FLV_SIGNATURE[2] {
            assert(data@.take(3)[0] == data@[0] && data@.take(3)[1] == data@[1] && data@.take(3)[2]
                == data@[2]);
            return Err(Error::InvalidData(Fault::HeaderSignature));
        }
        assert(data@.take(3) =~= FLV_SIGNATURE@);
        if data[3] != 1 {
            return Err(Error::InvalidData(Fault::HeaderVersion));
        }
        let data_offset: u32 = read_u32(data, 5);
        if data_offset != 9 {
            return Err(Error::InvalidData(Fault::HeaderDataOffset));
        }
        Ok(
            FlvHeader {
                version: data[3],
                has_audio: data[4] / 4 % 2 == 1,
                has_video: data[4] % 2 == 1,
                data_offset,
            },
        )
    }
}

/// Reading a header that was written gives back what it says.
pub proof fn law_read_write(has_audio: bool, has_video: bool, behind: Seq<u8>)
    ensures
        header(header_bytes(has_audio, has_video) + behind) == Ok::<FlvHeader, Error>(
            FlvHeader { version: 1, has_audio, has_video, data_offset: 9 },
        ),
{
    let b = header_bytes(has_audio, has_video);
    let data = b + behind;
    let head = b.take(5);
    assert(b =~= head + be32(9));
    assert(data.subrange(0, b.len() as int) =~= b);
    lemma_at_split(data, 0, head, be32(9));
    lemma_be32_at(data, 5, 9);
    lemma_at_index(data, 0, head, 3);
    lemma_at_index(data, 0, head, 4);
    assert(data.take(3) =~= FLV_SIGNATURE@);
}

} // verus!
