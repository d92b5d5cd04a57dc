use crate::checksum::{checksum_ieee, crc32_ieee};
use crate::chunk_type::{all_alpha, ChunkType};
use crate::endian::{be_u32, lemma_be_of_bytes, lemma_bytes_of_be, push_be_u32, read_be_u32, u32_be};
use crate::error::PngError;
use crate::text::{decimal, decimal_string, string_from_utf8};
use vstd::prelude::*;
use vstd::string::{StringExecFns, StringSliceAdditionalSpecFns};
use vstd::utf8::{decode_utf8, valid_utf8};

verus! {

/// What a chunk holds, as mathematical values.
pub struct ChunkView {
    pub length: u32,
    pub chunk_type: Seq<u8>,
    pub data: Seq<u8>,
    pub crc: u32,
}

/// The wire form of a chunk: length, type, data and CRC, integers big-endian.
pub open spec fn chunk_wire(v: ChunkView) -> Seq<u8> {
    u32_be(v.length) + v.chunk_type + v.data + u32_be(v.crc)
}

/// The data length that a chunk's bytes declare.
pub open spec fn declared_length(b: Seq<u8>) -> u32 {
    be_u32(b.subrange(0, 4))
}

/// The CRC that a chunk's bytes declare: their last four.
pub open spec fn declared_crc(b: Seq<u8>) -> u32 {
    be_u32(b.subrange(b.len() - 4, b.len() as int))
}

/// The bytes that a chunk's CRC covers: its type followed by its data.
pub open spec fn checked_bytes(b: Seq<u8>) -> Seq<u8> {
    b.subrange(4, 8 + declared_length(b))
}

/// Why `b` is not a chunk, if it is not: the first check that fails, in the
/// order size, declared length, CRC, type.
#[verifier::opaque]
pub open spec fn chunk_error(b: Seq<u8>) -> Option<PngError> {
    if b.len() < 12 {
        Some(PngError::TooShort)
    } else if b.len() - 12 < declared_length(b) {
        Some(PngError::TruncatedData)
    } else if crc32_ieee(checked_bytes(b)) != declared_crc(b) {
        Some(PngError::CrcMismatch)
    } else if !all_alpha(b.subrange(4, 8)) {
        Some(PngError::InvalidFormat)
    } else {
        None
    }
}

/// The chunk that the bytes `b` describe, where `chunk_error(b)` is `None`.
#[verifier::opaque]
pub open spec fn parsed_chunk(b: Seq<u8>) -> ChunkView {
    ChunkView {
        length: declared_length(b),
        chunk_type: b.subrange(4, 8),
        data: b.subrange(8, 8 + declared_length(b)),
        crc: declared_crc(b),
    }
}

/// A chunk whose length, type and CRC agree with its data.
pub open spec fn chunk_view_wf(v: ChunkView) -> bool {
    &&& v.length == v.data.len()
    &&& v.chunk_type.len() == 4
    &&& all_alpha(v.chunk_type)
    &&& v.crc == crc32_ieee(v.chunk_type + v.data)
}

/// The bytes that `Chunk::new` assembles for a type and a message before
/// parsing them.
pub open spec fn new_chunk_wire(t: Seq<u8>, m: Seq<u8>) -> Seq<u8> {
    u32_be(m.len() as u32) + t + m + u32_be(crc32_ieee(t + m))
}

/// The text rendering of a chunk; the data is left out.
pub open spec fn chunk_text(v: ChunkView) -> Seq<char> {
    "Chunk {\n  Length: "@ + decimal(v.length as nat) + "\n  Type: "@ + v.chunk_type.map_values(
        |x: u8| x as char,
    ) + "\n  CRC: "@ + decimal(v.crc as nat) + "\n}"@
}

/// A chunk of a PNG stream, checked against its CRC.
#[derive(Clone, Debug)]
pub struct Chunk {
    length: u32,
    chunk_type: ChunkType,
    data: Vec<u8>,
    crc: u32,
}

impl View for Chunk {
    type V = ChunkView;

    closed spec fn view(&self) -> ChunkView {
        ChunkView {
            length: self.length,
            chunk_type: self.chunk_type@,
            data: self.data@,
            crc: self.crc,
        }
    }
}

/// A well-formed chunk's bytes parse back to the same chunk.
pub proof fn lemma_wire_parses(v: ChunkView)
    requires
        chunk_view_wf(v),
    ensures
        chunk_error(chunk_wire(v)) is None,
        parsed_chunk(chunk_wire(v)) == v,
{
    reveal(chunk_error);
    reveal(parsed_chunk);
    let w = chunk_wire(v);
    lemma_be_of_bytes(v.length);
    lemma_be_of_bytes(v.crc);
    assert(w.subrange(0, 4) =~= u32_be(v.length));
    assert(w.subrange(w.len() - 4, w.len() as int) =~= u32_be(v.crc));
    assert(w.subrange(4, 8) =~= v.chunk_type);
    assert(w.subrange(8, 8 + v.length) =~= v.data);
    assert(checked_bytes(w) =~= v.chunk_type + v.data);
}

/// Construction consistency: for a type of four ASCII letters and any
/// message, the chunk that `Chunk::new` builds, written out with `as_bytes`,
/// parses back with `from_bytes` to the same chunk.
pub proof fn lemma_new_reparses(t: Seq<u8>, m: Seq<u8>)
    requires
        t.len() == 4,
        all_alpha(t),
        m.len() <= u32::MAX,
    ensures
        chunk_error(new_chunk_wire(t, m)) is None,
        chunk_error(chunk_wire(parsed_chunk(new_chunk_wire(t, m)))) is None,
        parsed_chunk(chunk_wire(parsed_chunk(new_chunk_wire(t, m)))) == parsed_chunk(
            new_chunk_wire(t, m),
        ),
{
    let v = ChunkView { length: m.len() as u32, chunk_type: t, data: m, crc: crc32_ieee(t + m) };
    assert(chunk_wire(v) =~= new_chunk_wire(t, m));
    lemma_wire_parses(v);
}

/// Bytes that parse without error, and hold nothing past the CRC, are the
/// wire form of what they parse to.
pub proof fn lemma_parsed_wire(b: Seq<u8>)
    requires
        chunk_error(b) is None,
        b.len() == 12 + declared_length(b),
    ensures
        chunk_wire(parsed_chunk(b)) == b,
        chunk_view_wf(parsed_chunk(b)),
{
    reveal(chunk_error);
    reveal(parsed_chunk);
    let v = parsed_chunk(b);
    lemma_bytes_of_be(b.subrange(0, 4));
    lemma_bytes_of_be(b.subrange(b.len() - 4, b.len() as int));
    assert(chunk_wire(v) =~= b);
    assert(v.chunk_type + v.data =~= checked_bytes(b));
}

impl Chunk {
    pub closed spec fn spec_chunk_type(&self) -> ChunkType {
        self.chunk_type
    }

    pub open spec fn wf(&self) -> bool {
        &&& chunk_view_wf(self@)
        &&& self.spec_chunk_type()@ == self@.chunk_type
        &&& self.spec_chunk_type().wf()
    }

    /// Builds a chunk of the given type around a message. A type that is not
    /// four bytes long is refused; otherwise the bytes of the wire form are
    /// assembled and parsed by `from_bytes`, so both ways of making a chunk
    /// go through the same checks.
    pub fn new(chunk_type: &str, data: &str) -> (r: Result<Chunk, PngError>)
        requires
            data.spec_bytes().len() <= u32::MAX,
        ensures
            chunk_type.spec_bytes().len() != 4 ==> r == Err::<Chunk, PngError>(
                PngError::InvalidFormat,
            ),
            chunk_type.spec_bytes().len() == 4 ==> ({
                let w = new_chunk_wire(chunk_type.spec_bytes(), data.spec_bytes());
                match r {
                    Ok(c) => chunk_error(w) is None && c@ == parsed_chunk(w) && c.wf(),
                    Err(e) => chunk_error(w) == Some(e),
                }
            }),
            chunk_type.spec_bytes().len() == 4 ==> (r is Ok <==> all_alpha(
                chunk_type.spec_bytes(),
            )),
            chunk_type.spec_bytes().len() == 4 ==> (r matches Err(e) ==> e
                == PngError::InvalidFormat),
            chunk_type.spec_bytes().len() == 4 ==> (r matches Ok(c) ==> c@ == ChunkView {
                length: data.spec_bytes().len() as u32,
                chunk_type: chunk_type.spec_bytes(),
                data: data.spec_bytes(),
                crc: crc32_ieee(chunk_type.spec_bytes() + data.spec_bytes()),
            }),
    {
        let t = chunk_type.as_bytes();
        if t.len() != 4 {
            return Err(PngError::InvalidFormat);
        }
        let m = data.as_bytes();
        let mut checked: Vec<u8> = Vec::new();
        checked.extend_from_slice(t);
        checked.extend_from_slice(m);
        assert(checked@ =~= t@ + m@);
        let crc = checksum_ieee(checked.as_slice());
        let mut wire: Vec<u8> = Vec::new();
        push_be_u32(&mut wire, m.len() as u32);
        wire.extend_from_slice(t);
        wire.extend_from_slice(m);
        push_be_u32(&mut wire, crc);
        assert(wire@ =~= new_chunk_wire(t@, m@));
        proof {
            reveal(chunk_error);
            reveal(parsed_chunk);
            if t@.len() == 4 {
                let v = ChunkView {
                    length: m@.len() as u32,
                    chunk_type: t@,
                    data: m@,
                    crc: crc32_ieee(t@ + m@),
                };
                assert(chunk_wire(v) =~= wire@);
                if all_alpha(t@) {
                    lemma_wire_parses(v);
                } else {
                    lemma_be_of_bytes(v.length);
                    lemma_be_of_bytes(v.crc);
                    assert(wire@.subrange(0, 4) =~= u32_be(v.length));
                    assert(wire@.subrange(wire@.len() - 4, wire@.len() as int) =~= u32_be(v.crc));
                    assert(checked_bytes(wire@) =~= t@ + m@);
                    assert(wire@.subrange(4, 8) =~= t@);
                }
            }
        }
        Chunk::from_bytes(wire.as_slice())
    }

    /// Parses and checks a chunk: four bytes of length, four of type, the
    /// data, and the CRC in the last four bytes of `bytes`. The data and the
    /// CRC must both fit in the buffer.
    pub fn from_bytes(bytes: &[u8]) -> (r: Result<Chunk, PngError>)
        ensures
            match r {
                Ok(c) => chunk_error(bytes@) is None && c@ == parsed_chunk(bytes@) && c.wf(),
                Err(e) => chunk_error(bytes@) == Some(e),
            },
            bytes@.len() == 12 + declared_length(bytes@) ==> (r matches Ok(c) ==> chunk_wire(c@)
                == bytes@),
    {
        proof {
            reveal(chunk_error);
            reveal(parsed_chunk);
        }
        let n = bytes.len();
        if n < 12 {
            return Err(PngError::TooShort);
        }
        let length = read_be_u32(bytes, 0);
        if n - 12 < length as usize {
            return Err(PngError::TruncatedData);
        }
        let checksum = read_be_u32(bytes, n - 4);
        let end = 8 + length as usize;
        let crc = checksum_ieee(&bytes[4..end]);
        if crc != checksum {
            return Err(PngError::CrcMismatch);
        }
        let code: [u8; 4] = [bytes[4], bytes[5], bytes[6], bytes[7]];
        assert(code@ =~= bytes@.subrange(4, 8));
        let chunk_type = match ChunkType::from_bytes(code) {
            Ok(t) => t,
            Err(e) => {
                return Err(e);
            },
        };
        let mut data: Vec<u8> = Vec::new();
        data.extend_from_slice(&bytes[8..end]);
        assert(data@ =~= bytes@.subrange(8, 8 + length));
        let chunk = Chunk { length, chunk_type, data, crc };
        proof {
            assert(chunk@ =~= parsed_chunk(bytes@));
            assert(chunk@.chunk_type + chunk@.data =~= checked_bytes(bytes@));
            if bytes@.len() == 12 + declared_length(bytes@) {
                lemma_parsed_wire(bytes@);
            }
        }
        Ok(chunk)
    }

    /// The length of the data.
    pub fn length(&self) -> (r: u32)
        ensures
            r == self@.length,
    {
        self.length
    }

    /// The type of this chunk.
    pub fn chunk_type(&self) -> (r: &ChunkType)
        ensures
            r@ == self@.chunk_type,
            r == self.spec_chunk_type(),
    {
        &self.chunk_type
    }

    /// The data, as bytes.
    pub fn data(&self) -> (r: &[u8])
        ensures
            r@ == self@.data,
    {
        self.data.as_slice()
    }

    /// The CRC over type and data.
    pub fn crc(&self) -> (r: u32)
        ensures
            r == self@.crc,
    {
        self.crc
    }

    /// The data as text; fails where it is not valid UTF-8.
    pub fn data_as_string(&self) -> (r: Result<String, PngError>)
        ensures
            r is Ok <==> valid_utf8(self@.data),
            r matches Ok(s) ==> s@ == decode_utf8(self@.data),
            r matches Err(e) ==> e == PngError::InvalidEncoding,
    {
        match string_from_utf8(self.data.clone()) {
            Some(s) => Ok(s),
            None => Err(PngError::InvalidEncoding),
        }
    }

    /// The wire form: length, type, data and CRC.
    pub fn as_bytes(&self) -> (r: Vec<u8>)
        ensures
            r@ == chunk_wire(self@),
    {
        let mut r: Vec<u8> = Vec::new();
        push_be_u32(&mut r, self.length);
        let code = self.chunk_type.bytes();
        r.extend_from_slice(&code);
        r.extend_from_slice(self.data.as_slice());
        push_be_u32(&mut r, self.crc);
        assert(r@ =~= chunk_wire(self@));
        r
    }
    /// A block of text that shows the length, the type and the CRC; the data
    /// is left out.
    pub fn to_string(&self) -> (r: String)
        requires
            self.wf(),
        ensures
            r@ == chunk_text(self@),
    {
        let mut r = String::from_str("Chunk {\n  Length: ");
        r.append(decimal_string(self.length).as_str());
        r.append("\n  Type: ");
        r.append(self.chunk_type.to_string().as_str());
        r.append("\n  CRC: ");
        r.append(decimal_string(self.crc).as_str());
        r.append("\n}");
        r
    }
}

impl<'a> TryFrom<&'a [u8]> for Chunk {
    type Error = PngError;

    fn try_from(bytes: &'a [u8]) -> (r: Result<Chunk, PngError>)
        ensures
            match r {
                Ok(c) => chunk_error(bytes@) is None && c@ == parsed_chunk(bytes@) && c.wf(),
                Err(e) => chunk_error(bytes@) == Some(e),
            },
            bytes@.len() == 12 + declared_length(bytes@) ==> (r matches Ok(c) ==> chunk_wire(c@)
                == bytes@),
    {
        Chunk::from_bytes(bytes)
    }
}

impl<'a> vstd::std_specs::convert::TryFromSpecImpl<&'a [u8]> for Chunk {
    open spec fn obeys_try_from_spec() -> bool {
        false
    }

    open spec fn try_from_spec(bytes: &'a [u8]) -> Result<Chunk, PngError> {
        arbitrary()
    }
}

} // verus!
