use crate::chunk::{chunk_error, chunk_text, new_chunk_wire, parsed_chunk, Chunk, ChunkView};
use crate::error::PngError;
use crate::png::{
    first_match, has_match, lemma_first_match, parsed_chunks, png_error, png_wire, views, Png,
};
use vstd::prelude::*;
use vstd::string::{StringExecFns, StringSliceAdditionalSpecFns};
use vstd::utf8::{decode_utf8, valid_utf8};

verus! {

/// The chunks that a PNG stream parses to.
pub open spec fn stream_chunks(file: Seq<u8>) -> Seq<ChunkView> {
    parsed_chunks(file.subrange(8, file.len() as int))
}

/// The renderings of the chunks, separated by blank lines.
pub open spec fn chunks_text(cs: Seq<ChunkView>) -> Seq<char>
    decreases cs.len(),
{
    if cs.len() == 0 {
        Seq::empty()
    } else if cs.len() == 1 {
        chunk_text(cs[0])
    } else {
        chunks_text(cs.drop_last()) + "\n\n"@ + chunk_text(cs.last())
    }
}

/// What `encode` gives: the stream with a chunk of type `t` holding `m`
/// added at the end; a type that is not four bytes long is refused.
pub open spec fn encode_result(file: Seq<u8>, t: Seq<u8>, m: Seq<u8>) -> Result<Seq<u8>, PngError> {
    match png_error(file) {
        Some(e) => Err(e),
        None => if t.len() != 4 {
            Err(PngError::InvalidFormat)
        } else {
            match chunk_error(new_chunk_wire(t, m)) {
            Some(e) => Err(e),
                None => Ok(png_wire(stream_chunks(file).push(parsed_chunk(new_chunk_wire(t, m))))),
            }
        },
    }
}

/// What `decode` gives: the data of the first chunk of type `t`, as text.
pub open spec fn decode_result(file: Seq<u8>, t: Seq<char>) -> Result<Seq<char>, PngError> {
    match png_error(file) {
        Some(e) => Err(e),
        None => {
            let cs = stream_chunks(file);
            if !has_match(cs, t) {
                Err(PngError::ChunkNotFound)
            } else if !valid_utf8(cs[first_match(cs, t)].data) {
                Err(PngError::InvalidEncoding)
            } else {
                Ok(decode_utf8(cs[first_match(cs, t)].data))
            }
        },
    }
}

/// What `remove` gives: the stream without its first chunk of type `t`.
pub open spec fn remove_result(file: Seq<u8>, t: Seq<char>) -> Result<Seq<u8>, PngError> {
    match png_error(file) {
        Some(e) => Err(e),
        None => {
            let cs = stream_chunks(file);
            if !has_match(cs, t) {
                Err(PngError::ChunkNotFound)
            } else {
                Ok(png_wire(cs.remove(first_match(cs, t))))
            }
        },
    }
}

/// What `print` gives: a listing of the stream's chunks.
pub open spec fn print_result(file: Seq<u8>) -> Result<Seq<char>, PngError> {
    match png_error(file) {
        Some(e) => Err(e),
        None => Ok(chunks_text(stream_chunks(file))),
    }
}

/// Adds a chunk of type `chunk_type` holding `message` at the end of the
/// PNG stream `file`, and returns the new stream.
pub fn encode(file: &[u8], chunk_type: &str, message: &str) -> (r: Result<Vec<u8>, PngError>)
    requires
        message.spec_bytes().len() <= u32::MAX,
    ensures
        match r {
            Ok(b) => encode_result(file@, chunk_type.spec_bytes(), message.spec_bytes()) == Ok::<
                Seq<u8>,
                PngError,
            >(b@),
            Err(e) => encode_result(file@, chunk_type.spec_bytes(), message.spec_bytes()) == Err::<
                Seq<u8>,
                PngError,
            >(e),
        },
{
    let mut png = match Png::from_bytes(file) {
        Ok(p) => p,
        Err(e) => {
            return Err(e);
        },
    };
    let chunk = match Chunk::new(chunk_type, message) {
        Ok(c) => c,
        Err(e) => {
            return Err(e);
        },
    };
    png.append_chunk(chunk);
    Ok(png.as_bytes())
}

/// The data of the first chunk of type `chunk_type` in the PNG stream
/// `file`, as text.
pub fn decode(file: &[u8], chunk_type: &str) -> (r: Result<String, PngError>)
    ensures
        match r {
            Ok(s) => decode_result(file@, chunk_type@) == Ok::<Seq<char>, PngError>(s@),
            Err(e) => decode_result(file@, chunk_type@) == Err::<Seq<char>, PngError>(e),
        },
{
    let png = match Png::from_bytes(file) {
        Ok(p) => p,
        Err(e) => {
            return Err(e);
        },
    };
    match png.chunk_by_type(chunk_type) {
        Some(c) => {
            proof {
                let i = choose|i: int| crate::png::is_first_match(png@, chunk_type@, i) && c@ == png@[i];
                lemma_first_match(png@, chunk_type@, i);
            }
            c.data_as_string()
        },
        None => Err(PngError::ChunkNotFound),
    }
}

/// Removes the first chunk of type `chunk_type` from the PNG stream `file`,
/// and returns the new stream.
pub fn remove(file: &[u8], chunk_type: &str) -> (r: Result<Vec<u8>, PngError>)
    ensures
        match r {
            Ok(b) => remove_result(file@, chunk_type@) == Ok::<Seq<u8>, PngError>(b@),
            Err(e) => remove_result(file@, chunk_type@) == Err::<Seq<u8>, PngError>(e),
        },
{
    let mut png = match Png::from_bytes(file) {
        Ok(p) => p,
        Err(e) => {
            return Err(e);
        },
    };
    let ghost before = png@;
    match png.remove_chunk(chunk_type) {
        Ok(()) => {
            proof {
                let i = choose|i: int|
                    crate::png::is_first_match(before, chunk_type@, i) && png@ == before.remove(i);
                lemma_first_match(before, chunk_type@, i);
            }
            Ok(png.as_bytes())
        },
        Err(e) => Err(e),
    }
}

/// A listing of the chunks of the PNG stream `file`, one block each,
/// separated by blank lines.
pub fn print(file: &[u8]) -> (r: Result<String, PngError>)
    ensures
        match r {
            Ok(s) => print_result(file@) == Ok::<Seq<char>, PngError>(s@),
            Err(e) => print_result(file@) == Err::<Seq<char>, PngError>(e),
        },
{
    let png = match Png::from_bytes(file) {
        Ok(p) => p,
        Err(e) => {
            return Err(e);
        },
    };
    let chunks = png.chunks();
    let ghost cs = views(chunks@);
    let mut text = String::new();
    let mut i: usize = 0;
    while i < chunks.len()
        invariant
            0 <= i <= chunks@.len(),
            cs == views(chunks@),
            cs == png@,
            chunks@ == png.spec_chunks(),
            png.wf(),
            text@ == chunks_text(cs.take(i as int)),
        decreases chunks@.len() - i,
    {
        if i > 0 {
            text.append("\n\n");
        }
        proof {
            assert(chunks@[i as int] == png.spec_chunks()[i as int]);
        }
        text.append(chunks[i].to_string().as_str());
        proof {
            assert(cs.take(i + 1).drop_last() =~= cs.take(i as int));
            assert(cs.take(i + 1).last() == chunks@[i as int]@);
            if i == 0 {
                assert(cs.take(0) =~= Seq::<ChunkView>::empty());
                assert(chunks_text(cs.take(0)) == Seq::<char>::empty());
                assert(text@ =~= chunks_text(cs.take(1)));
            }
        }
        i = i + 1;
    }
    assert(cs.take(i as int) =~= cs);
    Ok(text)
}

} // verus!
