use crate::chunk::{
    chunk_error, chunk_wire, declared_length, lemma_parsed_wire, parsed_chunk, Chunk,
    ChunkView,
};
use crate::chunk_type::ChunkType;
use crate::endian::read_be_u32;
use crate::error::PngError;
use crate::text::{ascii_chars, lemma_ascii_utf8};
use vstd::prelude::*;
use vstd::string::StringSliceAdditionalSpecFns;

verus! {

/// The eight bytes that open every PNG stream.
pub open spec fn png_signature() -> Seq<u8> {
    seq![137u8, 80u8, 78u8, 71u8, 13u8, 10u8, 26u8, 10u8]
}

/// Where the first chunk of a chunk stream ends: after its declared data and
/// CRC where they fit, else at the end of the stream, so that the chunk
/// parser sees what is left and says what is missing.
pub open spec fn next_chunk_end(b: Seq<u8>) -> int {
    if b.len() >= 12 && b.len() - 12 >= declared_length(b) {
        12 + declared_length(b)
    } else {
        b.len() as int
    }
}

/// The first error met while parsing a stream of chunks, if any.
#[verifier::opaque]
pub open spec fn chunks_error(b: Seq<u8>) -> Option<PngError>
    decreases b.len(),
{
    if b.len() == 0 {
        None
    } else {
        let end = next_chunk_end(b);
        match chunk_error(b.subrange(0, end)) {
            Some(e) => Some(e),
            None => chunks_error(b.subrange(end, b.len() as int)),
        }
    }
}

/// The chunks of a stream of chunks, in order, where `chunks_error(b)` is `None`.
#[verifier::opaque]
pub open spec fn parsed_chunks(b: Seq<u8>) -> Seq<ChunkView>
    decreases b.len(),
{
    if b.len() == 0 {
        Seq::empty()
    } else {
        let end = next_chunk_end(b);
        if chunk_error(b.subrange(0, end)) is Some {
            Seq::empty()
        } else {
            seq![parsed_chunk(b.subrange(0, end))] + parsed_chunks(b.subrange(end, b.len() as int))
        }
    }
}

/// Why `b` is not a PNG stream, if it is not.
pub open spec fn png_error(b: Seq<u8>) -> Option<PngError> {
    if b.len() < 8 {
        Some(PngError::TooShort)
    } else if b.subrange(0, 8) != png_signature() {
        Some(PngError::InvalidSignature)
    } else {
        chunks_error(b.subrange(8, b.len() as int))
    }
}

/// The wire forms of the chunks, one after another.
pub open spec fn chunks_wire(cs: Seq<ChunkView>) -> Seq<u8>
    decreases cs.len(),
{
    if cs.len() == 0 {
        Seq::empty()
    } else {
        chunks_wire(cs.drop_last()) + chunk_wire(cs.last())
    }
}

/// The wire form of a PNG stream holding the chunks `cs`.
pub open spec fn png_wire(cs: Seq<ChunkView>) -> Seq<u8> {
    png_signature() + chunks_wire(cs)
}

/// Whether a chunk's type, as text, is `s`.
pub open spec fn type_matches(v: ChunkView, s: Seq<char>) -> bool {
    ascii_chars(v.chunk_type) == s
}

pub open spec fn has_match(cs: Seq<ChunkView>, s: Seq<char>) -> bool {
    exists|i: int| 0 <= i < cs.len() && type_matches(#[trigger] cs[i], s)
}

/// `i` is the position of the first chunk of `cs` whose type is `s`.
pub open spec fn is_first_match(cs: Seq<ChunkView>, s: Seq<char>, i: int) -> bool {
    &&& 0 <= i < cs.len()
    &&& type_matches(cs[i], s)
    &&& forall|j: int| 0 <= j < i ==> !type_matches(#[trigger] cs[j], s)
}

/// The position of the first chunk of `cs` whose type is `s`, where there is one.
pub open spec fn first_match(cs: Seq<ChunkView>, s: Seq<char>) -> int {
    choose|i: int| is_first_match(cs, s, i)
}

/// There is one first match at most, and `first_match` names it.
pub proof fn lemma_first_match(cs: Seq<ChunkView>, s: Seq<char>, i: int)
    requires
        is_first_match(cs, s, i),
    ensures
        first_match(cs, s) == i,
        has_match(cs, s),
{
    let k = first_match(cs, s);
    assert(is_first_match(cs, s, k));
    if k < i {
        assert(!type_matches(cs[k], s));
    }
    if i < k {
        assert(!type_matches(cs[i], s));
    }
}

pub open spec fn views(cs: Seq<Chunk>) -> Seq<ChunkView> {
    cs.map_values(|c: Chunk| c@)
}

pub proof fn lemma_chunks_wire_front(v: ChunkView, rest: Seq<ChunkView>)
    ensures
        chunks_wire(seq![v] + rest) == chunk_wire(v) + chunks_wire(rest),
    decreases rest.len(),
{
    if rest.len() == 0 {
        let one = seq![v] + rest;
        assert(one.drop_last() =~= Seq::<ChunkView>::empty());
        assert(one.last() == v);
        assert(chunks_wire(Seq::<ChunkView>::empty()) == Seq::<u8>::empty());
        assert(chunks_wire(one) =~= chunk_wire(v) + chunks_wire(rest));
    } else {
        lemma_chunks_wire_front(v, rest.drop_last());
        assert((seq![v] + rest).drop_last() =~= seq![v] + rest.drop_last());
        assert(chunks_wire(seq![v] + rest) =~= chunk_wire(v) + chunks_wire(rest));
    }
}

/// One step of parsing a non-empty stream of chunks: its first chunk, then
/// the rest.
pub proof fn lemma_chunks_unfold(b: Seq<u8>)
    requires
        b.len() > 0,
    ensures
        ({
            let end = next_chunk_end(b);
            let head = b.subrange(0, end);
            let rest = b.subrange(end, b.len() as int);
            &&& 0 < end <= b.len()
            &&& chunks_error(b) == match chunk_error(head) {
                Some(e) => Some(e),
                None => chunks_error(rest),
            }
            &&& chunk_error(head) is None ==> parsed_chunks(b) == seq![parsed_chunk(head)]
                + parsed_chunks(rest)
            &&& chunk_error(head) is None ==> head.len() == 12 + declared_length(head)
        }),
{
    reveal(chunks_error);
    reveal(parsed_chunks);
    reveal(chunk_error);
    let end = next_chunk_end(b);
    if end >= 12 {
        assert(b.subrange(0, end).subrange(0, 4) =~= b.subrange(0, 4));
    }
}

/// An empty stream holds no chunks and no error.
pub proof fn lemma_chunks_empty(b: Seq<u8>)
    requires
        b.len() == 0,
    ensures
        chunks_error(b) is None,
        parsed_chunks(b) == Seq::<ChunkView>::empty(),
{
    reveal(chunks_error);
    reveal(parsed_chunks);
}

/// A stream of chunks that parses without error is the wire form of the
/// chunks it parses to.
pub proof fn lemma_chunks_round_trip(b: Seq<u8>)
    requires
        chunks_error(b) is None,
    ensures
        chunks_wire(parsed_chunks(b)) == b,
    decreases b.len(),
{
    if b.len() > 0 {
        lemma_chunks_unfold(b);
        let end = next_chunk_end(b);
        let head = b.subrange(0, end);
        let rest = b.subrange(end, b.len() as int);
        lemma_parsed_wire(head);
        lemma_chunks_round_trip(rest);
        lemma_chunks_wire_front(parsed_chunk(head), parsed_chunks(rest));
        assert(chunks_wire(parsed_chunks(b)) == head + rest);
        assert(b =~= head + rest);
    } else {
        lemma_chunks_empty(b);
        assert(chunks_wire(parsed_chunks(b)) =~= b);
    }
}

/// Round trip: every buffer that parses as a PNG stream is the wire form of
/// the chunks it parses to, so writing them out gives the buffer back.
pub proof fn lemma_png_round_trip(b: Seq<u8>)
    requires
        png_error(b) is None,
    ensures
        png_wire(parsed_chunks(b.subrange(8, b.len() as int))) == b,
{
    lemma_chunks_round_trip(b.subrange(8, b.len() as int));
    assert(b =~= b.subrange(0, 8) + b.subrange(8, b.len() as int));
}

/// Appending a chunk and then removing the first chunk of its type gives
/// the sequence back as it was, where no chunk of that type was there before.
pub proof fn lemma_append_then_remove(cs: Seq<ChunkView>, c: ChunkView, i: int)
    requires
        !has_match(cs, ascii_chars(c.chunk_type)),
        is_first_match(cs.push(c), ascii_chars(c.chunk_type), i),
    ensures
        cs.push(c).remove(i) == cs,
{
    let s = ascii_chars(c.chunk_type);
    if i < cs.len() {
        assert(cs.push(c)[i] == cs[i]);
        assert(has_match(cs, s));
    }
    assert(cs.push(c).remove(i) =~= cs);
}

/// Whether the chunk type `t` reads as the text whose bytes are `s`.
fn type_is(t: &ChunkType, s: &[u8]) -> (r: bool)
    ensures
        r == (t@ == s@),
{
    let code = t.bytes();
    let r = s.len() == 4 && code[0] == s[0] && code[1] == s[1] && code[2] == s[2] && code[3]
        == s[3];
    proof {
        if r {
            assert(t@ =~= s@);
        }
    }
    r
}

/// For a chunk type made of letters, comparing its bytes with those of a
/// text is comparing its text with the text.
proof fn lemma_type_text(t: Seq<u8>, s: &str)
    requires
        t.len() == 4,
        crate::chunk_type::all_alpha(t),
    ensures
        (t == s.spec_bytes()) == (ascii_chars(t) == s@),
{
    broadcast use vstd::utf8::group_utf8_lib;

    lemma_ascii_utf8(t);
    if ascii_chars(t) == s@ {
        assert(s.spec_bytes() == vstd::utf8::encode_utf8(s@));
    }
    if t == s.spec_bytes() {
        assert(vstd::utf8::decode_utf8(vstd::utf8::encode_utf8(s@)) == s@);
    }
}

/// A PNG stream: the signature, then an ordered sequence of chunks.
#[derive(Clone, Debug)]
pub struct Png {
    chunks: Vec<Chunk>,
}

impl View for Png {
    type V = Seq<ChunkView>;

    closed spec fn view(&self) -> Seq<ChunkView> {
        views(self.chunks@)
    }
}

impl Png {
    pub closed spec fn spec_chunks(&self) -> Seq<Chunk> {
        self.chunks@
    }

    /// Every chunk is well formed.
    pub open spec fn wf(&self) -> bool {
        forall|i: int|
            0 <= i < self.spec_chunks().len() ==> (#[trigger] self.spec_chunks()[i]).wf()
    }

    /// Parses a whole PNG stream: the signature, then chunks up to the end of
    /// the buffer. Fails with the first error met.
    pub fn from_bytes(bytes: &[u8]) -> (r: Result<Png, PngError>)
        ensures
            match r {
                Ok(p) => png_error(bytes@) is None && p@ == parsed_chunks(
                    bytes@.subrange(8, bytes@.len() as int),
                ) && p.wf(),
                Err(e) => png_error(bytes@) == Some(e),
            },
    {
        let n = bytes.len();
        if n < 8 {
            return Err(PngError::TooShort);
        }
        if !(bytes[0] == 137 && bytes[1] == 80 && bytes[2] == 78 && bytes[3] == 71 && bytes[4] == 13
            && bytes[5] == 10 && bytes[6] == 26 && bytes[7] == 10) {
            proof {
                if bytes@.subrange(0, 8) == png_signature() {
                    assert(bytes@[0] == bytes@.subrange(0, 8)[0]);
                    assert(bytes@[1] == bytes@.subrange(0, 8)[1]);
                    assert(bytes@[2] == bytes@.subrange(0, 8)[2]);
                    assert(bytes@[3] == bytes@.subrange(0, 8)[3]);
                    assert(bytes@[4] == bytes@.subrange(0, 8)[4]);
                    assert(bytes@[5] == bytes@.subrange(0, 8)[5]);
                    assert(bytes@[6] == bytes@.subrange(0, 8)[6]);
                    assert(bytes@[7] == bytes@.subrange(0, 8)[7]);
                }
            }
            return Err(PngError::InvalidSignature);
        }
        assert(bytes@.subrange(0, 8) =~= png_signature());
        let ghost stream = bytes@.subrange(8, n as int);
        let mut chunks: Vec<Chunk> = Vec::new();
        let mut off: usize = 8;
        while off < n
            invariant
                8 <= off <= n,
                n == bytes@.len(),
                stream == bytes@.subrange(8, n as int),
                bytes@.subrange(0, 8) == png_signature(),
                chunks_error(stream) == chunks_error(bytes@.subrange(off as int, n as int)),
                views(chunks@) + parsed_chunks(bytes@.subrange(off as int, n as int))
                    == parsed_chunks(stream),
                forall|i: int| 0 <= i < chunks@.len() ==> (#[trigger] chunks@[i]).wf(),
            decreases n - off,
        {
            let ghost rest = bytes@.subrange(off as int, n as int);
            proof {
                lemma_chunks_unfold(rest);
            }
            let remaining = n - off;
            let mut end = n;
            if remaining >= 12 {
                let length = read_be_u32(bytes, off);
                assert(bytes@.subrange(off as int, off + 4) =~= rest.subrange(0, 4));
                if remaining - 12 >= length as usize {
                    end = off + 12 + length as usize;
                }
            }
            assert(end - off == next_chunk_end(rest));
            let chunk = match Chunk::from_bytes(&bytes[off..end]) {
                Ok(c) => c,
                Err(e) => {
                    assert(bytes@.subrange(off as int, end as int) =~= rest.subrange(
                        0,
                        next_chunk_end(rest),
                    ));
                    return Err(e);
                },
            };
            proof {
                assert(bytes@.subrange(off as int, end as int) =~= rest.subrange(
                    0,
                    next_chunk_end(rest),
                ));
                assert(bytes@.subrange(end as int, n as int) =~= rest.subrange(
                    next_chunk_end(rest),
                    rest.len() as int,
                ));
            }
            let ghost before = chunks@;
            chunks.push(chunk);
            proof {
                assert(views(chunks@) =~= views(before).push(chunk@));
            }
            off = end;
        }
        proof {
            lemma_chunks_empty(bytes@.subrange(off as int, n as int));
            assert(views(chunks@) =~= parsed_chunks(stream));
        }
        Ok(Png { chunks })
    }

    /// The chunks, in stored order.
    pub fn chunks(&self) -> (r: &[Chunk])
        ensures
            views(r@) == self@,
            r@ == self.spec_chunks(),
    {
        self.chunks.as_slice()
    }

    /// The position of the first chunk whose type reads as `chunk_type`.
    fn position(&self, chunk_type: &str) -> (r: Option<usize>)
        requires
            self.wf(),
        ensures
            match r {
                Some(i) => is_first_match(self@, chunk_type@, i as int),
                None => !has_match(self@, chunk_type@),
            },
    {
        let wanted = chunk_type.as_bytes();
        let mut i: usize = 0;
        while i < self.chunks.len()
            invariant
                0 <= i <= self.chunks@.len(),
                self.wf(),
                wanted@ == chunk_type.spec_bytes(),
                forall|j: int| 0 <= j < i ==> !type_matches(#[trigger] self@[j], chunk_type@),
            decreases self.chunks@.len() - i,
        {
            let c = &self.chunks[i];
            proof {
                assert(self.spec_chunks()[i as int].wf());
                assert(self@[i as int] == c@);
                lemma_type_text(c@.chunk_type, chunk_type);
            }
            if type_is(c.chunk_type(), wanted) {
                return Some(i);
            }
            i = i + 1;
        }
        None
    }

    /// The first chunk, in stored order, whose type reads as `chunk_type`.
    pub fn chunk_by_type(&self, chunk_type: &str) -> (r: Option<&Chunk>)
        requires
            self.wf(),
        ensures
            match r {
                Some(c) => exists|i: int| is_first_match(self@, chunk_type@, i) && c@ == self@[i],
                None => !has_match(self@, chunk_type@),
            },
            r matches Some(c) ==> c.wf(),
    {
        match self.position(chunk_type) {
            Some(i) => {
                let c = &self.chunks[i];
                assert(c@ == self@[i as int]);
                assert(self.spec_chunks()[i as int].wf());
                Some(c)
            },
            None => None,
        }
    }

    /// Adds a chunk after the last one.
    pub fn append_chunk(&mut self, chunk: Chunk)
        requires
            old(self).wf(),
            chunk.wf(),
        ensures
            final(self)@ == old(self)@.push(chunk@),
            final(self).wf(),
    {
        let ghost before = self.chunks@;
        self.chunks.push(chunk);
        assert(views(self.chunks@) =~= views(before).push(chunk@));
        assert forall|j: int| 0 <= j < self.spec_chunks().len() implies (
        #[trigger] self.spec_chunks()[j]).wf() by {
            if j < before.len() {
                assert(self.spec_chunks()[j] == old(self).spec_chunks()[j]);
                assert(old(self).spec_chunks()[j].wf());
            }
        }
    }

    /// Removes the first chunk, in stored order, whose type reads as
    /// `chunk_type`; the others stay, in their order.
    pub fn remove_chunk(&mut self, chunk_type: &str) -> (r: Result<(), PngError>)
        requires
            old(self).wf(),
        ensures
            final(self).wf(),
            match r {
                Ok(()) => exists|i: int|
                    is_first_match(old(self)@, chunk_type@, i) && final(self)@ == old(self)@.remove(
                        i,
                    ),
                Err(e) => e == PngError::ChunkNotFound && !has_match(old(self)@, chunk_type@)
                    && final(self)@ == old(self)@,
            },
    {
        match self.position(chunk_type) {
            Some(i) => {
                let ghost before = self.chunks@;
                self.chunks.remove(i);
                assert(views(self.chunks@) =~= views(before).remove(i as int));
                assert forall|j: int| 0 <= j < self.spec_chunks().len() implies (
                #[trigger] self.spec_chunks()[j]).wf() by {
                    if j >= i {
                        assert(self.spec_chunks()[j] == old(self).spec_chunks()[j + 1]);
                        assert(old(self).spec_chunks()[j + 1].wf());
                    } else {
                        assert(self.spec_chunks()[j] == old(self).spec_chunks()[j]);
                        assert(old(self).spec_chunks()[j].wf());
                    }
                }
                Ok(())
            },
            None => Err(PngError::ChunkNotFound),
        }
    }

    /// The wire form: the signature, then each chunk's bytes in stored order.
    pub fn as_bytes(&self) -> (r: Vec<u8>)
        ensures
            r@ == png_wire(self@),
    {
        let mut r: Vec<u8> = vec![137u8, 80u8, 78u8, 71u8, 13u8, 10u8, 26u8, 10u8];
        assert(r@ =~= png_signature() + chunks_wire(views(self.chunks@).take(0)));
        let mut i: usize = 0;
        while i < self.chunks.len()
            invariant
                0 <= i <= self.chunks@.len(),
                r@ == png_signature() + chunks_wire(views(self.chunks@).take(i as int)),
            decreases self.chunks@.len() - i,
        {
            let bytes = self.chunks[i].as_bytes();
            r.extend_from_slice(bytes.as_slice());
            proof {
                let cs = views(self.chunks@);
                assert(cs.take(i + 1).drop_last() =~= cs.take(i as int));
                assert(cs.take(i + 1).last() == self.chunks@[i as int]@);
            }
            assert(r@ =~= png_signature() + chunks_wire(views(self.chunks@).take(i + 1)));
            i = i + 1;
        }
        assert(views(self.chunks@).take(i as int) =~= self@);
        r
    }
}

impl<'a> TryFrom<&'a [u8]> for Png {
    type Error = PngError;

    fn try_from(bytes: &'a [u8]) -> (r: Result<Png, PngError>)
        ensures
            match r {
                Ok(p) => png_error(bytes@) is None && p@ == parsed_chunks(
                    bytes@.subrange(8, bytes@.len() as int),
                ) && p.wf(),
                Err(e) => png_error(bytes@) == Some(e),
            },
    {
        Png::from_bytes(bytes)
    }
}

impl<'a> vstd::std_specs::convert::TryFromSpecImpl<&'a [u8]> for Png {
    open spec fn obeys_try_from_spec() -> bool {
        false
    }

    open spec fn try_from_spec(bytes: &'a [u8]) -> Result<Png, PngError> {
        arbitrary()
    }
}

} // verus!
