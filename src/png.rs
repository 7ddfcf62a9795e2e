use crate::be_bytes::{be_u32, lemma_be_u32_of_u32_be, u32_be, u32_from_be_bytes};
use crate::chunk::{
    lemma_chunk_bytes_round_trip, lemma_chunk_bytes_shape, lemma_parse_chunk_reproduces,
    parse_chunk_spec, Chunk, ChunkModel,
};
use crate::chunk_type::ChunkType;
use crate::error::PngError;
use vstd::prelude::*;
use vstd::slice::slice_subrange;
use vstd::string::StringSliceAdditionalSpecFns;

verus! {

/// The eight bytes that open every PNG file.
pub open spec fn png_signature() -> Seq<u8> {
    seq![137u8, 80u8, 78u8, 71u8, 13u8, 10u8, 26u8, 10u8]
}

/// The chunks written one after another.
pub open spec fn chunks_bytes(cs: Seq<ChunkModel>) -> Seq<u8>
    decreases cs.len(),
{
    if cs.len() == 0 {
        seq![]
    } else {
        cs[0].bytes() + chunks_bytes(cs.drop_first())
    }
}

/// A whole PNG stream: the signature, then the chunks.
pub open spec fn png_bytes(cs: Seq<ChunkModel>) -> Seq<u8> {
    png_signature() + chunks_bytes(cs)
}

/// Puts `front` before the chunks of a successful outcome; keeps an error.
pub open spec fn prepend_ok(front: Seq<ChunkModel>, r: Result<Seq<ChunkModel>, PngError>) -> Result<
    Seq<ChunkModel>,
    PngError,
> {
    match r {
        Ok(cs) => Ok(front + cs),
        Err(e) => Err(e),
    }
}

/// The outcome of reading `b` as a run of chunk records: each record's
/// length field says where the next one starts.
pub open spec fn parse_chunks_spec(b: Seq<u8>) -> Result<Seq<ChunkModel>, PngError>
    decreases b.len(),
{
    if b.len() == 0 {
        Ok(seq![])
    } else if b.len() < 4 {
        Err(PngError::TruncatedInput)
    } else {
        let total = be_u32(b) as int + 12;
        if total > b.len() {
            Err(PngError::TruncatedInput)
        } else {
            match parse_chunk_spec(b.subrange(0, total)) {
                Ok(m) => prepend_ok(seq![m], parse_chunks_spec(b.subrange(total, b.len() as int))),
                Err(e) => Err(e),
            }
        }
    }
}

/// The outcome of reading `b` as a PNG stream.
pub open spec fn parse_png_spec(b: Seq<u8>) -> Result<Seq<ChunkModel>, PngError> {
    if b.len() < 8 || b.subrange(0, 8) != png_signature() {
        Err(PngError::MalformedSignature)
    } else {
        parse_chunks_spec(b.subrange(8, b.len() as int))
    }
}

/// Some chunk of `cs` has type code `t`.
pub open spec fn has_type(cs: Seq<ChunkModel>, t: Seq<u8>) -> bool {
    exists|i: int| 0 <= i < cs.len() && (#[trigger] cs[i]).chunk_type == t
}

/// `i` is the position of the first chunk of `cs` with type code `t`.
pub open spec fn first_of(cs: Seq<ChunkModel>, t: Seq<u8>, i: int) -> bool {
    &&& 0 <= i < cs.len()
    &&& cs[i].chunk_type == t
    &&& forall|j: int| 0 <= j < i ==> (#[trigger] cs[j]).chunk_type != t
}

/// The position of the first chunk of `cs` with type code `t`, if any.
pub open spec fn find_type(cs: Seq<ChunkModel>, t: Seq<u8>) -> Option<int> {
    if has_type(cs, t) {
        Some(choose|i: int| first_of(cs, t, i))
    } else {
        None
    }
}

/// The models of a run of chunks.
pub open spec fn models(cs: Seq<Chunk>) -> Seq<ChunkModel> {
    cs.map_values(|c: Chunk| c@)
}

/// A PNG stream seen as its ordered chunks; the signature is implied.
#[derive(Debug)]
pub struct Png {
    chunks: Vec<Chunk>,
}

impl View for Png {
    type V = Seq<ChunkModel>;

    closed spec fn view(&self) -> Seq<ChunkModel> {
        models(self.chunks@)
    }
}

/// Where `i` is a first position of `t` in `cs`, it is the one that
/// `find_type` gives.
pub proof fn lemma_find_type_first(cs: Seq<ChunkModel>, t: Seq<u8>, i: int)
    requires
        first_of(cs, t, i),
    ensures
        find_type(cs, t) == Some(i),
{
    assert(has_type(cs, t));
    let k = choose|k: int| first_of(cs, t, k);
    assert(first_of(cs, t, k));
    if k < i {
        assert(cs[k].chunk_type != t);
    } else if i < k {
        assert(cs[i].chunk_type != t);
    }
}

/// Writing one more chunk appends its bytes.
pub proof fn lemma_chunks_bytes_push(cs: Seq<ChunkModel>, m: ChunkModel)
    ensures
        chunks_bytes(cs.push(m)) == chunks_bytes(cs) + m.bytes(),
    decreases cs.len(),
{
    if cs.len() == 0 {
        assert(cs.push(m).drop_first() =~= Seq::<ChunkModel>::empty());
        assert(chunks_bytes(Seq::<ChunkModel>::empty()) == Seq::<u8>::empty());
        assert(cs.push(m)[0] == m);
        assert(chunks_bytes(cs.push(m)) =~= m.bytes());
    } else {
        assert(cs.push(m).drop_first() =~= cs.drop_first().push(m));
        lemma_chunks_bytes_push(cs.drop_first(), m);
        assert(chunks_bytes(cs.push(m)) =~= chunks_bytes(cs) + m.bytes());
    }
}

/// A run of chunk records that reads successfully is exactly the bytes
/// written for the chunks read.
pub proof fn lemma_parse_chunks_reproduces(b: Seq<u8>)
    requires
        parse_chunks_spec(b) is Ok,
    ensures
        chunks_bytes(parse_chunks_spec(b)->Ok_0) == b,
    decreases b.len(),
{
    if b.len() == 0 {
        assert(chunks_bytes(seq![]) =~= b);
    } else {
        let total = be_u32(b) as int + 12;
        let head = b.subrange(0, total);
        let tail = b.subrange(total, b.len() as int);
        lemma_parse_chunk_reproduces(head);
        lemma_parse_chunks_reproduces(tail);
        let cs = parse_chunks_spec(b)->Ok_0;
        let rest = parse_chunks_spec(tail)->Ok_0;
        assert(cs =~= seq![parse_chunk_spec(head)->Ok_0] + rest);
        assert(cs.drop_first() =~= rest);
        assert(chunks_bytes(cs) =~= head + tail);
        assert(head + tail =~= b);
    }
}

/// Every chunk that a successful reading gives can be written.
pub proof fn lemma_parse_chunks_writable(b: Seq<u8>)
    requires
        parse_chunks_spec(b) is Ok,
    ensures
        forall|i: int|
            0 <= i < parse_chunks_spec(b)->Ok_0.len() ==> (#[trigger] parse_chunks_spec(
                b,
            )->Ok_0[i]).writable(),
    decreases b.len(),
{
    if b.len() > 0 {
        let total = be_u32(b) as int + 12;
        let head = b.subrange(0, total);
        let tail = b.subrange(total, b.len() as int);
        lemma_parse_chunk_reproduces(head);
        lemma_parse_chunks_writable(tail);
        let cs = parse_chunks_spec(b)->Ok_0;
        let rest = parse_chunks_spec(tail)->Ok_0;
        assert(cs =~= seq![parse_chunk_spec(head)->Ok_0] + rest);
        assert forall|i: int| 0 <= i < cs.len() implies (#[trigger] cs[i]).writable() by {
            if i > 0 {
                assert(cs[i] == rest[i - 1]);
            }
        }
    }
}

/// Reading the bytes written for writable chunks gives those chunks back.
pub proof fn lemma_chunks_bytes_round_trip(cs: Seq<ChunkModel>)
    requires
        forall|i: int| 0 <= i < cs.len() ==> (#[trigger] cs[i]).writable(),
    ensures
        parse_chunks_spec(chunks_bytes(cs)) == Ok::<Seq<ChunkModel>, PngError>(cs),
    decreases cs.len(),
{
    let b = chunks_bytes(cs);
    if cs.len() == 0 {
        assert(cs =~= Seq::<ChunkModel>::empty());
    } else {
        let m = cs[0];
        assert(m.writable());
        assert(cs.drop_first().len() < cs.len());
        assert forall|i: int| 0 <= i < cs.drop_first().len() implies (
        #[trigger] cs.drop_first()[i]).writable() by {
            assert(cs.drop_first()[i] == cs[i + 1]);
        }
        lemma_chunks_bytes_round_trip(cs.drop_first());
        lemma_chunk_bytes_round_trip(m);
        lemma_be_u32_of_u32_be(m.data.len() as u32);
        lemma_chunk_bytes_shape(m);
        let total = m.bytes().len() as int;
        assert(b.subrange(0, 4) =~= u32_be(m.data.len() as u32));
        assert(be_u32(b) == be_u32(b.subrange(0, 4)));
        assert(b.subrange(0, total) =~= m.bytes());
        assert(b.subrange(total, b.len() as int) =~= chunks_bytes(cs.drop_first()));
        assert(b.len() >= total);
        assert(parse_chunk_spec(b.subrange(0, total)) == Ok::<ChunkModel, PngError>(m));
        assert(seq![m] + cs.drop_first() =~= cs);
        assert(parse_chunks_spec(b) == prepend_ok(
            seq![m],
            parse_chunks_spec(b.subrange(total, b.len() as int)),
        ));
    }
}

/// Reading a PNG stream, writing what was read and reading that again gives
/// what the first reading gave; the bytes written are the bytes read.
pub proof fn lemma_png_round_trip(b: Seq<u8>)
    requires
        parse_png_spec(b) is Ok,
    ensures
        png_bytes(parse_png_spec(b)->Ok_0) == b,
        parse_png_spec(png_bytes(parse_png_spec(b)->Ok_0)) == parse_png_spec(b),
{
    lemma_parse_chunks_reproduces(b.subrange(8, b.len() as int));
    assert(png_signature() + b.subrange(8, b.len() as int) =~= b);
}

/// Writing writable chunks as a PNG stream and reading it gives the chunks
/// back.
pub proof fn lemma_png_bytes_round_trip(cs: Seq<ChunkModel>)
    requires
        forall|i: int| 0 <= i < cs.len() ==> (#[trigger] cs[i]).writable(),
    ensures
        parse_png_spec(png_bytes(cs)) == Ok::<Seq<ChunkModel>, PngError>(cs),
{
    lemma_chunks_bytes_round_trip(cs);
    let b = png_bytes(cs);
    assert(b.subrange(0, 8) =~= png_signature());
    assert(b.subrange(8, b.len() as int) =~= chunks_bytes(cs));
}


/// Returns whether the type code `t` is written by the bytes `s`.
fn type_matches(t: &ChunkType, s: &[u8]) -> (r: bool)
    ensures
        r == (t@ == s@),
{
    let b = t.bytes();
    if s.len() != 4 {
        return false;
    }
    let r = b[0] == s[0] && b[1] == s[1] && b[2] == s[2] && b[3] == s[3];
    proof {
        if r {
            assert(t@ =~= s@);
        }
    }
    r
}

/// Returns the position of the first chunk of `chunks` with type code `s`.
fn position_of(chunks: &Vec<Chunk>, s: &[u8]) -> (r: Option<usize>)
    ensures
        match r {
            Some(i) => first_of(models(chunks@), s@, i as int),
            None => !has_type(models(chunks@), s@),
        },
{
    let mut i: usize = 0;
    while i < chunks.len()
        invariant
            i <= chunks@.len(),
            forall|j: int| 0 <= j < i ==> (#[trigger] models(chunks@)[j]).chunk_type != s@,
        decreases chunks@.len() - i,
    {
        if type_matches(chunks[i].chunk_type(), s) {
            return Some(i);
        }
        i += 1;
    }
    None
}

impl Png {
    /// Every chunk of a PNG stream can be written.
    #[verifier::type_invariant]
    spec fn all_writable(self) -> bool {
        forall|i: int| 0 <= i < self@.len() ==> (#[trigger] self@[i]).writable()
    }

    /// The eight signature bytes that open every PNG stream.
    pub fn standard_header() -> (r: [u8; 8])
        ensures
            r@ == png_signature(),
    {
        let r = [137u8, 80u8, 78u8, 71u8, 13u8, 10u8, 26u8, 10u8];
        assert(r@ =~= png_signature());
        r
    }

    /// A PNG stream holding `chunks` in their order.
    pub fn from_chunks(chunks: Vec<Chunk>) -> (r: Png)
        ensures
            r@ == models(chunks@),
    {
        let mut i: usize = 0;
        while i < chunks.len()
            invariant
                i <= chunks@.len(),
                forall|j: int| 0 <= j < i ==> (#[trigger] models(chunks@)[j]).writable(),
            decreases chunks@.len() - i,
        {
            let c = &chunks[i];
            proof {
                use_type_invariant(c);
                c.lemma_writable();
            }
            i += 1;
        }
        Png { chunks }
    }

    /// Reads a PNG stream: the signature, then chunk records until the
    /// bytes run out.
    pub fn try_from(bytes: &[u8]) -> (r: Result<Png, PngError>)
        ensures
            match parse_png_spec(bytes@) {
                Ok(cs) => r is Ok && r->Ok_0@ == cs,
                Err(e) => r is Err && r->Err_0 == e,
            },
    {
        let n = bytes.len();
        let header = Png::standard_header();
        if n < 8 {
            return Err(PngError::MalformedSignature);
        }
        let mut k: usize = 0;
        while k < 8
            invariant
                k <= 8 <= n == bytes@.len(),
                header@ == png_signature(),
                forall|j: int| 0 <= j < k ==> bytes@[j] == #[trigger] png_signature()[j],
            decreases 8 - k,
        {
            if bytes[k] != header[k] {
                assert(bytes@.subrange(0, 8)[k as int] != png_signature()[k as int]);
                return Err(PngError::MalformedSignature);
            }
            k += 1;
        }
        assert(bytes@.subrange(0, 8) =~= png_signature());
        let mut chunks: Vec<Chunk> = Vec::new();
        let mut pos: usize = 8;
        assert(models(chunks@) =~= Seq::<ChunkModel>::empty());
        while pos < n
            invariant
                8 <= pos <= n == bytes@.len(),
                bytes@.subrange(0, 8) == png_signature(),
                parse_chunks_spec(bytes@.subrange(8, n as int)) == prepend_ok(
                    models(chunks@),
                    parse_chunks_spec(bytes@.subrange(pos as int, n as int)),
                ),
                forall|j: int| 0 <= j < chunks@.len() ==> (#[trigger] models(chunks@)[j]).writable(),
            decreases n - pos,
        {
            let ghost rest = bytes@.subrange(pos as int, n as int);
            if n - pos < 12 {
                proof {
                    if rest.len() >= 4 {
                        assert(be_u32(rest) as int + 12 > rest.len());
                    }
                }
                return Err(PngError::TruncatedInput);
            }
            let len = u32_from_be_bytes(bytes, pos);
            proof {
                assert(be_u32(rest) == be_u32(bytes@.subrange(pos as int, pos + 4)));
            }
            if len as usize > n - pos - 12 {
                return Err(PngError::TruncatedInput);
            }
            let total = len as usize + 12;
            proof {
                assert(rest.subrange(0, total as int) =~= bytes@.subrange(pos as int, pos + total));
                assert(rest.subrange(total as int, rest.len() as int) =~= bytes@.subrange(
                    pos + total,
                    n as int,
                ));
            }
            match Chunk::try_from(slice_subrange(bytes, pos, pos + total)) {
                Ok(c) => {
                    let ghost before = models(chunks@);
                    proof {
                        use_type_invariant(&c);
                        c.lemma_writable();
                    }
                    chunks.push(c);
                    proof {
                        assert(models(chunks@) =~= before.push(c@));
                        lemma_prepend_step(
                            before,
                            c@,
                            parse_chunks_spec(bytes@.subrange(pos + total, n as int)),
                        );
                    }
                    pos = pos + total;
                },
                Err(e) => {
                    return Err(e);
                },
            }
        }
        proof {
            assert(bytes@.subrange(pos as int, n as int) =~= Seq::<u8>::empty());
            assert(models(chunks@) + Seq::<ChunkModel>::empty() =~= models(chunks@));
        }
        Ok(Png { chunks })
    }

    /// The chunks in their order.
    pub fn chunks(&self) -> (r: &[Chunk])
        ensures
            models(r@) == self@,
    {
        self.chunks.as_slice()
    }

    /// Adds `chunk` after the last chunk.
    pub fn append_chunk(&mut self, chunk: Chunk)
        ensures
            final(self)@ == old(self)@.push(chunk@),
    {
        proof {
            use_type_invariant(&*self);
            use_type_invariant(&chunk);
            chunk.lemma_writable();
        }
        let ghost before = self@;
        let mut chunks: Vec<Chunk> = Vec::new();
        core::mem::swap(&mut self.chunks, &mut chunks);
        chunks.push(chunk);
        proof {
            assert(models(chunks@) =~= before.push(chunk@));
            assert forall|j: int| 0 <= j < models(chunks@).len() implies (#[trigger] models(
                chunks@,
            )[j]).writable() by {
                if j < before.len() {
                    assert(models(chunks@)[j] == before[j]);
                }
            }
        }
        self.chunks = chunks;
    }

    /// The first chunk whose type code is written `chunk_type`, if any.
    pub fn chunk_by_type(&self, chunk_type: &str) -> (r: Option<&Chunk>)
        ensures
            match r {
                Some(c) => exists|i: int|
                    first_of(self@, chunk_type.spec_bytes(), i) && c@ == #[trigger] self@[i],
                None => !has_type(self@, chunk_type.spec_bytes()),
            },
    {
        match position_of(&self.chunks, chunk_type.as_bytes()) {
            Some(i) => {
                assert(self@[i as int] == self.chunks@[i as int]@);
                Some(&self.chunks[i])
            },
            None => None,
        }
    }

    /// Takes out the first chunk whose type code is written `chunk_type`;
    /// with no such chunk, fails and leaves the stream as it was.
    pub fn remove_chunk(&mut self, chunk_type: &str) -> (r: Result<Chunk, PngError>)
        ensures
            match r {
                Ok(c) => exists|i: int|
                    first_of(old(self)@, chunk_type.spec_bytes(), i) && c@ == #[trigger] old(
                        self,
                    )@[i] && final(self)@ == old(self)@.remove(i),
                Err(e) => e == PngError::ChunkNotFound && !has_type(
                    old(self)@,
                    chunk_type.spec_bytes(),
                ) && final(self)@ == old(self)@,
            },
    {
        proof {
            use_type_invariant(&*self);
        }
        let ghost before = self@;
        match position_of(&self.chunks, chunk_type.as_bytes()) {
            Some(i) => {
                let mut chunks: Vec<Chunk> = Vec::new();
                core::mem::swap(&mut self.chunks, &mut chunks);
                let c = chunks.remove(i);
                proof {
                    assert(models(chunks@) =~= before.remove(i as int));
                    assert(c@ == before[i as int]);
                    assert forall|j: int| 0 <= j < models(chunks@).len() implies (
                    #[trigger] models(chunks@)[j]).writable() by {
                        if j < i {
                            assert(models(chunks@)[j] == before[j]);
                        } else {
                            assert(models(chunks@)[j] == before[j + 1]);
                        }
                    }
                }
                self.chunks = chunks;
                Ok(c)
            },
            None => Err(PngError::ChunkNotFound),
        }
    }

    /// The whole stream as bytes: the signature, then each chunk.
    pub fn as_bytes(&self) -> (r: Vec<u8>)
        ensures
            r@ == png_bytes(self@),
    {
        let header = Png::standard_header();
        let mut out: Vec<u8> = Vec::new();
        let mut k: usize = 0;
        while k < 8
            invariant
                k <= 8,
                header@ == png_signature(),
                out@ == png_signature().subrange(0, k as int),
            decreases 8 - k,
        {
            out.push(header[k]);
            k += 1;
            assert(out@ =~= png_signature().subrange(0, k as int));
        }
        assert(png_signature().subrange(0, 8) =~= png_signature());
        assert(chunks_bytes(Seq::<ChunkModel>::empty()) == Seq::<u8>::empty());
        assert(png_signature() + Seq::<u8>::empty() =~= png_signature());
        let mut i: usize = 0;
        while i < self.chunks.len()
            invariant
                i <= self.chunks@.len(),
                out@ == png_signature() + chunks_bytes(self@.subrange(0, i as int)),
            decreases self.chunks@.len() - i,
        {
            let mut cb = self.chunks[i].as_bytes();
            proof {
                lemma_chunks_bytes_push(self@.subrange(0, i as int), self@[i as int]);
                assert(self@.subrange(0, i as int).push(self@[i as int]) =~= self@.subrange(
                    0,
                    i + 1,
                ));
            }
            out.append(&mut cb);
            i += 1;
            assert(out@ =~= png_signature() + chunks_bytes(self@.subrange(0, i as int)));
        }
        assert(self@.subrange(0, i as int) =~= self@);
        out
    }
}

/// Moving one chunk from the front of the rest of a reading to the chunks
/// already read leaves the outcome as it was.
proof fn lemma_prepend_step(
    front: Seq<ChunkModel>,
    m: ChunkModel,
    r: Result<Seq<ChunkModel>, PngError>,
)
    ensures
        prepend_ok(front, prepend_ok(seq![m], r)) == prepend_ok(front.push(m), r),
{
    if r is Ok {
        assert(front + (seq![m] + r->Ok_0) =~= front.push(m) + r->Ok_0);
    }
}

} // verus!
