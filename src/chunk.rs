use crate::be_bytes::{
    be_u32, lemma_be_u32_of_u32_be, lemma_u32_be_of_be_u32, lemma_bit_flip_changes_be_u32, u32_be, u32_from_be_bytes,
    u32_to_be_bytes,
};
use crate::chunk_type::{type_code_accepts, ChunkType};
use crate::error::PngError;
use crate::text::string_from_utf8;
use vstd::prelude::*;
use vstd::slice::{slice_subrange, slice_to_vec};
use vstd::utf8::{decode_utf8, valid_utf8};

verus! {

/// The CRC-32/ISO-HDLC checksum of `b`, the checksum that PNG stores after
/// each chunk.
pub uninterp spec fn crc32_iso_hdlc(b: Seq<u8>) -> u32;

/// Relies on `crc::Crc::<u32>::checksum` with the `CRC_32_ISO_HDLC`
/// algorithm: the checksum depends on the bytes alone.
#[verifier::external_body]
fn checksum(bytes: &[u8]) -> (r: u32)
    ensures
        r == crc32_iso_hdlc(bytes@),
{
    crc::Crc::<u32>::new(&crc::CRC_32_ISO_HDLC).checksum(bytes)
}

/// What a chunk is: its type code and its data. Its length and checksum
/// follow from these.
pub struct ChunkModel {
    pub chunk_type: Seq<u8>,
    pub data: Seq<u8>,
}

impl ChunkModel {
    /// The checksum stored with the chunk, over its type code and data.
    pub open spec fn crc(self) -> u32 {
        crc32_iso_hdlc(self.chunk_type + self.data)
    }

    /// The chunk as it stands in a file: big-endian length, type code, data,
    /// big-endian checksum.
    #[verifier::opaque]
    pub open spec fn bytes(self) -> Seq<u8> {
        u32_be(self.data.len() as u32) + self.chunk_type + self.data + u32_be(self.crc())
    }

    /// The chunk can be written: a four-letter type code and a length that
    /// fits the 32-bit length field.
    pub open spec fn writable(self) -> bool {
        type_code_accepts(self.chunk_type) && self.data.len() <= u32::MAX
    }
}

/// The outcome of reading `b` as exactly one chunk record.
#[verifier::opaque]
pub open spec fn parse_chunk_spec(b: Seq<u8>) -> Result<ChunkModel, PngError> {
    match record_check(b, crc32_iso_hdlc(b.subrange(4, b.len() - 4))) {
        Err(e) => Err(e),
        Ok(_) => Ok(ChunkModel { chunk_type: b.subrange(4, 8), data: b.subrange(8, b.len() - 4) }),
    }
}

/// Whether `b` is one well-formed chunk record, given the checksum `crc`
/// computed over its type code and data: it has room for the length, type
/// code and checksum fields, its length field gives the size of its data,
/// its type code is four letters and it stores `crc`.
pub open spec fn record_check(b: Seq<u8>, crc: u32) -> Result<(), PngError> {
    if b.len() < 12 {
        Err(PngError::TruncatedInput)
    } else if be_u32(b) as int != b.len() - 12 {
        Err(PngError::LengthMismatch)
    } else if !type_code_accepts(b.subrange(4, 8)) {
        Err(PngError::InvalidTypeCode)
    } else if crc != be_u32(b.subrange(b.len() - 4, b.len() as int)) {
        Err(PngError::ChecksumMismatch)
    } else {
        Ok(())
    }
}

/// Checks the chunk record `bytes` against the checksum `crc` computed over
/// its type code and data.
pub fn check_record(bytes: &[u8], crc: u32) -> (r: Result<(), PngError>)
    ensures
        r == record_check(bytes@, crc),
{
    let n = bytes.len();
    if n < 12 {
        return Err(PngError::TruncatedInput);
    }
    let declared = u32_from_be_bytes(bytes, 0);
    proof {
        assert(be_u32(bytes@.subrange(0, 4)) == be_u32(bytes@));
    }
    if declared as usize != n - 12 {
        return Err(PngError::LengthMismatch);
    }
    if ChunkType::try_from(slice_to_array(slice_subrange(bytes, 4, 8))).is_err() {
        return Err(PngError::InvalidTypeCode);
    }
    if crc != u32_from_be_bytes(bytes, n - 4) {
        return Err(PngError::ChecksumMismatch);
    }
    Ok(())
}

/// One PNG chunk: a type code, its data, the data's length and the checksum
/// over type code and data.
#[derive(Debug)]
pub struct Chunk {
    length: u32,
    chunk_type: ChunkType,
    data: Vec<u8>,
    crc: u32,
}

impl View for Chunk {
    type V = ChunkModel;

    closed spec fn view(&self) -> ChunkModel {
        ChunkModel { chunk_type: self.chunk_type@, data: self.data@ }
    }
}

/// Copies four bytes into an array.
fn slice_to_array(slice: &[u8]) -> (r: [u8; 4])
    requires
        slice@.len() == 4,
    ensures
        r@ == slice@,
{
    let r = [slice[0], slice[1], slice[2], slice[3]];
    assert(r@ =~= slice@);
    r
}

impl Chunk {
    /// The length and checksum always agree with the type code and data.
    #[verifier::type_invariant]
    pub(crate) closed spec fn consistent(self) -> bool {
        &&& self.length as nat == self.data@.len()
        &&& self.crc == self@.crc()
        &&& type_code_accepts(self.chunk_type@)
    }

    /// A consistent chunk can be written.
    pub(crate) proof fn lemma_writable(self)
        requires
            self.consistent(),
        ensures
            self@.writable(),
    {
    }

    /// A chunk of the given type holding `data`, with its checksum computed.
    pub fn new(chunk_type: ChunkType, data: Vec<u8>) -> (r: Chunk)
        requires
            data@.len() <= u32::MAX,
        ensures
            r@ == (ChunkModel { chunk_type: chunk_type@, data: data@ }),
    {
        let type_bytes = chunk_type.bytes();
        let mut covered: Vec<u8> = Vec::new();
        let mut i: usize = 0;
        while i < 4
            invariant
                i <= 4,
                type_bytes@.len() == 4,
                covered@ == type_bytes@.subrange(0, i as int),
            decreases 4 - i,
        {
            covered.push(type_bytes[i]);
            i += 1;
            assert(covered@ =~= type_bytes@.subrange(0, i as int));
        }
        let mut j: usize = 0;
        while j < data.len()
            invariant
                j <= data@.len(),
                covered@ == type_bytes@ + data@.subrange(0, j as int),
            decreases data@.len() - j,
        {
            covered.push(data[j]);
            j += 1;
            assert(covered@ =~= type_bytes@ + data@.subrange(0, j as int));
        }
        assert(data@.subrange(0, data@.len() as int) =~= data@);
        let crc = checksum(covered.as_slice());
        Chunk { length: data.len() as u32, chunk_type, data, crc }
    }

    /// Reads one chunk record that fills `bytes` exactly, checking its
    /// length field, type code and checksum.
    pub fn try_from(bytes: &[u8]) -> (r: Result<Chunk, PngError>)
        ensures
            match parse_chunk_spec(bytes@) {
                Ok(m) => r is Ok && r->Ok_0@ == m,
                Err(e) => r is Err && r->Err_0 == e,
            },
    {
        reveal(parse_chunk_spec);
        let n = bytes.len();
        if n < 12 {
            return Err(PngError::TruncatedInput);
        }
        let crc = checksum(slice_subrange(bytes, 4, n - 4));
        if let Err(e) = check_record(bytes, crc) {
            return Err(e);
        }
        let chunk_type = match ChunkType::try_from(slice_to_array(slice_subrange(bytes, 4, 8))) {
            Ok(t) => t,
            Err(e) => {
                return Err(e);
            },
        };
        let data = slice_to_vec(slice_subrange(bytes, 8, n - 4));
        proof {
            assert(chunk_type@ + data@ =~= bytes@.subrange(4, n - 4));
        }
        Ok(Chunk { length: (n - 12) as u32, chunk_type, data, crc })
    }

    /// The number of data bytes.
    pub fn length(&self) -> (r: u32)
        ensures
            r as nat == self@.data.len(),
    {
        proof {
            use_type_invariant(self);
        }
        self.length
    }

    /// The chunk's type code.
    pub fn chunk_type(&self) -> (r: &ChunkType)
        ensures
            r@ == self@.chunk_type,
    {
        &self.chunk_type
    }

    /// The chunk's data.
    pub fn data(&self) -> (r: &[u8])
        ensures
            r@ == self@.data,
    {
        self.data.as_slice()
    }

    /// The checksum over type code and data.
    pub fn crc(&self) -> (r: u32)
        ensures
            r == self@.crc(),
    {
        proof {
            use_type_invariant(self);
        }
        self.crc
    }

    /// The data read as UTF-8 text.
    pub fn data_as_string(&self) -> (r: Result<String, PngError>)
        ensures
            r is Ok <==> valid_utf8(self@.data),
            r is Ok ==> r->Ok_0@ == decode_utf8(self@.data),
            r is Err ==> r->Err_0 == PngError::InvalidUtf8Payload,
    {
        match string_from_utf8(slice_to_vec(self.data.as_slice())) {
            Some(s) => Ok(s),
            None => Err(PngError::InvalidUtf8Payload),
        }
    }

    /// The chunk as it stands in a file.
    pub fn as_bytes(&self) -> (r: Vec<u8>)
        ensures
            r@ == self@.bytes(),
    {
        proof {
            use_type_invariant(self);
            reveal(ChunkModel::bytes);
        }
        let len_bytes = u32_to_be_bytes(self.length);
        let type_bytes = self.chunk_type.bytes();
        let crc_bytes = u32_to_be_bytes(self.crc);
        let mut total: Vec<u8> = Vec::new();
        let mut i: usize = 0;
        while i < 4
            invariant
                i <= 4,
                len_bytes@.len() == 4,
                total@ == len_bytes@.subrange(0, i as int),
            decreases 4 - i,
        {
            total.push(len_bytes[i]);
            i += 1;
            assert(total@ =~= len_bytes@.subrange(0, i as int));
        }
        i = 0;
        while i < 4
            invariant
                i <= 4,
                len_bytes@.len() == 4,
                type_bytes@.len() == 4,
                total@ == len_bytes@ + type_bytes@.subrange(0, i as int),
            decreases 4 - i,
        {
            total.push(type_bytes[i]);
            i += 1;
            assert(total@ =~= len_bytes@ + type_bytes@.subrange(0, i as int));
        }
        let mut j: usize = 0;
        while j < self.data.len()
            invariant
                j <= self.data@.len(),
                len_bytes@.len() == 4,
                type_bytes@.len() == 4,
                total@ == len_bytes@ + type_bytes@ + self.data@.subrange(0, j as int),
            decreases self.data@.len() - j,
        {
            total.push(self.data[j]);
            j += 1;
            assert(total@ =~= len_bytes@ + type_bytes@ + self.data@.subrange(0, j as int));
        }
        i = 0;
        while i < 4
            invariant
                i <= 4,
                crc_bytes@.len() == 4,
                total@ == len_bytes@ + type_bytes@ + self.data@ + crc_bytes@.subrange(0, i as int),
            decreases 4 - i,
        {
            total.push(crc_bytes[i]);
            i += 1;
            assert(total@ =~= len_bytes@ + type_bytes@ + self.data@ + crc_bytes@.subrange(
                0,
                i as int,
            ));
        }
        assert(self.data@.subrange(0, self.data@.len() as int) =~= self.data@);
        assert(crc_bytes@.subrange(0, 4) =~= crc_bytes@);
        total
    }
}

impl Clone for Chunk {
    fn clone(&self) -> (r: Chunk)
        ensures
            r@ == self@,
    {
        proof {
            use_type_invariant(self);
        }
        Chunk {
            length: self.length,
            chunk_type: self.chunk_type,
            data: slice_to_vec(self.data.as_slice()),
            crc: self.crc,
        }
    }
}

/// Reading the bytes written for a chunk gives that chunk back.
pub proof fn lemma_chunk_bytes_round_trip(m: ChunkModel)
    requires
        m.writable(),
    ensures
        parse_chunk_spec(m.bytes()) == Ok::<ChunkModel, PngError>(m),
{
    reveal(ChunkModel::bytes);
    reveal(parse_chunk_spec);
    let b = m.bytes();
    let n = b.len();
    lemma_be_u32_of_u32_be(m.data.len() as u32);
    lemma_be_u32_of_u32_be(m.crc());
    assert(b.subrange(0, 4) =~= u32_be(m.data.len() as u32));
    assert(be_u32(b) == be_u32(b.subrange(0, 4)));
    assert(b.subrange(4, 8) =~= m.chunk_type);
    assert(b.subrange(4, n - 4) =~= m.chunk_type + m.data);
    assert(b.subrange(n - 4, n as int) =~= u32_be(m.crc()));
    assert(b.subrange(8, n - 4) =~= m.data);
}

/// A stored checksum with any one of its 32 bits flipped is rejected as a
/// checksum mismatch.
pub proof fn lemma_checksum_bit_flip_detected(m: ChunkModel, k: int, j: u8)
    requires
        m.writable(),
        0 <= k < 4,
        j < 8,
    ensures
        ({
            let b = m.bytes();
            let at = b.len() - 4 + k;
            parse_chunk_spec(b.update(at, b[at] ^ (1u8 << j))) == Err::<ChunkModel, PngError>(
                PngError::ChecksumMismatch,
            )
        }),
{
    reveal(ChunkModel::bytes);
    reveal(parse_chunk_spec);
    let b = m.bytes();
    let n = b.len();
    let at = n - 4 + k;
    let f = b.update(at, b[at] ^ (1u8 << j));
    lemma_be_u32_of_u32_be(m.data.len() as u32);
    lemma_bit_flip_changes_be_u32(m.crc(), k, j);
    assert(be_u32(f) == be_u32(u32_be(m.data.len() as u32)));
    assert(f.subrange(4, 8) =~= m.chunk_type);
    assert(f.subrange(4, n - 4) =~= m.chunk_type + m.data);
    assert(f.subrange(n - 4, n as int) =~= u32_be(m.crc()).update(
        k,
        u32_be(m.crc())[k] ^ (1u8 << j),
    ));
}

/// The bytes written for a chunk: twelve more than its data, opening with
/// its length.
pub proof fn lemma_chunk_bytes_shape(m: ChunkModel)
    requires
        m.writable(),
    ensures
        m.bytes().len() == m.data.len() + 12,
        m.bytes().subrange(0, 4) == u32_be(m.data.len() as u32),
{
    reveal(ChunkModel::bytes);
    assert(m.bytes().subrange(0, 4) =~= u32_be(m.data.len() as u32));
}

/// A chunk record that reads successfully is exactly the bytes written for
/// the chunk read.
pub proof fn lemma_parse_chunk_reproduces(b: Seq<u8>)
    requires
        parse_chunk_spec(b) is Ok,
    ensures
        parse_chunk_spec(b)->Ok_0.bytes() == b,
        parse_chunk_spec(b)->Ok_0.writable(),
{
    reveal(ChunkModel::bytes);
    reveal(parse_chunk_spec);
    let m = parse_chunk_spec(b)->Ok_0;
    let n = b.len();
    lemma_u32_be_of_be_u32(b.subrange(0, 4));
    lemma_u32_be_of_be_u32(b.subrange(n - 4, n as int));
    assert(be_u32(b.subrange(0, 4)) == be_u32(b));
    assert(m.chunk_type + m.data =~= b.subrange(4, n - 4));
    assert(m.bytes() =~= b);
}

} // verus!
