use crate::chunk::{Chunk, ChunkModel};
use crate::chunk_type::{type_code_accepts, ChunkType};
use crate::error::PngError;
use crate::png::{
    find_type, first_of, has_type, lemma_find_type_first, lemma_parse_chunks_writable,
    lemma_png_bytes_round_trip, parse_png_spec, png_bytes, Png,
};
use vstd::prelude::*;
use vstd::slice::slice_to_vec;
use vstd::string::StringSliceAdditionalSpecFns;
use vstd::utf8::{decode_utf8, encode_utf8, valid_utf8};

verus! {

/// The outcome of adding a chunk of type `t` holding `msg` after the last
/// chunk of the PNG stream `b`.
pub open spec fn encode_spec(b: Seq<u8>, t: Seq<u8>, msg: Seq<u8>) -> Result<Seq<u8>, PngError> {
    match parse_png_spec(b) {
        Err(e) => Err(e),
        Ok(cs) => if !type_code_accepts(t) {
            Err(PngError::InvalidTypeCode)
        } else {
            Ok(png_bytes(cs.push(ChunkModel { chunk_type: t, data: msg })))
        },
    }
}

/// The outcome of reading, as text, the first chunk of type `t` of the PNG
/// stream `b`.
pub open spec fn decode_spec(b: Seq<u8>, t: Seq<u8>) -> Result<Seq<char>, PngError> {
    match parse_png_spec(b) {
        Err(e) => Err(e),
        Ok(cs) => match find_type(cs, t) {
            None => Err(PngError::ChunkNotFound),
            Some(i) => if valid_utf8(cs[i].data) {
                Ok(decode_utf8(cs[i].data))
            } else {
                Err(PngError::InvalidUtf8Payload)
            },
        },
    }
}

/// The outcome of taking the first chunk of type `t` out of the PNG stream
/// `b`.
pub open spec fn remove_spec(b: Seq<u8>, t: Seq<u8>) -> Result<Seq<u8>, PngError> {
    match parse_png_spec(b) {
        Err(e) => Err(e),
        Ok(cs) => match find_type(cs, t) {
            None => Err(PngError::ChunkNotFound),
            Some(i) => Ok(png_bytes(cs.remove(i))),
        },
    }
}

/// Hides `message` in a new chunk of type `chunk_type` placed after the last
/// chunk of the PNG stream `file_bytes`, and returns the new stream.
pub fn encode(file_bytes: &[u8], chunk_type: &str, message: &str) -> (r: Result<Vec<u8>, PngError>)
    requires
        message.spec_bytes().len() <= u32::MAX,
    ensures
        match encode_spec(file_bytes@, chunk_type.spec_bytes(), message.spec_bytes()) {
            Ok(out) => r is Ok && r->Ok_0@ == out,
            Err(e) => r is Err && r->Err_0 == e,
        },
{
    let mut png = match Png::try_from(file_bytes) {
        Ok(p) => p,
        Err(e) => {
            return Err(e);
        },
    };
    let t = match ChunkType::from_str(chunk_type) {
        Ok(t) => t,
        Err(e) => {
            return Err(e);
        },
    };
    let chunk = Chunk::new(t, slice_to_vec(message.as_bytes()));
    png.append_chunk(chunk);
    Ok(png.as_bytes())
}

/// Reads as text the first chunk of type `chunk_type` of the PNG stream
/// `file_bytes`.
pub fn decode(file_bytes: &[u8], chunk_type: &str) -> (r: Result<String, PngError>)
    ensures
        match decode_spec(file_bytes@, chunk_type.spec_bytes()) {
            Ok(text) => r is Ok && r->Ok_0@ == text,
            Err(e) => r is Err && r->Err_0 == e,
        },
{
    let png = match Png::try_from(file_bytes) {
        Ok(p) => p,
        Err(e) => {
            return Err(e);
        },
    };
    match png.chunk_by_type(chunk_type) {
        Some(c) => {
            proof {
                let i = choose|i: int| first_of(png@, chunk_type.spec_bytes(), i) && c@ == png@[i];
                lemma_find_type_first(png@, chunk_type.spec_bytes(), i);
            }
            c.data_as_string()
        },
        None => Err(PngError::ChunkNotFound),
    }
}

/// Takes the first chunk of type `chunk_type` out of the PNG stream
/// `file_bytes` and returns what is left; with no such chunk, fails and
/// returns nothing.
pub fn remove(file_bytes: &[u8], chunk_type: &str) -> (r: Result<Vec<u8>, PngError>)
    ensures
        match remove_spec(file_bytes@, chunk_type.spec_bytes()) {
            Ok(out) => r is Ok && r->Ok_0@ == out,
            Err(e) => r is Err && r->Err_0 == e,
        },
{
    let mut png = match Png::try_from(file_bytes) {
        Ok(p) => p,
        Err(e) => {
            return Err(e);
        },
    };
    let ghost before = png@;
    match png.remove_chunk(chunk_type) {
        Ok(_) => {
            proof {
                let i = choose|i: int|
                    first_of(before, chunk_type.spec_bytes(), i) && png@ == before.remove(i);
                lemma_find_type_first(before, chunk_type.spec_bytes(), i);
            }
            Ok(png.as_bytes())
        },
        Err(e) => Err(e),
    }
}

/// A message hidden in a chunk of a type that the stream did not hold yet is
/// read back unchanged.
pub proof fn lemma_encode_then_decode(b: Seq<u8>, t: Seq<u8>, msg: Seq<char>)
    requires
        parse_png_spec(b) is Ok,
        type_code_accepts(t),
        !has_type(parse_png_spec(b)->Ok_0, t),
        encode_utf8(msg).len() <= u32::MAX,
    ensures
        encode_spec(b, t, encode_utf8(msg)) is Ok,
        decode_spec(encode_spec(b, t, encode_utf8(msg))->Ok_0, t) == Ok::<Seq<char>, PngError>(
            msg,
        ),
{
    let cs = parse_png_spec(b)->Ok_0;
    let m = ChunkModel { chunk_type: t, data: encode_utf8(msg) };
    let grown = cs.push(m);
    lemma_parse_chunks_writable(b.subrange(8, b.len() as int));
    assert forall|i: int| 0 <= i < grown.len() implies (#[trigger] grown[i]).writable() by {
        if i < cs.len() {
            assert(grown[i] == cs[i]);
        }
    }
    lemma_png_bytes_round_trip(grown);
    assert forall|j: int| 0 <= j < cs.len() implies (#[trigger] grown[j]).chunk_type != t by {
        assert(grown[j] == cs[j]);
    }
    lemma_find_type_first(grown, t, cs.len() as int);
    vstd::utf8::encode_utf8_valid_utf8(msg);
    vstd::utf8::encode_utf8_decode_utf8(msg);
}

} // verus!
