//! From the bytes of a save file to the values of its state: parse the
//! container, unpack the state, decode the stream. A fault at any step
//! leaves an empty state and a named error, never half a state.

use crate::luabins::{load, stream, values_view, DecodeError, DecodedValue, Value};
use crate::save::{parse, read, SaveError, UNCOMPRESSED_SIZE};
use vstd::prelude::*;

verus! {

/// What LZ4 block decompression makes of `src` when told that the result
/// has at most `size` bytes; `None` where it reports an error.
pub uninterp spec fn lz4_block(src: Seq<u8>, size: int) -> Option<Seq<u8>>;

/// The step at which loading failed, with the fault of that step.
#[derive(Clone, Copy, Debug, PartialEq, Eq)]
pub enum LoadError {
    /// The container could not be read.
    Save(SaveError),
    /// The state could not be unpacked.
    Decompression,
    /// The unpacked state is no value stream.
    Decode(DecodeError),
}

/// The outcome of loading: the values, and the fault where there was one.
/// With a fault there are no values.
#[derive(Debug, PartialEq, Eq)]
pub struct Loaded {
    pub values: Vec<DecodedValue>,
    pub fault: Option<LoadError>,
}

/// The values of an unpacked state, where unpacking gave one.
pub open spec fn decoded(unpacked: Option<Seq<u8>>) -> Result<Seq<Value>, LoadError> {
    match unpacked {
        None => Err(LoadError::Decompression),
        Some(raw) => match stream(raw) {
            Ok(values) => Ok(values),
            Err(e) => Err(LoadError::Decode(e)),
        },
    }
}

/// The values that a save file holds, or the first fault on the way.
pub open spec fn state_of(file: Seq<u8>) -> Result<Seq<Value>, LoadError> {
    match parse(file) {
        Err(e) => Err(LoadError::Save(e)),
        Ok(record) => decoded(lz4_block(record.lua_state_lz4, UNCOMPRESSED_SIZE as int)),
    }
}

/// The values that are handed on for a save file: those it holds, or none
/// at all where it shows a fault.
pub open spec fn state_or_empty(file: Seq<u8>) -> Seq<Value> {
    match state_of(file) {
        Ok(values) => values,
        Err(_) => Seq::empty(),
    }
}

/// Calls `lz4::block::decompress` with a given size. The result is taken to
/// be a function of the two arguments, named `lz4_block`; an error of the
/// outside function, of whatever kind, becomes `None`. The output is never
/// longer than `size`: the outside function fills a buffer of that length
/// and cuts it down to what was written.
#[verifier::external_body]
fn decompress(src: &[u8], size: i32) -> (out: Option<Vec<u8>>)
    ensures
        match lz4_block(src@, size as int) {
            Some(raw) => out is Some && out->Some_0@ == raw && raw.len() <= size,
            None => out is None,
        },
{
    match lz4::block::decompress(src, Some(size)) {
        Ok(raw) => Some(raw),
        Err(_) => None,
    }
}

/// Decodes what unpacking gave.
pub fn decode_unpacked(unpacked: Option<Vec<u8>>) -> (res: Result<Vec<DecodedValue>, LoadError>)
    ensures
        match decoded(
            match unpacked {
                Some(raw) => Some(raw@),
                None => None,
            },
        ) {
            Ok(values) => res is Ok && values_view(res->Ok_0@) == values,
            Err(e) => res == Err::<Vec<DecodedValue>, LoadError>(e),
        },
{
    match unpacked {
        None => Err(LoadError::Decompression),
        Some(raw) => match load(raw.as_slice()) {
            Ok(values) => Ok(values),
            Err(e) => Err(LoadError::Decode(e)),
        },
    }
}

/// Unpacks a compressed state and decodes it.
pub fn unpack_state(packed: &[u8]) -> (res: Result<Vec<DecodedValue>, LoadError>)
    ensures
        match decoded(lz4_block(packed@, UNCOMPRESSED_SIZE as int)) {
            Ok(values) => res is Ok && values_view(res->Ok_0@) == values,
            Err(e) => res == Err::<Vec<DecodedValue>, LoadError>(e),
        },
{
    decode_unpacked(decompress(packed, UNCOMPRESSED_SIZE))
}

/// Loads the state of a save file: all of its values, or the first fault.
pub fn load_state(file: &[u8]) -> (res: Result<Vec<DecodedValue>, LoadError>)
    ensures
        match state_of(file@) {
            Ok(values) => res is Ok && values_view(res->Ok_0@) == values,
            Err(e) => res == Err::<Vec<DecodedValue>, LoadError>(e),
        },
{
    match read(file) {
        Err(e) => Err(LoadError::Save(e)),
        Ok(record) => unpack_state(record.lua_state_lz4.as_slice()),
    }
}

/// Loads the state of a save file and, where that fails, goes on with an
/// empty state and the fault to report.
pub fn load_state_or_empty(file: &[u8]) -> (out: Loaded)
    ensures
        values_view(out.values@) == state_or_empty(file@),
        match state_of(file@) {
            Ok(_) => out.fault is None,
            Err(e) => out.fault == Some(e) && out.values@.len() == 0,
        },
{
    match load_state(file) {
        Ok(values) => Loaded { values, fault: None },
        Err(e) => {
            let values: Vec<DecodedValue> = Vec::new();
            assert(values_view(values@) =~= Seq::<Value>::empty());
            Loaded { values, fault: Some(e) }
        },
    }
}

/// A save whose version is not the one that is read gives that fault and an
/// empty state, whatever else it holds.
pub proof fn lemma_unread_version_leaves_empty_state(file: Seq<u8>)
    requires
        file.len() >= 12,
        crate::save::signed_at_start(file),
        crate::reader::le_u32_at(file, 8) != crate::save::VERSION,
    ensures
        parse(file) == Err::<crate::save::SaveModel, SaveError>(
            SaveError::UnsupportedVersion(crate::reader::le_u32_at(file, 8)),
        ),
        state_or_empty(file) == Seq::<Value>::empty(),
{
}

} // verus!
