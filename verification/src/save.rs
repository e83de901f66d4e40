//! The save container: a signed, checksummed, versioned header, the
//! metadata of the run, and the compressed state.
//!
//! In order: the four letters `SGB1`; a 32-bit checksum of all that follows
//! it; the 32-bit version; a 64-bit timestamp; the location, a string; the
//! run count and the two point counts, 32 bits each; the two mode flags, a
//! byte each; the counted list of key names; the names of the current and of
//! the next map; and the compressed state. Strings and the state are a
//! 32-bit length and that many bytes; numbers are little-endian.

use crate::reader::{fits, le_u32_at, le_u64_at, string_at, Reader};
use vstd::prelude::*;

verus! {

/// The one format version that is read.
pub const VERSION: u32 = 16;

/// The most bytes that the state of a version-16 save unpacks to.
pub const UNCOMPRESSED_SIZE: i32 = 9388032;

/// Modulus of the checksum.
pub const CHECKSUM_MODULUS: u32 = 65521;

/// Why a save could not be read.
#[derive(Clone, Copy, Debug, PartialEq, Eq)]
pub enum SaveError {
    /// The buffer ended inside the header or a field.
    UnexpectedEnd,
    /// The first four bytes are not the signature.
    BadSignature,
    /// The version is not one that is read; it is carried here.
    UnsupportedVersion(u32),
    /// The stored checksum is not that of the bytes behind it.
    ChecksumMismatch,
    /// The compressed state has no bytes.
    EmptyState,
}

/// A version-16 save. Text fields are kept as the bytes they were.
#[derive(Debug, PartialEq, Eq)]
pub struct HadesSaveV16 {
    pub version: u32,
    pub timestamp: u64,
    pub location: Vec<u8>,
    pub runs: u32,
    pub active_meta_points: u32,
    pub active_shrine_points: u32,
    pub god_mode_enabled: bool,
    pub hell_mode_enabled: bool,
    pub lua_keys: Vec<Vec<u8>>,
    pub current_map_name: Vec<u8>,
    pub start_next_map: Vec<u8>,
    pub lua_state_lz4: Vec<u8>,
}

/// What a save record stands for.
pub struct SaveModel {
    pub version: u32,
    pub timestamp: u64,
    pub location: Seq<u8>,
    pub runs: u32,
    pub active_meta_points: u32,
    pub active_shrine_points: u32,
    pub god_mode_enabled: bool,
    pub hell_mode_enabled: bool,
    pub lua_keys: Seq<Seq<u8>>,
    pub current_map_name: Seq<u8>,
    pub start_next_map: Seq<u8>,
    pub lua_state_lz4: Seq<u8>,
}

/// The byte strings that a list of buffers stands for.
pub open spec fn strings_view(strings: Seq<Vec<u8>>) -> Seq<Seq<u8>> {
    Seq::new(strings.len(), |i: int| strings[i]@)
}

impl HadesSaveV16 {
    /// The record that this one stands for.
    pub open spec fn view(&self) -> SaveModel {
        SaveModel {
            version: self.version,
            timestamp: self.timestamp,
            location: self.location@,
            runs: self.runs,
            active_meta_points: self.active_meta_points,
            active_shrine_points: self.active_shrine_points,
            god_mode_enabled: self.god_mode_enabled,
            hell_mode_enabled: self.hell_mode_enabled,
            lua_keys: strings_view(self.lua_keys@),
            current_map_name: self.current_map_name@,
            start_next_map: self.start_next_map@,
            lua_state_lz4: self.lua_state_lz4@,
        }
    }

    /// A record as the parser hands it out: of the version that is read,
    /// with a state that is not empty.
    pub open spec fn wf(&self) -> bool {
        self.version == VERSION && self.lua_state_lz4@.len() > 0
    }
}

/// The low half of the checksum of `s`: one more than the sum of its bytes.
pub open spec fn checksum_low(s: Seq<u8>) -> nat
    decreases s.len(),
{
    if s.len() == 0 {
        1
    } else {
        ((checksum_low(s.drop_last()) + s.last()) % 65521) as nat
    }
}

/// The high half of the checksum of `s`: the sum of the low halves of its
/// prefixes.
pub open spec fn checksum_high(s: Seq<u8>) -> nat
    decreases s.len(),
{
    if s.len() == 0 {
        0
    } else {
        ((checksum_high(s.drop_last()) + checksum_low(s)) % 65521) as nat
    }
}

/// The checksum of `s`, both halves modulo 65521.
pub open spec fn checksum(s: Seq<u8>) -> u32 {
    (checksum_high(s) * 0x1_0000 + checksum_low(s)) as u32
}

/// The first four bytes of `s` are the signature, the letters `SGB1`.
pub open spec fn signed_at_start(s: Seq<u8>) -> bool {
    s[0] == 0x53 && s[1] == 0x47 && s[2] == 0x42 && s[3] == 0x31
}

/// `rest` with `done` put in front of the strings it read.
pub open spec fn joined(done: Seq<Seq<u8>>, rest: Option<(Seq<Seq<u8>>, int)>) -> Option<
    (Seq<Seq<u8>>, int),
> {
    match rest {
        Some((more, end)) => Some((done + more, end)),
        None => None,
    }
}

/// The `n` length-prefixed strings of `s` from `pos` on, with the position
/// behind the last.
pub open spec fn strings_at(s: Seq<u8>, pos: int, n: nat) -> Option<(Seq<Seq<u8>>, int)>
    decreases n,
{
    if n == 0 {
        Some((Seq::empty(), pos))
    } else {
        match string_at(s, pos) {
            None => None,
            Some((first, next)) => joined(seq![first], strings_at(s, next, (n - 1) as nat)),
        }
    }
}

/// The counted list of strings of `s` at `pos`: a 32-bit count, then the
/// strings.
pub open spec fn string_list_at(s: Seq<u8>, pos: int) -> Option<(Seq<Seq<u8>>, int)> {
    if fits(s, pos, 4) {
        strings_at(s, pos + 4, le_u32_at(s, pos) as nat)
    } else {
        None
    }
}

/// The fields behind the version, which start at `pos`, or `None` where
/// the buffer ends inside one of them.
pub open spec fn fields_at(s: Seq<u8>, pos: int) -> Option<SaveModel> {
    if !fits(s, pos, 8) {
        None
    } else {
        match string_at(s, pos + 8) {
            None => None,
            Some((location, behind_location)) => if !fits(s, behind_location, 14) {
                None
            } else {
                match string_list_at(s, behind_location + 14) {
                    None => None,
                    Some((lua_keys, behind_keys)) => match string_at(s, behind_keys) {
                        None => None,
                        Some((current_map_name, behind_current)) => match string_at(s, behind_current) {
                            None => None,
                            Some((start_next_map, behind_next)) => match string_at(s, behind_next) {
                                None => None,
                                Some((lua_state_lz4, end)) => Some(
                                    SaveModel {
                                        version: VERSION,
                                        timestamp: le_u64_at(s, pos),
                                        location,
                                        runs: le_u32_at(s, behind_location),
                                        active_meta_points: le_u32_at(s, behind_location + 4),
                                        active_shrine_points: le_u32_at(s, behind_location + 8),
                                        god_mode_enabled: s[behind_location + 12] != 0,
                                        hell_mode_enabled: s[behind_location + 13] != 0,
                                        lua_keys,
                                        current_map_name,
                                        start_next_map,
                                        lua_state_lz4,
                                    },
                                ),
                            },
                        },
                    },
                }
            },
        }
    }
}

/// The record that a save file holds, or the first fault it shows: the
/// signature, the version, the checksum over all that follows it, the
/// fields, and a state that is not empty, in this order.
pub open spec fn parse(s: Seq<u8>) -> Result<SaveModel, SaveError> {
    if !fits(s, 0, 4) {
        Err(SaveError::UnexpectedEnd)
    } else if !signed_at_start(s) {
        Err(SaveError::BadSignature)
    } else if !fits(s, 4, 8) {
        Err(SaveError::UnexpectedEnd)
    } else if le_u32_at(s, 8) != VERSION {
        Err(SaveError::UnsupportedVersion(le_u32_at(s, 8)))
    } else if checksum(s.subrange(8, s.len() as int)) != le_u32_at(s, 4) {
        Err(SaveError::ChecksumMismatch)
    } else {
        match fields_at(s, 12) {
            None => Err(SaveError::UnexpectedEnd),
            Some(record) => if record.lua_state_lz4.len() == 0 {
                Err(SaveError::EmptyState)
            } else {
                Ok(record)
            },
        }
    }
}

/// The bound on the unpacked state for a format version, where the version
/// is one that is read.
pub fn uncompressed_size(version: u32) -> (size: Option<i32>)
    ensures
        version == VERSION ==> size == Some(UNCOMPRESSED_SIZE),
        version != VERSION ==> size is None,
{
    if version == VERSION {
        Some(UNCOMPRESSED_SIZE)
    } else {
        None
    }
}

/// The checksum of the bytes of `buf` from `from` on.
pub fn checksum_from(buf: &[u8], from: usize) -> (sum: u32)
    requires
        from <= buf@.len(),
    ensures
        sum == checksum(buf@.subrange(from as int, buf@.len() as int)),
{
    let mut low: u32 = 1;
    let mut high: u32 = 0;
    let mut i: usize = from;
    assert(buf@.subrange(from as int, from as int).len() == 0);
    while i < buf.len()
        invariant
            from <= i <= buf@.len(),
            low < 65521,
            high < 65521,
            low == checksum_low(buf@.subrange(from as int, i as int)),
            high == checksum_high(buf@.subrange(from as int, i as int)),
        decreases buf@.len() - i,
    {
        proof {
            let longer = buf@.subrange(from as int, i + 1);
            assert(longer.drop_last() =~= buf@.subrange(from as int, i as int));
            assert(longer.last() == buf@[i as int]);
        }
        low = (low + buf[i] as u32) % 65521;
        high = (high + low) % 65521;
        i = i + 1;
    }
    high * 0x1_0000 + low
}

/// Reads `n` length-prefixed strings.
fn read_strings(r: &mut Reader, n: u32) -> (res: Option<Vec<Vec<u8>>>)
    requires
        old(r).wf(),
    ensures
        final(r).wf(),
        final(r).buf@ == old(r).buf@,
        match strings_at(old(r).buf@, old(r).pos as int, n as nat) {
            Some((strings, end)) => res is Some && final(r).pos == end && strings_view(
                res->Some_0@,
            ) == strings,
            None => res is None,
        },
{
    let ghost s = r.buf@;
    let ghost start = r.pos as int;
    let mut out: Vec<Vec<u8>> = Vec::new();
    let mut i: u32 = 0;
    assert(joined(strings_view(out@), strings_at(s, start, n as nat)) =~= strings_at(
        s,
        start,
        n as nat,
    ));
    while i < n
        invariant
            r.wf(),
            r.buf@ == s,
            s == old(r).buf@,
            start == old(r).pos,
            i <= n,
            strings_at(s, start, n as nat) == joined(
                strings_view(out@),
                strings_at(s, r.pos as int, (n - i) as nat),
            ),
        decreases n - i,
    {
        let ghost here = r.pos as int;
        let ghost done = strings_view(out@);
        let item = match r.read_string() {
            Ok(bytes) => bytes,
            Err(_) => {
                assert(strings_at(s, here, (n - i) as nat) is None);
                return None;
            },
        };
        out.push(item);
        i = i + 1;
        proof {
            let rest = strings_at(s, r.pos as int, (n - i) as nat);
            assert(strings_at(s, here, (n - i + 1) as nat) == joined(seq![item@], rest));
            assert(strings_view(out@) =~= done + seq![item@]);
            match rest {
                Some((more, end)) => {
                    assert((done + seq![item@]) + more =~= done + (seq![item@] + more));
                },
                None => {},
            }
        }
    }
    proof {
        assert(strings_view(out@) + Seq::<Seq<u8>>::empty() =~= strings_view(out@));
    }
    Some(out)
}

/// Reads the fields behind the version.
fn read_fields(r: &mut Reader) -> (res: Option<HadesSaveV16>)
    requires
        old(r).wf(),
    ensures
        final(r).wf(),
        match fields_at(old(r).buf@, old(r).pos as int) {
            Some(record) => res is Some && res->Some_0.view() == record,
            None => res is None,
        },
{
    let timestamp: u64 = match r.read_u64() {
        Ok(v) => v,
        Err(_) => {
            return None;
        },
    };
    let location = match r.read_string() {
        Ok(v) => v,
        Err(_) => {
            return None;
        },
    };
    if r.remaining() < 14 {
        return None;
    }
    let runs: u32 = match r.read_u32() {
        Ok(v) => v,
        Err(_) => {
            return None;
        },
    };
    let active_meta_points: u32 = match r.read_u32() {
        Ok(v) => v,
        Err(_) => {
            return None;
        },
    };
    let active_shrine_points: u32 = match r.read_u32() {
        Ok(v) => v,
        Err(_) => {
            return None;
        },
    };
    let god: u8 = match r.read_u8() {
        Ok(v) => v,
        Err(_) => {
            return None;
        },
    };
    let hell: u8 = match r.read_u8() {
        Ok(v) => v,
        Err(_) => {
            return None;
        },
    };
    let count: u32 = match r.read_u32() {
        Ok(v) => v,
        Err(_) => {
            return None;
        },
    };
    let lua_keys = match read_strings(r, count) {
        Some(v) => v,
        None => {
            return None;
        },
    };
    let current_map_name = match r.read_string() {
        Ok(v) => v,
        Err(_) => {
            return None;
        },
    };
    let start_next_map = match r.read_string() {
        Ok(v) => v,
        Err(_) => {
            return None;
        },
    };
    let lua_state_lz4 = match r.read_string() {
        Ok(v) => v,
        Err(_) => {
            return None;
        },
    };
    Some(
        HadesSaveV16 {
            version: VERSION,
            timestamp,
            location,
            runs,
            active_meta_points,
            active_shrine_points,
            god_mode_enabled: god != 0,
            hell_mode_enabled: hell != 0,
            lua_keys,
            current_map_name,
            start_next_map,
            lua_state_lz4,
        },
    )
}

/// Reads a save file: the whole record, or the first fault and nothing
/// else.
pub fn read(buf: &[u8]) -> (res: Result<HadesSaveV16, SaveError>)
    ensures
        match parse(buf@) {
            Ok(record) => res is Ok && res->Ok_0.view() == record && res->Ok_0.wf(),
            Err(e) => res == Err::<HadesSaveV16, SaveError>(e),
        },
{
    if buf.len() < 4 {
        return Err(SaveError::UnexpectedEnd);
    }
    if !(buf[0] == 0x53 && buf[1] == 0x47 && buf[2] == 0x42 && buf[3] == 0x31) {
        return Err(SaveError::BadSignature);
    }
    let mut r = Reader::new(buf);
    r.pos = 4;
    if r.remaining() < 8 {
        return Err(SaveError::UnexpectedEnd);
    }
    let stored: u32 = match r.read_u32() {
        Ok(v) => v,
        Err(_) => {
            return Err(SaveError::UnexpectedEnd);
        },
    };
    let version: u32 = match r.read_u32() {
        Ok(v) => v,
        Err(_) => {
            return Err(SaveError::UnexpectedEnd);
        },
    };
    if version != VERSION {
        return Err(SaveError::UnsupportedVersion(version));
    }
    if checksum_from(buf, 8) != stored {
        return Err(SaveError::ChecksumMismatch);
    }
    match read_fields(&mut r) {
        None => Err(SaveError::UnexpectedEnd),
        Some(record) => {
            if record.lua_state_lz4.len() == 0 {
                Err(SaveError::EmptyState)
            } else {
                Ok(record)
            }
        },
    }
}

/// A record is whole or there is none: what parses is of the version that
/// is read and carries a state that is not empty.
pub proof fn lemma_parsed_record_is_whole(s: Seq<u8>)
    requires
        parse(s) is Ok,
    ensures
        parse(s)->Ok_0.version == VERSION,
        parse(s)->Ok_0.lua_state_lz4.len() > 0,
        s.len() >= 12,
        signed_at_start(s),
        checksum(s.subrange(8, s.len() as int)) == le_u32_at(s, 4),
{
}

} // verus!
