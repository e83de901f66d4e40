//! The value stream: a count, then that many tag-prefixed values, tables
//! nesting to any depth.
//!
//! A stream opens with one byte, the number of values. Each value is one tag
//! byte and its body. Nil and the two booleans have no body. A float is its
//! eight bytes; an integer is two, four or eight bytes, signed or not, as its
//! tag says. A string is a 32-bit length and that many bytes. A table is two
//! 32-bit counts, of its listed and of its keyed pairs, and then that many
//! pairs in all, each a key and a value, which are values in turn. Numbers
//! are little-endian throughout.

use crate::reader::{
    fits, le_u16_at, le_u32_at, le_u64_at, signed16, signed32, signed64, string_at, Reader,
};
use vstd::prelude::*;

verus! {

/// Tag of the nil value.
pub const TAG_NIL: u8 = 0x2d;

/// Tag of the boolean `false`.
pub const TAG_FALSE: u8 = 0x30;

/// Tag of the boolean `true`.
pub const TAG_TRUE: u8 = 0x31;

/// Tag of a 64-bit float, stored as its eight bytes.
pub const TAG_FLOAT: u8 = 0x4e;

/// Tag of a length-prefixed byte string.
pub const TAG_STRING: u8 = 0x53;

/// Tag of a table: two 32-bit counts, then as many pairs as their sum.
pub const TAG_TABLE: u8 = 0x54;

/// Tag of an unsigned 16-bit integer.
pub const TAG_U16: u8 = 0x48;

/// Tag of a signed 16-bit integer.
pub const TAG_I16: u8 = 0x68;

/// Tag of an unsigned 32-bit integer.
pub const TAG_U32: u8 = 0x49;

/// Tag of a signed 32-bit integer.
pub const TAG_I32: u8 = 0x69;

/// Tag of an unsigned 64-bit integer.
pub const TAG_U64: u8 = 0x4c;

/// Tag of a signed 64-bit integer.
pub const TAG_I64: u8 = 0x6c;

/// Why a stream could not be decoded.
#[derive(Clone, Copy, Debug, PartialEq, Eq)]
pub enum DecodeError {
    /// A value or a count ran past the end of the buffer.
    UnexpectedEnd,
    /// A value began with a byte that is no tag.
    UnknownTag(u8),
}

/// An integer as it was encoded, width and sign kept.
#[derive(Clone, Copy, Debug, PartialEq, Eq)]
pub enum IntegerValue {
    U16(u16),
    I16(i16),
    U32(u32),
    I32(i32),
    U64(u64),
    I64(i64),
}

/// One pair of a table.
#[derive(Debug, PartialEq, Eq)]
pub struct TableEntry {
    pub key: DecodedValue,
    pub value: DecodedValue,
}

/// A decoded value. A float is held as the bit pattern of its eight bytes;
/// a table keeps its pairs in the order of the encoding, duplicates and all.
#[derive(Debug, PartialEq, Eq)]
pub enum DecodedValue {
    Nil,
    Boolean(bool),
    Integer(IntegerValue),
    Float(u64),
    Bytes(Vec<u8>),
    Table(Vec<TableEntry>),
}

/// What a decoded value stands for.
pub enum Value {
    Nil,
    Boolean(bool),
    Integer(IntegerValue),
    Float(u64),
    Bytes(Seq<u8>),
    Table(Seq<(Value, Value)>),
}

impl DecodedValue {
    /// The value that this one stands for.
    pub open spec fn view(&self) -> Value
        decreases self,
    {
        match self {
            DecodedValue::Nil => Value::Nil,
            DecodedValue::Boolean(b) => Value::Boolean(*b),
            DecodedValue::Integer(i) => Value::Integer(*i),
            DecodedValue::Float(bits) => Value::Float(*bits),
            DecodedValue::Bytes(bytes) => Value::Bytes(bytes@),
            DecodedValue::Table(entries) => Value::Table(
                Seq::new(
                    entries@.len(),
                    |i: int|
                        if 0 <= i < entries@.len() {
                            (entries@[i].key.view(), entries@[i].value.view())
                        } else {
                            (Value::Nil, Value::Nil)
                        },
                ),
            ),
        }
    }
}

/// The values that a list of decoded values stands for.
pub open spec fn values_view(values: Seq<DecodedValue>) -> Seq<Value> {
    Seq::new(values.len(), |i: int| values[i].view())
}

/// The pairs that a list of entries stands for.
pub open spec fn entries_view(entries: Seq<TableEntry>) -> Seq<(Value, Value)> {
    Seq::new(entries.len(), |i: int| (entries[i].key.view(), entries[i].value.view()))
}

/// The value with tag `tag` whose body starts at `pos`, with the position
/// behind it. A table is no scalar: its tag counts as unknown here.
pub open spec fn scalar_at(s: Seq<u8>, pos: int, tag: u8) -> Result<(Value, int), DecodeError> {
    if tag == TAG_NIL {
        Ok((Value::Nil, pos))
    } else if tag == TAG_FALSE {
        Ok((Value::Boolean(false), pos))
    } else if tag == TAG_TRUE {
        Ok((Value::Boolean(true), pos))
    } else if tag == TAG_FLOAT {
        if fits(s, pos, 8) {
            Ok((Value::Float(le_u64_at(s, pos)), pos + 8))
        } else {
            Err(DecodeError::UnexpectedEnd)
        }
    } else if tag == TAG_U16 {
        if fits(s, pos, 2) {
            Ok((Value::Integer(IntegerValue::U16(le_u16_at(s, pos))), pos + 2))
        } else {
            Err(DecodeError::UnexpectedEnd)
        }
    } else if tag == TAG_I16 {
        if fits(s, pos, 2) {
            Ok((Value::Integer(IntegerValue::I16(signed16(le_u16_at(s, pos)))), pos + 2))
        } else {
            Err(DecodeError::UnexpectedEnd)
        }
    } else if tag == TAG_U32 {
        if fits(s, pos, 4) {
            Ok((Value::Integer(IntegerValue::U32(le_u32_at(s, pos))), pos + 4))
        } else {
            Err(DecodeError::UnexpectedEnd)
        }
    } else if tag == TAG_I32 {
        if fits(s, pos, 4) {
            Ok((Value::Integer(IntegerValue::I32(signed32(le_u32_at(s, pos)))), pos + 4))
        } else {
            Err(DecodeError::UnexpectedEnd)
        }
    } else if tag == TAG_U64 {
        if fits(s, pos, 8) {
            Ok((Value::Integer(IntegerValue::U64(le_u64_at(s, pos))), pos + 8))
        } else {
            Err(DecodeError::UnexpectedEnd)
        }
    } else if tag == TAG_I64 {
        if fits(s, pos, 8) {
            Ok((Value::Integer(IntegerValue::I64(signed64(le_u64_at(s, pos)))), pos + 8))
        } else {
            Err(DecodeError::UnexpectedEnd)
        }
    } else if tag == TAG_STRING {
        match string_at(s, pos) {
            Some((bytes, end)) => Ok((Value::Bytes(bytes), end)),
            None => Err(DecodeError::UnexpectedEnd),
        }
    } else {
        Err(DecodeError::UnknownTag(tag))
    }
}

/// The number of pairs that the table header at `pos` announces: the sum
/// of its two counts.
pub open spec fn table_len_at(s: Seq<u8>, pos: int) -> nat {
    (le_u32_at(s, pos) + le_u32_at(s, pos + 4)) as nat
}

/// `rest` with `done` put in front of what it decoded.
pub open spec fn after<T>(done: Seq<T>, rest: Result<(Seq<T>, int), DecodeError>) -> Result<
    (Seq<T>, int),
    DecodeError,
> {
    match rest {
        Ok((more, end)) => Ok((done + more, end)),
        Err(e) => Err(e),
    }
}

/// The table made of decoded pairs, or the error met on the way.
pub open spec fn table_of(pairs: Result<(Seq<(Value, Value)>, int), DecodeError>) -> Result<
    (Value, int),
    DecodeError,
> {
    match pairs {
        Ok((pairs, end)) => Ok((Value::Table(pairs), end)),
        Err(e) => Err(e),
    }
}

/// The values decoded, without the position behind them.
pub open spec fn values_of(values: Result<(Seq<Value>, int), DecodeError>) -> Result<
    Seq<Value>,
    DecodeError,
> {
    match values {
        Ok((values, end)) => Ok(values),
        Err(e) => Err(e),
    }
}

/// The value encoded in `s` at `pos`, with the position behind it, or the
/// error that the first fault met from left to right gives.
pub open spec fn value_at(s: Seq<u8>, pos: int) -> Result<(Value, int), DecodeError>
    decreases s.len() - pos, 0int,
{
    if !fits(s, pos, 1) {
        Err(DecodeError::UnexpectedEnd)
    } else if s[pos] == TAG_TABLE {
        if fits(s, pos + 1, 8) {
            table_of(pairs_at(s, pos + 9, table_len_at(s, pos + 1)))
        } else {
            Err(DecodeError::UnexpectedEnd)
        }
    } else {
        scalar_at(s, pos + 1, s[pos])
    }
}

/// The `n` key-value pairs encoded in `s` from `pos` on, in order, with the
/// position behind the last.
pub open spec fn pairs_at(s: Seq<u8>, pos: int, n: nat) -> Result<
    (Seq<(Value, Value)>, int),
    DecodeError,
>
    decreases s.len() - pos, n + 1,
{
    if n == 0 {
        Ok((Seq::empty(), pos))
    } else {
        match value_at(s, pos) {
            Err(e) => Err(e),
            Ok((key, mid)) => if pos < mid <= s.len() {
                match value_at(s, mid) {
                    Err(e) => Err(e),
                    Ok((value, next)) => if mid < next <= s.len() {
                        after(seq![(key, value)], pairs_at(s, next, (n - 1) as nat))
                    } else {
                        Err(DecodeError::UnexpectedEnd)
                    },
                }
            } else {
                Err(DecodeError::UnexpectedEnd)
            },
        }
    }
}

/// The `n` values encoded in `s` from `pos` on, in order, with the position
/// behind the last.
pub open spec fn values_at(s: Seq<u8>, pos: int, n: nat) -> Result<(Seq<Value>, int), DecodeError>
    decreases n,
{
    if n == 0 {
        Ok((Seq::empty(), pos))
    } else {
        match value_at(s, pos) {
            Err(e) => Err(e),
            Ok((value, next)) => after(seq![value], values_at(s, next, (n - 1) as nat)),
        }
    }
}

/// The values of a whole stream: one byte of count, then the values. What
/// follows the last value is not looked at.
pub open spec fn stream(s: Seq<u8>) -> Result<Seq<Value>, DecodeError> {
    if s.len() == 0 {
        Err(DecodeError::UnexpectedEnd)
    } else {
        values_of(values_at(s, 1, s[0] as nat))
    }
}

/// `res` is what decoding `bytes` as a stream gives.
pub open spec fn agrees(res: Result<Vec<DecodedValue>, DecodeError>, bytes: Seq<u8>) -> bool {
    match stream(bytes) {
        Ok(values) => res is Ok && values_view(res->Ok_0@) == values,
        Err(e) => res == Err::<Vec<DecodedValue>, DecodeError>(e),
    }
}

/// Decodes the body of a value whose tag was read already. A table is no
/// scalar: its tag counts as unknown here.
pub fn decode_scalar(r: &mut Reader, tag: u8) -> (res: Result<DecodedValue, DecodeError>)
    requires
        old(r).wf(),
    ensures
        final(r).wf(),
        final(r).buf@ == old(r).buf@,
        match scalar_at(old(r).buf@, old(r).pos as int, tag) {
            Ok((value, end)) => res is Ok && res->Ok_0.view() == value && final(r).pos == end
                && end >= old(r).pos,
            Err(e) => res == Err::<DecodedValue, DecodeError>(e),
        },
{
    if tag == TAG_NIL {
        Ok(DecodedValue::Nil)
    } else if tag == TAG_FALSE {
        Ok(DecodedValue::Boolean(false))
    } else if tag == TAG_TRUE {
        Ok(DecodedValue::Boolean(true))
    } else if tag == TAG_FLOAT {
        match r.read_u64() {
            Ok(bits) => Ok(DecodedValue::Float(bits)),
            Err(_) => Err(DecodeError::UnexpectedEnd),
        }
    } else if tag == TAG_U16 {
        match r.read_u16() {
            Ok(v) => Ok(DecodedValue::Integer(IntegerValue::U16(v))),
            Err(_) => Err(DecodeError::UnexpectedEnd),
        }
    } else if tag == TAG_I16 {
        match r.read_i16() {
            Ok(v) => Ok(DecodedValue::Integer(IntegerValue::I16(v))),
            Err(_) => Err(DecodeError::UnexpectedEnd),
        }
    } else if tag == TAG_U32 {
        match r.read_u32() {
            Ok(v) => Ok(DecodedValue::Integer(IntegerValue::U32(v))),
            Err(_) => Err(DecodeError::UnexpectedEnd),
        }
    } else if tag == TAG_I32 {
        match r.read_i32() {
            Ok(v) => Ok(DecodedValue::Integer(IntegerValue::I32(v))),
            Err(_) => Err(DecodeError::UnexpectedEnd),
        }
    } else if tag == TAG_U64 {
        match r.read_u64() {
            Ok(v) => Ok(DecodedValue::Integer(IntegerValue::U64(v))),
            Err(_) => Err(DecodeError::UnexpectedEnd),
        }
    } else if tag == TAG_I64 {
        match r.read_i64() {
            Ok(v) => Ok(DecodedValue::Integer(IntegerValue::I64(v))),
            Err(_) => Err(DecodeError::UnexpectedEnd),
        }
    } else if tag == TAG_STRING {
        match r.read_string() {
            Ok(bytes) => Ok(DecodedValue::Bytes(bytes)),
            Err(_) => Err(DecodeError::UnexpectedEnd),
        }
    } else {
        Err(DecodeError::UnknownTag(tag))
    }
}

/// Decodes the value at the cursor and moves the cursor behind it.
pub fn decode_value(r: &mut Reader) -> (res: Result<DecodedValue, DecodeError>)
    requires
        old(r).wf(),
    ensures
        final(r).wf(),
        final(r).buf@ == old(r).buf@,
        match value_at(old(r).buf@, old(r).pos as int) {
            Ok((value, end)) => res is Ok && res->Ok_0.view() == value && final(r).pos == end
                && end > old(r).pos,
            Err(e) => res == Err::<DecodedValue, DecodeError>(e),
        },
    decreases old(r).buf@.len() - old(r).pos,
{
    let ghost s = r.buf@;
    let ghost start = r.pos as int;
    let tag: u8 = match r.read_u8() {
        Ok(t) => t,
        Err(_) => {
            return Err(DecodeError::UnexpectedEnd);
        },
    };
    if tag != TAG_TABLE {
        return decode_scalar(r, tag);
    }
    if r.remaining() < 8 {
        return Err(DecodeError::UnexpectedEnd);
    }
    let listed: u32 = match r.read_u32() {
        Ok(v) => v,
        Err(_) => {
            return Err(DecodeError::UnexpectedEnd);
        },
    };
    let keyed: u32 = match r.read_u32() {
        Ok(v) => v,
        Err(_) => {
            return Err(DecodeError::UnexpectedEnd);
        },
    };
    let n: u64 = listed as u64 + keyed as u64;
    let mut entries: Vec<TableEntry> = Vec::new();
    let mut i: u64 = 0;
    assert(after(entries_view(entries@), pairs_at(s, start + 9, n as nat)) =~= pairs_at(
        s,
        start + 9,
        n as nat,
    ));
    while i < n
        invariant
            r.wf(),
            r.buf@ == s,
            s == old(r).buf@,
            start == old(r).pos,
            i <= n,
            r.pos > start,
            value_at(s, start) == table_of(pairs_at(s, start + 9, n as nat)),
            pairs_at(s, start + 9, n as nat) == after(
                entries_view(entries@),
                pairs_at(s, r.pos as int, (n - i) as nat),
            ),
        decreases n - i,
    {
        let ghost here = r.pos as int;
        let ghost done = entries_view(entries@);
        let key = match decode_value(r) {
            Ok(k) => k,
            Err(e) => {
                assert(pairs_at(s, here, (n - i) as nat) == Err::<
                    (Seq<(Value, Value)>, int),
                    DecodeError,
                >(e));
                return Err(e);
            },
        };
        let value = match decode_value(r) {
            Ok(v) => v,
            Err(e) => {
                assert(pairs_at(s, here, (n - i) as nat) == Err::<
                    (Seq<(Value, Value)>, int),
                    DecodeError,
                >(e));
                return Err(e);
            },
        };
        entries.push(TableEntry { key, value });
        i = i + 1;
        proof {
            let pair = (key.view(), value.view());
            let rest = pairs_at(s, r.pos as int, (n - i) as nat);
            assert(pairs_at(s, here, (n - i + 1) as nat) == after(seq![pair], rest));
            assert(entries_view(entries@) =~= done + seq![pair]);
            match rest {
                Ok((more, end)) => {
                    assert((done + seq![pair]) + more =~= done + (seq![pair] + more));
                },
                Err(e) => {},
            }
        }
    }
    proof {
        assert(entries_view(entries@) + Seq::<(Value, Value)>::empty() =~= entries_view(entries@));
        assert(DecodedValue::Table(entries).view() == Value::Table(entries_view(entries@))) by {
            assert(DecodedValue::Table(entries).view()->Table_0 =~= entries_view(entries@));
        }
    }
    Ok(DecodedValue::Table(entries))
}

/// Decodes a whole stream: all of its values, or none.
pub fn load(buf: &[u8]) -> (res: Result<Vec<DecodedValue>, DecodeError>)
    ensures
        agrees(res, buf@),
{
    let mut r = Reader::new(buf);
    let count: u8 = match r.read_u8() {
        Ok(c) => c,
        Err(_) => {
            return Err(DecodeError::UnexpectedEnd);
        },
    };
    let ghost s = buf@;
    let mut values: Vec<DecodedValue> = Vec::new();
    let mut i: u8 = 0;
    assert(after(values_view(values@), values_at(s, 1, count as nat)) =~= values_at(
        s,
        1,
        count as nat,
    ));
    while i < count
        invariant
            r.wf(),
            r.buf@ == s,
            s == buf@,
            i <= count,
            stream(s) == values_of(values_at(s, 1, count as nat)),
            values_at(s, 1, count as nat) == after(
                values_view(values@),
                values_at(s, r.pos as int, (count - i) as nat),
            ),
        decreases count - i,
    {
        let ghost here = r.pos as int;
        let ghost done = values_view(values@);
        let value = match decode_value(&mut r) {
            Ok(v) => v,
            Err(e) => {
                assert(values_at(s, here, (count - i) as nat) == Err::<(Seq<Value>, int), DecodeError>(
                    e,
                ));
                return Err(e);
            },
        };
        values.push(value);
        i = i + 1;
        proof {
            let rest = values_at(s, r.pos as int, (count - i) as nat);
            assert(values_at(s, here, (count - i + 1) as nat) == after(seq![value.view()], rest));
            assert(values_view(values@) =~= done + seq![value.view()]);
            match rest {
                Ok((more, end)) => {
                    assert((done + seq![value.view()]) + more =~= done + (seq![value.view()]
                        + more));
                },
                Err(e) => {},
            }
        }
    }
    proof {
        assert(values_view(values@) + Seq::<Value>::empty() =~= values_view(values@));
    }
    Ok(values)
}

/// Decoding is a function of the bytes: two results for the same buffer
/// stand for the same values, tree by tree.
pub proof fn lemma_same_bytes_same_values(
    first: Result<Vec<DecodedValue>, DecodeError>,
    second: Result<Vec<DecodedValue>, DecodeError>,
    bytes: Seq<u8>,
)
    requires
        agrees(first, bytes),
        agrees(second, bytes),
    ensures
        first is Ok <==> second is Ok,
        first is Ok ==> values_view(first->Ok_0@) == values_view(second->Ok_0@),
        first is Err ==> first->Err_0 == second->Err_0,
{
}

/// A string whose length runs past the end of the buffer is no value: the
/// decoder reports the end of input there.
pub proof fn lemma_overlong_string_fails(s: Seq<u8>, pos: int)
    requires
        fits(s, pos, 5),
        s[pos] == TAG_STRING,
        pos + 5 + le_u32_at(s, pos + 1) > s.len(),
    ensures
        value_at(s, pos) == Err::<(Value, int), DecodeError>(DecodeError::UnexpectedEnd),
{
}

/// A value that decodes ends behind its start and within the buffer.
pub proof fn lemma_value_advances(s: Seq<u8>, pos: int)
    requires
        value_at(s, pos) is Ok,
    ensures
        pos < value_at(s, pos)->Ok_0.1 <= s.len(),
    decreases s.len() - pos, 0int,
{
    if s[pos] == TAG_TABLE {
        lemma_pairs_advance(s, pos + 9, table_len_at(s, pos + 1));
    }
}

/// Pairs that decode end at or behind their start and within the buffer.
pub proof fn lemma_pairs_advance(s: Seq<u8>, pos: int, n: nat)
    requires
        0 <= pos <= s.len(),
        pairs_at(s, pos, n) is Ok,
    ensures
        pos <= pairs_at(s, pos, n)->Ok_0.1 <= s.len(),
    decreases s.len() - pos, n + 1,
{
    if n > 0 {
        let mid = value_at(s, pos)->Ok_0.1;
        let next = value_at(s, mid)->Ok_0.1;
        lemma_pairs_advance(s, next, (n - 1) as nat);
    }
}

} // verus!
