//! Cutting a stream short: what was decoded before the cut stays as it
//! was, and a cut inside a value is reported as the end of input.

use crate::luabins::{
    lemma_pairs_advance, lemma_value_advances, pairs_at, stream, table_len_at, value_at, values_at,
    DecodeError, Value, TAG_STRING, TAG_TABLE,
};
use crate::reader::{fits, le_u32_at};
use vstd::prelude::*;

verus! {

/// The first `k` bytes of `s`.
pub open spec fn cut(s: Seq<u8>, k: int) -> Seq<u8> {
    s.subrange(0, k)
}

/// A value that ends at or before the cut decodes from the cut buffer as it
/// does from the whole.
pub proof fn lemma_value_stable(s: Seq<u8>, pos: int, k: int)
    requires
        0 <= k <= s.len(),
        value_at(s, pos) is Ok,
        value_at(s, pos)->Ok_0.1 <= k,
    ensures
        value_at(cut(s, k), pos) == value_at(s, pos),
    decreases s.len() - pos, 0int,
{
    let t = cut(s, k);
    lemma_value_advances(s, pos);
    assert(t[pos] == s[pos]);
    if s[pos] == TAG_TABLE {
        let n = table_len_at(s, pos + 1);
        lemma_pairs_advance(s, pos + 9, n);
        assert(table_len_at(t, pos + 1) == n);
        lemma_pairs_stable(s, pos + 9, n, k);
    } else if s[pos] == TAG_STRING {
        let end = value_at(s, pos)->Ok_0.1;
        assert(le_u32_at(t, pos + 1) == le_u32_at(s, pos + 1));
        assert(t.subrange(pos + 5, end) =~= s.subrange(pos + 5, end));
    } else {
    }
}

/// Pairs that end at or before the cut decode from the cut buffer as they
/// do from the whole.
pub proof fn lemma_pairs_stable(s: Seq<u8>, pos: int, n: nat, k: int)
    requires
        0 <= pos <= s.len(),
        0 <= k <= s.len(),
        pairs_at(s, pos, n) is Ok,
        pairs_at(s, pos, n)->Ok_0.1 <= k,
    ensures
        pairs_at(cut(s, k), pos, n) == pairs_at(s, pos, n),
    decreases s.len() - pos, n + 1,
{
    if n > 0 {
        let mid = value_at(s, pos)->Ok_0.1;
        let next = value_at(s, mid)->Ok_0.1;
        lemma_pairs_advance(s, next, (n - 1) as nat);
        lemma_value_stable(s, pos, k);
        lemma_value_stable(s, mid, k);
        lemma_pairs_stable(s, next, (n - 1) as nat, k);
    }
}

/// A buffer cut inside a value does not decode there: the end of input is
/// reported, whatever the value was.
pub proof fn lemma_truncated_value_fails(s: Seq<u8>, pos: int, k: int)
    requires
        pos <= k <= s.len(),
        value_at(s, pos) is Ok,
        k < value_at(s, pos)->Ok_0.1,
    ensures
        value_at(cut(s, k), pos) == Err::<(Value, int), DecodeError>(DecodeError::UnexpectedEnd),
    decreases s.len() - pos, 0int,
{
    let t = cut(s, k);
    if k > pos {
        assert(t[pos] == s[pos]);
        if s[pos] == TAG_TABLE {
            if k >= pos + 9 {
                let n = table_len_at(s, pos + 1);
                assert(table_len_at(t, pos + 1) == n);
                lemma_truncated_pairs_fail(s, pos + 9, n, k);
            }
        } else if s[pos] == TAG_STRING {
            if k >= pos + 5 {
                assert(le_u32_at(t, pos + 1) == le_u32_at(s, pos + 1));
            }
        } else {
        }
    }
}

/// A buffer cut inside a run of pairs does not decode there.
pub proof fn lemma_truncated_pairs_fail(s: Seq<u8>, pos: int, n: nat, k: int)
    requires
        0 <= pos <= k <= s.len(),
        pairs_at(s, pos, n) is Ok,
        k < pairs_at(s, pos, n)->Ok_0.1,
    ensures
        pairs_at(cut(s, k), pos, n) == Err::<(Seq<(Value, Value)>, int), DecodeError>(
            DecodeError::UnexpectedEnd,
        ),
    decreases s.len() - pos, n + 1,
{
    if n > 0 {
        let mid = value_at(s, pos)->Ok_0.1;
        let next = value_at(s, mid)->Ok_0.1;
        if k < mid {
            lemma_truncated_value_fails(s, pos, k);
        } else {
            lemma_value_stable(s, pos, k);
            if k < next {
                lemma_truncated_value_fails(s, mid, k);
            } else {
                lemma_value_stable(s, mid, k);
                lemma_truncated_pairs_fail(s, next, (n - 1) as nat, k);
            }
        }
    }
}

/// A buffer cut inside a run of values does not decode there.
pub proof fn lemma_truncated_values_fail(s: Seq<u8>, pos: int, n: nat, k: int)
    requires
        0 <= pos <= k <= s.len(),
        values_at(s, pos, n) is Ok,
        k < values_at(s, pos, n)->Ok_0.1,
    ensures
        values_at(cut(s, k), pos, n) == Err::<(Seq<Value>, int), DecodeError>(
            DecodeError::UnexpectedEnd,
        ),
    decreases n,
{
    if n > 0 {
        let next = value_at(s, pos)->Ok_0.1;
        lemma_value_advances(s, pos);
        if k < next {
            lemma_truncated_value_fails(s, pos, k);
        } else {
            lemma_value_stable(s, pos, k);
            lemma_truncated_values_fail(s, next, (n - 1) as nat, k);
        }
    }
}

/// A stream that decodes, cut anywhere before the end of its last value,
/// fails with the end of input and gives no value at all.
pub proof fn lemma_truncated_stream_fails(s: Seq<u8>, k: int)
    requires
        stream(s) is Ok,
        0 <= k <= s.len(),
        k < values_at(s, 1, s[0] as nat)->Ok_0.1,
    ensures
        stream(cut(s, k)) == Err::<Seq<Value>, DecodeError>(DecodeError::UnexpectedEnd),
{
    if k > 0 {
        assert(cut(s, k)[0] == s[0]);
        lemma_truncated_values_fail(s, 1, s[0] as nat, k);
    }
}

} // verus!
