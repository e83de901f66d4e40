//! Script and save files as they come from disk.

use vstd::prelude::*;

verus! {

/// The bytes start with a byte-order mark: the three bytes `EF BB BF`.
pub open spec fn marked(file: Seq<u8>) -> bool {
    file.len() >= 3 && file[0] == 0xef && file[1] == 0xbb && file[2] == 0xbf
}

/// The content of a file: its bytes, without the byte-order mark where it
/// starts with one.
pub open spec fn content(file: Seq<u8>) -> Seq<u8> {
    if marked(file) {
        file.subrange(3, file.len() as int)
    } else {
        file
    }
}

/// Copies a file's bytes, leaving out a leading byte-order mark.
pub fn strip_byte_order_mark(file: &[u8]) -> (out: Vec<u8>)
    ensures
        out@ == content(file@),
{
    let start: usize = if file.len() >= 3 && file[0] == 0xef && file[1] == 0xbb && file[2] == 0xbf {
        3
    } else {
        0
    };
    let mut out: Vec<u8> = Vec::new();
    let mut i: usize = start;
    while i < file.len()
        invariant
            start <= i <= file@.len(),
            out@ == file@.subrange(start as int, i as int),
        decreases file@.len() - i,
    {
        out.push(file[i]);
        i = i + 1;
        assert(out@ =~= file@.subrange(start as int, i as int));
    }
    assert(file@.subrange(0, file@.len() as int) =~= file@);
    out
}

} // verus!
