//! Byte-by-byte listings of output, for debugging: the application logs
//! the rows that these functions compute.
use vstd::prelude::*;

verus! {

/// The byte at the index, or zero past the end.
pub open spec fn byte_or_zero(s: Seq<u8>, i: int) -> u8 {
    if 0 <= i < s.len() {
        s[i]
    } else {
        0u8
    }
}

/// The bytes, each with its index.
pub fn print_bytewise(bytes: &[u8]) -> (r: Vec<(usize, u8)>)
    ensures
        r@.len() == bytes@.len(),
        forall|i: int| 0 <= i < r@.len() ==> #[trigger] r@[i] == (i as usize, bytes@[i]),
{
    let mut rows: Vec<(usize, u8)> = Vec::new();
    let mut i: usize = 0;
    while i < bytes.len()
        invariant
            i <= bytes@.len(),
            rows@.len() == i,
            forall|j: int| 0 <= j < i ==> #[trigger] rows@[j] == (j as usize, bytes@[j]),
        decreases bytes@.len() - i,
    {
        rows.push((i, bytes[i]));
        i = i + 1;
    }
    rows
}

/// The bytes of both, side by side with their index, for as many rows as the
/// longer has bytes; the shorter is padded with zero bytes.
pub fn compare_bytewise(s1: &[u8], s2: &[u8]) -> (r: Vec<(usize, u8, u8)>)
    ensures
        r@.len() == if s1@.len() >= s2@.len() {
            s1@.len()
        } else {
            s2@.len()
        },
        forall|i: int|
            0 <= i < r@.len() ==> #[trigger] r@[i] == (i as usize, byte_or_zero(s1@, i), byte_or_zero(
                s2@,
                i,
            )),
{
    let n = if s1.len() >= s2.len() {
        s1.len()
    } else {
        s2.len()
    };
    let mut rows: Vec<(usize, u8, u8)> = Vec::new();
    let mut i: usize = 0;
    while i < n
        invariant
            i <= n,
            n == if s1@.len() >= s2@.len() {
                s1@.len()
            } else {
                s2@.len()
            },
            rows@.len() == i,
            forall|j: int|
                0 <= j < i ==> #[trigger] rows@[j] == (j as usize, byte_or_zero(s1@, j), byte_or_zero(
                    s2@,
                    j,
                )),
        decreases n - i,
    {
        let v1 = if i < s1.len() {
            s1[i]
        } else {
            0u8
        };
        let v2 = if i < s2.len() {
            s2[i]
        } else {
            0u8
        };
        rows.push((i, v1, v2));
        i = i + 1;
    }
    rows
}

} // verus!
