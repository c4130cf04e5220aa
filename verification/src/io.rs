//! Position arithmetic of a cursor over a block of bytes.
use vstd::prelude::*;

verus! {

/// Where a seek is counted from.
#[derive(Debug, Clone, Copy, PartialEq, Eq, Structural)]
pub enum SeekTarget {
    Start(u64),
    End(i64),
    Current(i64),
}

/// `x` limited to the range of `u64`.
pub open spec fn clamp_u64(x: int) -> u64 {
    if x < 0 {
        0
    } else if x > u64::MAX {
        u64::MAX
    } else {
        x as u64
    }
}

/// The position after a seek: it may lie past the end, never before the start.
pub open spec fn seek_position(len: u64, pos: u64, target: SeekTarget) -> u64 {
    match target {
        SeekTarget::Start(p) => p,
        SeekTarget::End(delta) => clamp_u64(len + delta),
        SeekTarget::Current(delta) => clamp_u64(pos + delta),
    }
}

fn shifted(base: u64, delta: i64) -> (r: u64)
    ensures
        r == clamp_u64(base + delta),
{
    let moved: i128 = base as i128 + delta as i128;
    if moved < 0 {
        0
    } else if moved > 18_446_744_073_709_551_615i128 {
        u64::MAX
    } else {
        moved as u64
    }
}

/// The position after a seek.
pub fn seek_to(len: u64, pos: u64, target: SeekTarget) -> (r: u64)
    ensures
        r == seek_position(len, pos, target),
{
    match target {
        SeekTarget::Start(p) => p,
        SeekTarget::End(delta) => shifted(len, delta),
        SeekTarget::Current(delta) => shifted(pos, delta),
    }
}

/// How many bytes a read gives: what is left after the position, at most the size of
/// the buffer; nothing at or past the end.
pub open spec fn read_len(len: nat, pos: u64, buf_len: nat) -> nat {
    if pos >= len {
        0
    } else if len - pos < buf_len {
        (len - pos) as nat
    } else {
        buf_len
    }
}

/// Copies bytes from a position into a buffer, and returns how many.
pub fn read_at(data: &[u8], pos: u64, buf: &mut [u8]) -> (r: usize)
    ensures
        r == read_len(data@.len(), pos, old(buf)@.len()),
        final(buf)@.len() == old(buf)@.len(),
        forall|i: int| 0 <= i < r ==> #[trigger] final(buf)@[i] == data@[pos + i],
        forall|i: int| r <= i < final(buf)@.len() ==> #[trigger] final(buf)@[i] == old(buf)@[i],
{
    if pos >= data.len() as u64 {
        return 0;
    }
    let len: usize = data.len();
    let start: usize = pos as usize;
    let remain: usize = len - start;
    let n: usize = if remain < buf.len() {
        remain
    } else {
        buf.len()
    };
    let mut i: usize = 0;
    while i < n
        invariant
            i <= n <= buf@.len(),
            buf@.len() == old(buf)@.len(),
            start == pos,
            len == data@.len(),
            start + n <= len,
            forall|j: int| 0 <= j < i ==> #[trigger] buf@[j] == data@[start + j],
            forall|j: int| i <= j < buf@.len() ==> #[trigger] buf@[j] == old(buf)@[j],
        decreases n - i,
    {
        buf[i] = data[start + i];
        i = i + 1;
    }
    n
}

/// Reads get to the end and no further: one before the end gives at least a byte to a
/// buffer that has room, one at or past the end gives nothing.
pub proof fn law_reads_reach_the_end(len: nat, pos: u64, buf_len: nat)
    ensures
        ({
            let n = read_len(len, pos, buf_len);
            &&& n <= buf_len
            &&& pos < len ==> pos + n <= len
            &&& pos < len && buf_len > 0 ==> n > 0
            &&& pos >= len ==> n == 0
        }),
{
}

/// A read fills the buffer, or comes to the end.
pub proof fn law_reads_fill_or_end(len: nat, pos: u64, buf_len: nat)
    requires
        pos < len,
    ensures
        read_len(len, pos, buf_len) == buf_len || pos + read_len(len, pos, buf_len) == len,
{
}

/// A seek goes to where it says, counted from the start, from the end or from here; it stops
/// at the start.
pub proof fn law_seek_goes_there(len: u64, pos: u64, start: u64, delta: i64)
    ensures
        seek_position(len, pos, SeekTarget::Start(start)) == start,
        0 <= len + delta <= u64::MAX ==> seek_position(len, pos, SeekTarget::End(delta)) == len
            + delta,
        0 <= pos + delta <= u64::MAX ==> seek_position(len, pos, SeekTarget::Current(delta)) == pos
            + delta,
        len + delta < 0 ==> seek_position(len, pos, SeekTarget::End(delta)) == 0,
        pos + delta < 0 ==> seek_position(len, pos, SeekTarget::Current(delta)) == 0,
{
}

} // verus!
