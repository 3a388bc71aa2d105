use vstd::prelude::*;
use crate::bytes::{copy_range, find_byte, find_not, find_nulnul, index_not, index_of, index_of_nulnul};
use crate::error::AppError;

verus! {

/// The argument count at the head of a packed argument buffer: its first
/// four bytes, least significant first.
pub open spec fn arg_count(d: Seq<u8>) -> nat
    recommends
        d.len() >= 4,
{
    d[0] as nat + 256 * d[1] as nat + 65536 * d[2] as nat + 16777216 * d[3] as nat
}

/// Just past the NUL that ends the string starting at `i`, if there is one.
pub open spec fn string_end(d: Seq<u8>, i: int) -> Option<int> {
    let k = index_of(d.skip(i), 0) as int;
    if i + k < d.len() {
        Some(i + k + 1)
    } else {
        None
    }
}

/// The first non-NUL position at or after `i`, if there is one.
pub open spec fn next_start(d: Seq<u8>, i: int) -> Option<int> {
    let k = index_not(d.skip(i), 0) as int;
    if i + k < d.len() {
        Some(i + k)
    } else {
        None
    }
}

/// Where the walk goes on after the string at `i` and the NULs that pad it.
pub open spec fn skip_string(d: Seq<u8>, i: int) -> Option<int> {
    match string_end(d, i) {
        Some(e) => next_start(d, e),
        None => None,
    }
}

/// Where the walk stands after `n` strings from `i`.
pub open spec fn skip_strings(d: Seq<u8>, i: int, n: nat) -> Option<int>
    decreases n,
{
    if n == 0 {
        Some(i)
    } else {
        match skip_string(d, i) {
            Some(j) => skip_strings(d, j, (n - 1) as nat),
            None => None,
        }
    }
}

/// The environment segment at `i`: up to and with the first NUL of the
/// first two NULs in a row, if there are two in a row.
pub open spec fn segment_at(d: Seq<u8>, i: int) -> Option<Seq<u8>> {
    let k = index_of_nulnul(d.skip(i)) as int;
    if i + k + 1 < d.len() {
        Some(d.subrange(i, i + k + 1))
    } else {
        None
    }
}

/// The environment block inside a packed argument buffer: past the count,
/// the executable path and the arguments, each with its NUL padding.
pub open spec fn procargs_environment(d: Seq<u8>) -> Option<Seq<u8>> {
    if d.len() < 4 {
        None
    } else {
        match skip_strings(d, 4, arg_count(d) + 1) {
            Some(c) => segment_at(d, c),
            None => None,
        }
    }
}

/// A cursor over a packed argument buffer.
struct BufferWalker {
    data: Vec<u8>,
    cursor: usize,
}

impl BufferWalker {
    /// Takes the NUL-terminated string at the cursor, and moves on to the
    /// next non-NUL byte.
    fn next_string_with_nul(&mut self) -> (r: Option<Vec<u8>>)
        requires
            old(self).cursor <= old(self).data@.len(),
        ensures
            final(self).data@ == old(self).data@,
            final(self).cursor <= final(self).data@.len(),
            match r {
                Some(s) => skip_string(old(self).data@, old(self).cursor as int) == Some(
                    final(self).cursor as int,
                ) && string_end(old(self).data@, old(self).cursor as int) == Some(
                    old(self).cursor + s@.len(),
                ) && s@ == old(self).data@.subrange(
                    old(self).cursor as int,
                    old(self).cursor + s@.len(),
                ),
                None => skip_string(old(self).data@, old(self).cursor as int) is None,
            },
    {
        let start = self.cursor;
        let nul = find_byte(self.data.as_slice(), start, 0);
        if nul == self.data.len() {
            return None;
        }
        let end = nul + 1;
        let next = find_not(self.data.as_slice(), end, 0);
        if next == self.data.len() {
            return None;
        }
        self.cursor = next;
        Some(copy_range(self.data.as_slice(), start, end))
    }

    /// Takes the environment segment at the cursor, up to and with the first
    /// NUL of two in a row, and moves past both.
    fn next_string_with_nulnul(&mut self) -> (r: Option<Vec<u8>>)
        requires
            old(self).cursor <= old(self).data@.len(),
        ensures
            final(self).data@ == old(self).data@,
            final(self).cursor <= final(self).data@.len(),
            match r {
                Some(s) => segment_at(old(self).data@, old(self).cursor as int) == Some(s@),
                None => segment_at(old(self).data@, old(self).cursor as int) is None,
            },
    {
        let start = self.cursor;
        let at = find_nulnul(self.data.as_slice(), start);
        if at == self.data.len() {
            return None;
        }
        proof {
            crate::bytes::lemma_index_of_nulnul_bound(self.data@.skip(start as int));
        }
        self.cursor = at + 2;
        Some(copy_range(self.data.as_slice(), start, at + 1))
    }
}

/// Reads the argument count at the head of a packed argument buffer.
fn read_arg_count(d: &[u8]) -> (r: u32)
    requires
        d@.len() >= 4,
    ensures
        r == arg_count(d@),
{
    let b0 = d[0] as u32;
    let b1 = d[1] as u32;
    let b2 = d[2] as u32;
    let b3 = d[3] as u32;
    assert(b0 + 256 * b1 + 65536 * b2 + 16777216 * b3 <= 0xffff_ffff) by (nonlinear_arith)
        requires
            b0 <= 255,
            b1 <= 255,
            b2 <= 255,
            b3 <= 255,
    ;
    b0 + 256 * b1 + 65536 * b2 + 16777216 * b3
}

/// Finds the environment block in the packed buffer that the kernel gives
/// for a process's arguments: a four-byte argument count, the executable
/// path, the arguments, then the environment, strings each ended by NUL and
/// padded with NULs, the environment ended by two NULs.
///
/// A buffer that ends before any of these is malformed.
pub fn env_block_from_procargs(buffer: Vec<u8>) -> (r: Result<Vec<u8>, AppError>)
    ensures
        match procargs_environment(buffer@) {
            Some(env) => r matches Ok(out) && out@ == env,
            None => r == Err::<Vec<u8>, AppError>(AppError::MalformedData),
        },
{
    if buffer.len() < 4 {
        return Err(AppError::MalformedData);
    }
    let argc = read_arg_count(buffer.as_slice());
    let ghost d = buffer@;
    let mut walker = BufferWalker { data: buffer, cursor: 4 };
    if walker.next_string_with_nul().is_none() {
        assert(skip_strings(d, 4, arg_count(d) + 1) is None);
        return Err(AppError::MalformedData);
    }
    assert(skip_strings(d, 4, arg_count(d) + 1) == skip_strings(
        d,
        walker.cursor as int,
        arg_count(d),
    ));
    let mut n: u32 = 0;
    while n < argc
        invariant
            walker.data@ == d,
            buffer@ == d,
            walker.cursor <= d.len(),
            n <= argc,
            d.len() >= 4,
            argc == arg_count(d),
            skip_strings(d, 4, arg_count(d) + 1) == skip_strings(
                d,
                walker.cursor as int,
                (argc - n) as nat,
            ),
        decreases argc - n,
    {
        let ghost at = walker.cursor as int;
        if walker.next_string_with_nul().is_none() {
            assert(skip_strings(d, at, (argc - n) as nat) is None);
            assert(procargs_environment(d) is None);
            return Err(AppError::MalformedData);
        }
        n += 1;
    }
    match walker.next_string_with_nulnul() {
        Some(segment) => Ok(segment),
        None => Err(AppError::MalformedData),
    }
}

} // verus!
