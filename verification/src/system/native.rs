//! The kernel's process-list buffer: a chain of variable-size entries, each
//! starting with the byte offset of the next (0 on the last), and the
//! conversion of kernel timestamps.

use vstd::prelude::*;

verus! {

/// 100 ns intervals between 1601-01-01 (FILETIME epoch) and 1970-01-01.
pub const FILETIME_UNIX_EPOCH: u64 = 116444736000000000;

/// Seconds since the Unix epoch of a FILETIME (0 before 1970).
pub open spec fn spec_filetime_to_unix(filetime: u64) -> nat {
    if filetime >= FILETIME_UNIX_EPOCH {
        ((filetime - FILETIME_UNIX_EPOCH) / 10_000_000) as nat
    } else {
        0
    }
}

pub fn filetime_to_unix(filetime: u64) -> (r: u64)
    ensures
        r as nat == spec_filetime_to_unix(filetime),
{
    filetime.saturating_sub(FILETIME_UNIX_EPOCH) / 10_000_000
}

/// The little-endian `u32` at `offset` of `buffer`.
pub open spec fn u32_at(buffer: Seq<u8>, offset: int) -> nat {
    buffer[offset] as nat + buffer[offset + 1] as nat * 0x100 + buffer[offset + 2] as nat * 0x10000
        + buffer[offset + 3] as nat * 0x1000000
}

/// The offsets of the entries reached from `offset`, following the chain
/// until an entry says it is the last, or the next entry would not leave
/// room for its header.
pub open spec fn entry_chain(buffer: Seq<u8>, offset: nat) -> Seq<nat>
    decreases buffer.len() - offset,
{
    if offset + 4 > buffer.len() {
        Seq::empty()
    } else {
        let next = u32_at(buffer, offset as int);
        if next == 0 || offset + next + 4 > buffer.len() {
            seq![offset]
        } else {
            seq![offset] + entry_chain(buffer, offset + next)
        }
    }
}

/// Helper to access the process list
pub struct SystemProcessList<'a> {
    pub buffer: &'a [u8],
}

/// Walks the entries of a process list.
pub struct SystemProcessIterator<'a> {
    buffer: &'a [u8],
    offset: usize,
    finished: bool,
}

impl<'a> SystemProcessList<'a> {
    pub fn new(buffer: &'a [u8]) -> (r: SystemProcessList<'a>)
        ensures
            r.buffer@ == buffer@,
    {
        SystemProcessList { buffer }
    }

    /// The entries from the start of the buffer.
    pub fn iter(&self) -> (r: SystemProcessIterator<'a>)
        ensures
            r.remaining() == entry_chain(self.buffer@, 0),
    {
        SystemProcessIterator { buffer: self.buffer, offset: 0, finished: false }
    }
}

impl<'a> SystemProcessIterator<'a> {
    /// The offsets still to come.
    pub closed spec fn remaining(&self) -> Seq<nat> {
        if self.finished {
            Seq::empty()
        } else {
            entry_chain(self.buffer@, self.offset as nat)
        }
    }

    /// The offset of the next entry, or `None` past the last one.
    pub fn next(&mut self) -> (r: Option<usize>)
        ensures
            old(self).remaining().len() == 0 ==> r is None && final(self).remaining().len() == 0,
            old(self).remaining().len() > 0 ==> r == Some(old(self).remaining()[0] as usize)
                && final(self).remaining() == old(self).remaining().drop_first(),
    {
        if self.finished {
            return None;
        }
        if self.buffer.len() < 4 || self.offset > self.buffer.len() - 4 {
            return None;
        }
        let o = self.offset;
        let next = self.buffer[o] as u32 + (self.buffer[o + 1] as u32) * 0x100
            + (self.buffer[o + 2] as u32) * 0x10000 + (self.buffer[o + 3] as u32) * 0x1000000;
        assert(next == u32_at(self.buffer@, o as int));
        if next == 0 {
            self.finished = true;
        } else if next as usize > usize::MAX - o {
            self.finished = true;
            proof {
                assert(entry_chain(self.buffer@, (o + next) as nat) == Seq::<nat>::empty());
                assert(old(self).remaining() =~= seq![o as nat]);
            }
        } else {
            self.offset = o + next as usize;
            proof {
                if self.offset as nat + 4 > self.buffer@.len() {
                    assert(entry_chain(self.buffer@, self.offset as nat) == Seq::<nat>::empty());
                    assert(old(self).remaining() =~= seq![o as nat] + entry_chain(self.buffer@, self.offset as nat));
                } else {
                    assert(old(self).remaining() =~= seq![o as nat] + entry_chain(self.buffer@, self.offset as nat));
                }
            }
        }
        assert(old(self).remaining().drop_first() =~= self.remaining());
        Some(o)
    }
}

/// Every entry of the chain lies in the buffer with room for its header,
/// and the entries come in increasing order.
pub proof fn entry_chain_in_bounds(buffer: Seq<u8>, offset: nat)
    ensures
        forall|i: int| 0 <= i < entry_chain(buffer, offset).len() ==> offset <= #[trigger] entry_chain(buffer, offset)[i]
            && entry_chain(buffer, offset)[i] + 4 <= buffer.len(),
        forall|i: int, j: int| 0 <= i < j < entry_chain(buffer, offset).len() ==> entry_chain(buffer, offset)[i]
            < entry_chain(buffer, offset)[j],
    decreases buffer.len() - offset,
{
    if offset + 4 <= buffer.len() {
        let next = u32_at(buffer, offset as int);
        if next != 0 && offset + next + 4 <= buffer.len() {
            entry_chain_in_bounds(buffer, offset + next);
            let rest = entry_chain(buffer, offset + next);
            let all = entry_chain(buffer, offset);
            assert(all == seq![offset] + rest);
            assert forall|i: int| 0 <= i < all.len() implies offset <= #[trigger] all[i] && all[i] + 4 <= buffer.len() by {
                if i > 0 {
                    assert(all[i] == rest[i - 1]);
                }
            }
            assert forall|i: int, j: int| 0 <= i < j < all.len() implies all[i] < all[j] by {
                assert(all[j] == rest[j - 1]);
                if i > 0 {
                    assert(all[i] == rest[i - 1]);
                }
            }
        }
    }
}

} // verus!
