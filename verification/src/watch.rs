//! The watched log file: its path split into directory and base name, and
//! the read offset that marks how far the file has been consumed.
//!
//! Paths are kept as byte strings, as the platform hands them over; the
//! offset only ever moves to a freshly measured position, back to zero on
//! rotation, and back to zero when the file is seen to have shrunk.

use vstd::prelude::*;

verus! {

/// The path separator.
pub const SLASH: u8 = 47;

/// Index just after the last separator in `s`, or 0 if there is none:
/// where the base name starts.
pub open spec fn split_idx(s: Seq<u8>) -> int
    decreases s.len(),
{
    if s.len() == 0 {
        0
    } else if s.last() == SLASH {
        s.len() as int
    } else {
        split_idx(s.drop_last())
    }
}

/// The base name of a path: everything after the last separator, or the
/// whole path if it has none.
pub open spec fn base_name_of(s: Seq<u8>) -> Seq<u8> {
    s.skip(split_idx(s))
}

/// The directory of a path: everything before the last separator, the
/// root if the last separator is the first byte, empty if there is none.
pub open spec fn dir_name_of(s: Seq<u8>) -> Seq<u8> {
    if split_idx(s) == 0 {
        Seq::empty()
    } else if split_idx(s) == 1 {
        seq![SLASH]
    } else {
        s.take(split_idx(s) - 1)
    }
}

/// The monitored file: its path, the split into directory and base name,
/// and the offset up to which its bytes have been consumed.
pub struct Watched {
    pub path: Vec<u8>,
    pub dir: Vec<u8>,
    pub file: Vec<u8>,
    pub pos: u64,
}

impl Watched {
    /// Splits `path` and starts with the whole file unread.
    pub fn new(path: Vec<u8>) -> (w: Watched)
        ensures
            w.path@ == path@,
            w.dir@ == dir_name_of(path@),
            w.file@ == base_name_of(path@),
            w.pos == 0,
    {
        let mut idx: usize = 0;
        let mut i: usize = 0;
        proof {
            assert(path@.take(0) =~= Seq::<u8>::empty());
        }
        while i < path.len()
            invariant
                0 <= idx <= i <= path.len(),
                idx == split_idx(path@.take(i as int)),
            decreases path.len() - i,
        {
            proof {
                assert(path@.take(i + 1).last() == path@[i as int]);
                assert(path@.take(i + 1).drop_last() =~= path@.take(i as int));
            }
            if path[i] == SLASH {
                idx = i + 1;
            }
            i = i + 1;
        }
        proof {
            assert(path@.take(path@.len() as int) =~= path@);
        }
        let file_slice = vstd::slice::slice_subrange(path.as_slice(), idx, path.len());
        let file = vstd::slice::slice_to_vec(file_slice);
        let dir: Vec<u8> = if idx == 0 {
            Vec::new()
        } else if idx == 1 {
            let mut d: Vec<u8> = Vec::new();
            d.push(SLASH);
            proof {
                assert(d@ =~= seq![SLASH]);
            }
            d
        } else {
            let dir_slice = vstd::slice::slice_subrange(path.as_slice(), 0, idx - 1);
            vstd::slice::slice_to_vec(dir_slice)
        };
        proof {
            assert(file@ =~= base_name_of(path@));
            assert(dir@ =~= dir_name_of(path@));
        }
        Watched { path, dir, file, pos: 0 }
    }

    /// Moves the offset to `n`, a freshly measured end of the consumed
    /// bytes.
    pub fn set_pos(&mut self, n: u64)
        ensures
            final(self).pos == n,
            final(self).path == old(self).path,
            final(self).dir == old(self).dir,
            final(self).file == old(self).file,
    {
        self.pos = n;
    }

    /// Forgets all progress: the file at this path is logically new, as
    /// after a rotation.
    pub fn reset(&mut self)
        ensures
            final(self).pos == 0,
            final(self).path == old(self).path,
            final(self).dir == old(self).dir,
            final(self).file == old(self).file,
    {
        self.pos = 0;
    }

    /// Reconciles the offset with a freshly measured file size: a file
    /// shorter than the offset was truncated or replaced, and is read from
    /// its start, never past its end.
    pub fn clamp_to_size(&mut self, size: u64)
        ensures
            final(self).pos == if size < old(self).pos {
                0u64
            } else {
                old(self).pos
            },
            final(self).pos <= size,
            final(self).path == old(self).path,
            final(self).dir == old(self).dir,
            final(self).file == old(self).file,
    {
        if size < self.pos {
            self.pos = 0;
        }
    }
}

} // verus!
