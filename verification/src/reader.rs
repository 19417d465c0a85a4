//! An in-memory byte reader with seek semantics.
//!
//! The viewer can load its two input files from bytes held in memory instead
//! of from disk. This reader serves such a byte buffer through the usual
//! read/seek interface: `read` copies from the current position into a
//! caller's buffer, and `seek` moves the position, clamping it to the end of
//! the data where the target lies past it.

use vstd::prelude::*;

verus! {

/// A seek target: from the start of the data, relative to the current
/// position, or relative to the end of the data.
pub enum SeekFrom {
    Start(usize),
    Current(i64),
    End(i64),
}

/// A byte buffer together with a read position.
pub struct ByteReader {
    pub data: Vec<u8>,
    pub cursor: usize,
}

impl ByteReader {
    /// The position never lies past the end of the data.
    pub open spec fn wf(&self) -> bool {
        self.cursor <= self.data@.len()
    }

    /// A reader over `data`, positioned at its start.
    pub fn new(data: Vec<u8>) -> (r: ByteReader)
        ensures
            r.wf(),
            r.data@ == data@,
            r.cursor == 0,
    {
        ByteReader { data, cursor: 0 }
    }

    /// Copies bytes from the current position into the front of `buf`, as
    /// many as fit and as many as remain, advancing the position by that
    /// count and leaving the rest of `buf` unchanged.
    pub fn read(&mut self, buf: &mut Vec<u8>) -> (n: usize)
        requires
            old(self).wf(),
        ensures
            final(self).wf(),
            final(self).data@ == old(self).data@,
            n == if old(self).data@.len() - old(self).cursor <= old(buf)@.len() {
                old(self).data@.len() - old(self).cursor
            } else {
                old(buf)@.len() as int
            },
            final(self).cursor == old(self).cursor + n,
            final(buf)@.len() == old(buf)@.len(),
            forall|k: int|
                0 <= k < n ==> final(buf)@[k] == old(self).data@[old(self).cursor + k],
            forall|k: int| n <= k < old(buf)@.len() ==> final(buf)@[k] == old(buf)@[k],
    {
        let mut read: usize = 0;
        while self.cursor < self.data.len() && read < buf.len()
            invariant
                old(self).wf(),
                self.data@ == old(self).data@,
                self.cursor == old(self).cursor + read,
                self.cursor <= self.data@.len(),
                read <= buf@.len(),
                buf@.len() == old(buf)@.len(),
                forall|k: int|
                    0 <= k < read ==> buf@[k] == old(self).data@[old(self).cursor + k],
                forall|k: int| read <= k < buf@.len() ==> buf@[k] == old(buf)@[k],
            decreases self.data@.len() - self.cursor,
        {
            let v = self.data[self.cursor];
            buf.set(read, v);
            self.cursor = self.cursor + 1;
            read = read + 1;
        }
        read
    }

    /// Moves the read position. A target from the start or forward from the
    /// current position is clamped to the end of the data; a backward move
    /// must stay within it. Returns the new position.
    pub fn seek(&mut self, pos: SeekFrom) -> (newpos: usize)
        requires
            old(self).wf(),
            match pos {
                SeekFrom::Start(_) => true,
                SeekFrom::Current(d) => if d >= 0 {
                    old(self).cursor + d <= usize::MAX
                } else {
                    d > i64::MIN && -(d as int) <= old(self).cursor
                },
                SeekFrom::End(d) => d >= 0 || (d > i64::MIN && -(d as int)
                    <= old(self).data@.len()),
            },
        ensures
            final(self).wf(),
            final(self).data@ == old(self).data@,
            newpos == final(self).cursor,
            final(self).cursor == match pos {
                SeekFrom::Start(p) => if p <= old(self).data@.len() {
                    p as int
                } else {
                    old(self).data@.len() as int
                },
                SeekFrom::Current(d) => if d >= 0 {
                    if old(self).cursor + d <= old(self).data@.len() {
                        old(self).cursor + d
                    } else {
                        old(self).data@.len() as int
                    }
                } else {
                    old(self).cursor + d
                },
                SeekFrom::End(d) => if d >= 0 {
                    old(self).data@.len() as int
                } else {
                    old(self).data@.len() + d
                },
            },
    {
        match pos {
            SeekFrom::Start(p) => {
                self.cursor = p;
                if self.cursor > self.data.len() {
                    self.cursor = self.data.len();
                }
            },
            SeekFrom::Current(d) => {
                if d >= 0 {
                    self.cursor = self.cursor + (d as usize);
                    if self.cursor > self.data.len() {
                        self.cursor = self.data.len();
                    }
                } else {
                    self.cursor = self.cursor - ((-d) as usize);
                }
            },
            SeekFrom::End(d) => {
                if d >= 0 {
                    self.cursor = self.data.len();
                } else {
                    self.cursor = self.data.len() - ((-d) as usize);
                }
            },
        }
        self.cursor
    }
}

} // verus!
