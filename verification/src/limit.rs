use vstd::prelude::*;
use crate::bytes::copy_range;
use crate::error::{corrupt, Corrupt, CorruptView, Error, ErrorView};

verus! {

/// The byte budget of one object's content. It stands between a consumer and
/// a byte source: it says how much may be asked of the source, and takes
/// account of what the source gave.
#[derive(Debug)]
pub struct LimitReader {
    pub limit: u64,
}

/// The smaller of a buffer's length and a budget.
pub open spec fn allowed(buf_len: nat, limit: nat) -> nat {
    if buf_len > limit {
        limit
    } else {
        buf_len
    }
}

impl LimitReader {
    /// A reader that lets `limit` bytes through.
    pub fn new(limit: u64) -> (r: LimitReader)
        ensures
            r.limit == limit,
    {
        LimitReader { limit }
    }

    /// The bytes still owed.
    pub fn remaining(&self) -> (r: u64)
        ensures
            r == self.limit,
    {
        self.limit
    }

    /// How many bytes to ask of the source for a buffer of `buf_len` bytes:
    /// never more than the budget. Zero means end of stream, and the source
    /// is left alone.
    pub fn request(&self, buf_len: usize) -> (n: usize)
        ensures
            n == allowed(buf_len as nat, self.limit as nat),
    {
        if buf_len as u64 > self.limit {
            self.limit as usize
        } else {
            buf_len
        }
    }

    /// Takes account of `n` bytes that the source produced. More than the
    /// budget is oversized content, and the budget stays as it was;
    /// otherwise the budget shrinks by `n`.
    pub fn record(&mut self, n: usize) -> (r: Result<usize, Error>)
        ensures
            n > old(self).limit ==> r is Err && r->Err_0@ == corrupt(
                CorruptView::OversizedContent,
            ) && final(self).limit == old(self).limit,
            n <= old(self).limit ==> r == Ok::<usize, Error>(n) && final(self).limit == old(
                self,
            ).limit - n,
    {
        if n as u64 > self.limit {
            return Err(Error::CorruptObject(Corrupt::OversizedContent));
        }
        self.limit = self.limit - n as u64;
        Ok(n)
    }

    /// One read from a source held in memory, of which `source[pos..]` is
    /// still unread, for a buffer of `buf_len` bytes. What comes back is the
    /// next bytes of the source: as many as the buffer takes, the budget
    /// allows and the source has. The budget shrinks by that many. An empty
    /// result is the end of the stream.
    pub fn read(&mut self, source: &[u8], pos: usize, buf_len: usize) -> (r: Vec<u8>)
        requires
            pos <= source@.len(),
        ensures
            r@.len() == allowed(
                allowed(buf_len as nat, old(self).limit as nat),
                (source@.len() - pos) as nat,
            ),
            r@ == source@.subrange(pos as int, pos + r@.len()),
            final(self).limit == old(self).limit - r@.len(),
    {
        let ask = self.request(buf_len);
        let left = source.len() - pos;
        let take = if ask > left {
            left
        } else {
            ask
        };
        let out = copy_range(source, pos, pos + take);
        self.limit = self.limit - take as u64;
        out
    }

    /// Called at the end of the source: bytes still owed are a size mismatch.
    pub fn finish(&self) -> (r: Result<(), Error>)
        ensures
            self.limit == 0 ==> r is Ok,
            self.limit != 0 ==> r is Err && r->Err_0@ == ErrorView::SizeMismatch,
    {
        if self.limit == 0 {
            Ok(())
        } else {
            Err(Error::SizeMismatch)
        }
    }
}

/// A reader never asks for more than its budget, and a source that gives what
/// was asked is never found oversized.
pub proof fn lemma_request_within_budget(buf_len: nat, limit: nat)
    ensures
        allowed(buf_len, limit) <= limit,
        allowed(buf_len, limit) <= buf_len,
        limit == 0 ==> allowed(buf_len, limit) == 0,
{
}

} // verus!
