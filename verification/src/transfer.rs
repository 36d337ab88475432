//! Transfers of whole buffers, out of calls that may each move only a part.
//!
//! A transfer hands out one request after the other; the caller performs each
//! and feeds back the count that the system returned.

use vstd::prelude::*;

use crate::error::HazmatError;
use crate::io::{count_meaning, Direction, IoDevice, ZERO_WRITE_BYTES};
use crate::utils::splice;

verus! {

/// One call to perform.
#[derive(Clone, Copy, Debug, PartialEq, Eq, Structural)]
pub struct Request {
    /// Absolute offset of the call, or the descriptor's position.
    pub offset: Option<i64>,
    /// Index in the buffer of the first byte to move.
    pub start: usize,
    /// Number of bytes to move at most.
    pub len: usize,
}

/// A buffer on its way to or from the device.
#[derive(Clone, Copy, Debug, PartialEq, Eq, Structural)]
pub struct Transfer {
    /// Which way the bytes move.
    pub direction: Direction,
    /// Absolute offset of the buffer's first byte, or the descriptor's
    /// position.
    pub offset: Option<i64>,
    /// Length of the buffer.
    pub len: usize,
    /// Bytes moved so far.
    pub done: usize,
}

impl Transfer {
    /// No more bytes are moved than the buffer holds.
    pub open spec fn wf(self) -> bool {
        self.done <= self.len
    }

    /// The next call, `None` when all bytes are moved, or why there is none.
    pub open spec fn next(self) -> Result<Option<Request>, HazmatError> {
        if self.done == self.len {
            Ok(None)
        } else {
            match self.offset {
                None => Ok(
                    Some(
                        Request {
                            offset: None,
                            start: self.done,
                            len: (self.len - self.done) as usize,
                        },
                    ),
                ),
                Some(offset) => if self.done > i64::MAX {
                    Err(HazmatError::CountOutOfRange)
                } else if offset + self.done > i64::MAX {
                    Err(
                        match self.direction {
                            Direction::Read => HazmatError::ReadOffsetOverflow,
                            Direction::Write => HazmatError::WriteOffsetOverflow,
                        },
                    )
                } else {
                    Ok(
                        Some(
                            Request {
                                offset: Some((offset + self.done) as i64),
                                start: self.done,
                                len: (self.len - self.done) as usize,
                            },
                        ),
                    )
                },
            }
        }
    }

    /// The transfer after a call moved `n` bytes.
    pub open spec fn moved(self, n: int) -> Transfer {
        Transfer { done: (self.done + n) as usize, ..self }
    }

    /// The transfer after calls that moved `counts` bytes each.
    pub open spec fn run(self, counts: Seq<usize>) -> Transfer
        decreases counts.len(),
    {
        if counts.len() == 0 {
            self
        } else {
            self.run(counts.drop_last()).moved(counts.last() as int)
        }
    }

    /// Each of the calls that moved `counts` bytes was asked for, and moved
    /// some bytes but no more than were left.
    pub open spec fn can_run(self, counts: Seq<usize>) -> bool
        decreases counts.len(),
    {
        counts.len() == 0 || {
            let before = self.run(counts.drop_last());
            &&& self.can_run(counts.drop_last())
            &&& before.next() matches Ok(Some(request)) && 1 <= counts.last() <= request.len
        }
    }

    /// The next call to perform, or `None` when all bytes are moved.
    pub fn request(&self) -> (result: Result<Option<Request>, HazmatError>)
        requires
            self.wf(),
        ensures
            result == self.next(),
    {
        if self.done == self.len {
            return Ok(None);
        }
        match self.offset {
            None => Ok(
                Some(Request { offset: None, start: self.done, len: self.len - self.done }),
            ),
            Some(offset) => {
                if self.done as u128 > i64::MAX as u128 {
                    return Err(HazmatError::CountOutOfRange);
                }
                match offset.checked_add(self.done as i64) {
                    Some(at) => Ok(
                        Some(
                            Request {
                                offset: Some(at),
                                start: self.done,
                                len: self.len - self.done,
                            },
                        ),
                    ),
                    None => match self.direction {
                        Direction::Read => Err(HazmatError::ReadOffsetOverflow),
                        Direction::Write => Err(HazmatError::WriteOffsetOverflow),
                    },
                }
            },
        }
    }

    /// Takes note of what the call that `request` asked for returned.
    pub fn complete(&mut self, device: &IoDevice, res: isize) -> (result: Result<(), HazmatError>)
        requires
            old(self).wf(),
            old(self).next() matches Ok(Some(request)) && res <= request.len,
        ensures
            final(self).wf(),
            ({
                let at = old(self).next()->Ok_0->Some_0.offset;
                match count_meaning(old(self).direction, at, res) {
                    Ok(n) => if n < 0 {
                        result == Err::<(), HazmatError>(HazmatError::CountOutOfRange) && *final(self) == *old(
                            self,
                        )
                    } else {
                        result == Ok::<(), HazmatError>(()) && *final(self) == old(self).moved(n as int)
                    },
                    Err(e) => result == Err::<(), HazmatError>(e) && *final(self) == *old(self),
                }
            }),
    {
        let count: Result<isize, HazmatError> = match (self.direction, self.offset) {
            (Direction::Read, None) => device.read(res),
            (Direction::Write, None) => device.write(res),
            (Direction::Read, Some(offset)) => device.read_at(offset + self.done as i64, res),
            (Direction::Write, Some(offset)) => device.write_at(offset + self.done as i64, res),
        };
        match count {
            Ok(n) => {
                if n < 0 {
                    Err(HazmatError::CountOutOfRange)
                } else {
                    self.done = self.done + n as usize;
                    Ok(())
                }
            },
            Err(e) => Err(e),
        }
    }
}

/// A range of the device on its way to being filled with zeroes.
#[derive(Clone, Copy, Debug, PartialEq, Eq, Structural)]
pub struct ZeroFill {
    /// Absolute offset of the range.
    pub offset: i64,
    /// Length of the range.
    pub len: u64,
    /// Bytes filled so far.
    pub written: u64,
}

/// A run of zeroes to write in full.
#[derive(Clone, Copy, Debug, PartialEq, Eq, Structural)]
pub struct ZeroChunk {
    /// Absolute offset of the run.
    pub offset: i64,
    /// Number of zeroes.
    pub len: usize,
}

impl ZeroFill {
    /// No more bytes are filled than the range holds.
    pub open spec fn wf(self) -> bool {
        self.written <= self.len
    }

    /// The length of the next run of zeroes.
    pub open spec fn chunk_len(self) -> int {
        if self.len - self.written < ZERO_WRITE_BYTES {
            self.len - self.written
        } else {
            ZERO_WRITE_BYTES as int
        }
    }

    /// The next run of zeroes, `None` when the range is filled, or why there is
    /// none.
    pub open spec fn next(self) -> Result<Option<ZeroChunk>, HazmatError> {
        if self.written == self.len {
            Ok(None)
        } else if self.written > i64::MAX {
            Err(HazmatError::CountOutOfRange)
        } else if self.offset + self.written > i64::MAX {
            Err(HazmatError::ZeroWriteOffsetOverflow)
        } else {
            Ok(
                Some(
                    ZeroChunk {
                        offset: (self.offset + self.written) as i64,
                        len: self.chunk_len() as usize,
                    },
                ),
            )
        }
    }

    /// The fill after its next run was written.
    pub open spec fn filled(self) -> ZeroFill {
        ZeroFill { written: (self.written + self.chunk_len()) as u64, ..self }
    }

    /// The fill after `n` runs.
    pub open spec fn run(self, n: nat) -> ZeroFill
        decreases n,
    {
        if n == 0 {
            self
        } else {
            self.run((n - 1) as nat).filled()
        }
    }

    /// The next run of zeroes to write, or `None` when the range is filled.
    pub fn request(&self) -> (result: Result<Option<ZeroChunk>, HazmatError>)
        requires
            self.wf(),
        ensures
            result == self.next(),
    {
        if self.written == self.len {
            return Ok(None);
        }
        if self.written > i64::MAX as u64 {
            return Err(HazmatError::CountOutOfRange);
        }
        match self.offset.checked_add(self.written as i64) {
            Some(offset) => {
                let left: u64 = self.len - self.written;
                let len: u64 = if left < ZERO_WRITE_BYTES {
                    left
                } else {
                    ZERO_WRITE_BYTES
                };
                Ok(Some(ZeroChunk { offset, len: len as usize }))
            },
            None => Err(HazmatError::ZeroWriteOffsetOverflow),
        }
    }

    /// Takes note that the run that `request` asked for was written.
    pub fn complete(&mut self)
        requires
            old(self).wf(),
        ensures
            final(self).wf(),
            *final(self) == old(self).filled(),
    {
        let left: u64 = self.len - self.written;
        let len: u64 = if left < ZERO_WRITE_BYTES {
            left
        } else {
            ZERO_WRITE_BYTES
        };
        self.written = self.written + len;
    }
}

impl IoDevice {
    /// Begins to write a buffer of `len` bytes at the descriptor's position.
    pub fn write_all(&self, len: usize) -> (transfer: Transfer)
        ensures
            transfer == (Transfer { direction: Direction::Write, offset: None, len, done: 0 }),
    {
        Transfer { direction: Direction::Write, offset: None, len, done: 0 }
    }

    /// Begins to read a buffer of `len` bytes at the descriptor's position.
    pub fn read_exact(&self, len: usize) -> (transfer: Transfer)
        ensures
            transfer == (Transfer { direction: Direction::Read, offset: None, len, done: 0 }),
    {
        Transfer { direction: Direction::Read, offset: None, len, done: 0 }
    }

    /// Begins to read a buffer of `len` bytes at an absolute byte offset.
    pub fn read_exact_at(&self, offset: i64, len: usize) -> (transfer: Transfer)
        ensures
            transfer == (Transfer {
                direction: Direction::Read,
                offset: Some(offset),
                len,
                done: 0,
            }),
    {
        Transfer { direction: Direction::Read, offset: Some(offset), len, done: 0 }
    }

    /// Begins to write a buffer of `len` bytes at an absolute byte offset.
    pub fn write_all_at(&self, offset: i64, len: usize) -> (transfer: Transfer)
        ensures
            transfer == (Transfer {
                direction: Direction::Write,
                offset: Some(offset),
                len,
                done: 0,
            }),
    {
        Transfer { direction: Direction::Write, offset: Some(offset), len, done: 0 }
    }

    /// Begins to write `len` zero bytes at an absolute byte offset.
    pub fn write_zeroes_at(&self, offset: i64, len: u64) -> (fill: ZeroFill)
        ensures
            fill == (ZeroFill { offset, len, written: 0 }),
    {
        ZeroFill { offset, len, written: 0 }
    }
}

/// What a disk holds after the calls of a write transfer that began at `at`
/// moved `counts` bytes of `buf` each.
pub open spec fn disk_after_writes(
    disk: Seq<u8>,
    at: int,
    t: Transfer,
    buf: Seq<u8>,
    counts: Seq<usize>,
) -> Seq<u8>
    decreases counts.len(),
{
    if counts.len() == 0 {
        disk
    } else {
        let before = t.run(counts.drop_last());
        splice(
            disk_after_writes(disk, at, t, buf, counts.drop_last()),
            at + before.done,
            buf.subrange(before.done as int, before.done + counts.last()),
        )
    }
}

/// What a buffer holds after the calls of a read transfer that began at `at`
/// of `disk` moved `counts` bytes each.
pub open spec fn buffer_after_reads(
    buf: Seq<u8>,
    at: int,
    t: Transfer,
    disk: Seq<u8>,
    counts: Seq<usize>,
) -> Seq<u8>
    decreases counts.len(),
{
    if counts.len() == 0 {
        buf
    } else {
        let before = t.run(counts.drop_last());
        splice(
            buffer_after_reads(buf, at, t, disk, counts.drop_last()),
            before.done as int,
            disk.subrange(at + before.done, at + before.done + counts.last()),
        )
    }
}

/// However the calls of a transfer cut it up, it stays well formed, asks for the
/// bytes in order, and asks for nothing more exactly when all are moved.
pub proof fn transfers_run_in_order(t: Transfer, counts: Seq<usize>)
    requires
        t.wf(),
        t.can_run(counts),
    ensures
        t.run(counts).wf(),
        t.run(counts).len == t.len,
        t.run(counts).offset == t.offset,
        t.run(counts).direction == t.direction,
        t.run(counts).done >= t.done + counts.len(),
        t.run(counts).next() == Ok::<Option<Request>, HazmatError>(None) <==> t.run(counts).done == t.len,
        t.run(counts).next() matches Ok(Some(request)) ==> {
            &&& request.start == t.run(counts).done
            &&& request.start + request.len == t.len
            &&& match t.offset {
                Some(offset) => request.offset matches Some(at) && at == offset + request.start,
                None => request.offset is None,
            }
        },
    decreases counts.len(),
{
    if counts.len() > 0 {
        transfers_run_in_order(t, counts.drop_last());
    }
}

/// A write transfer leaves on the disk the bytes moved so far, in their place,
/// and touches nothing else; when it asks for nothing more, the whole buffer is
/// there.
pub proof fn write_transfers_write_the_buffer(
    disk: Seq<u8>,
    at: int,
    t: Transfer,
    buf: Seq<u8>,
    counts: Seq<usize>,
)
    requires
        t.done == 0,
        t.len == buf.len(),
        t.can_run(counts),
        0 <= at,
        at + buf.len() <= disk.len(),
    ensures
        disk_after_writes(disk, at, t, buf, counts) == splice(
            disk,
            at,
            buf.take(t.run(counts).done as int),
        ),
        t.run(counts).next() == Ok::<Option<Request>, HazmatError>(None) ==> disk_after_writes(
            disk,
            at,
            t,
            buf,
            counts,
        ) == splice(disk, at, buf),
    decreases counts.len(),
{
    transfers_run_in_order(t, counts);
    if counts.len() > 0 {
        write_transfers_write_the_buffer(disk, at, t, buf, counts.drop_last());
        transfers_run_in_order(t, counts.drop_last());
    }
    assert(disk_after_writes(disk, at, t, buf, counts) =~= splice(
        disk,
        at,
        buf.take(t.run(counts).done as int),
    ));
    if t.run(counts).done == t.len {
        assert(buf.take(t.len as int) =~= buf);
    }
}

/// A read transfer fills the buffer with the bytes of the disk, in their place;
/// when it asks for nothing more, the buffer holds that range of the disk.
pub proof fn read_transfers_read_the_range(
    buf: Seq<u8>,
    at: int,
    t: Transfer,
    disk: Seq<u8>,
    counts: Seq<usize>,
)
    requires
        t.done == 0,
        t.len == buf.len(),
        t.can_run(counts),
        0 <= at,
        at + buf.len() <= disk.len(),
    ensures
        buffer_after_reads(buf, at, t, disk, counts) == splice(
            buf,
            0,
            disk.subrange(at, at + t.run(counts).done),
        ),
        t.run(counts).next() == Ok::<Option<Request>, HazmatError>(None) ==> buffer_after_reads(
            buf,
            at,
            t,
            disk,
            counts,
        ) == disk.subrange(at, at + buf.len()),
    decreases counts.len(),
{
    transfers_run_in_order(t, counts);
    if counts.len() > 0 {
        read_transfers_read_the_range(buf, at, t, disk, counts.drop_last());
        transfers_run_in_order(t, counts.drop_last());
    }
    assert(buffer_after_reads(buf, at, t, disk, counts) =~= splice(
        buf,
        0,
        disk.subrange(at, at + t.run(counts).done),
    ));
    if t.run(counts).done == t.len {
        assert(splice(buf, 0, disk.subrange(at, at + buf.len())) =~= disk.subrange(
            at,
            at + buf.len(),
        ));
    }
}

/// The runs of a zero fill follow one another without gap or overlap, none is
/// longer than the limit, and together they are the whole range.
pub proof fn zero_fills_cover_the_range(fill: ZeroFill, n: nat)
    requires
        fill.written == 0,
        fill.offset >= 0,
        fill.offset + fill.len <= i64::MAX,
    ensures
        fill.run(n).wf(),
        fill.run(n).offset == fill.offset,
        fill.run(n).len == fill.len,
        fill.run(n).written == if n * ZERO_WRITE_BYTES < fill.len {
            n * ZERO_WRITE_BYTES
        } else {
            fill.len as int
        },
        fill.run(n).next() == Ok::<Option<ZeroChunk>, HazmatError>(None) <==> fill.run(n).written
            == fill.len,
        fill.run(n).next() matches Ok(Some(chunk)) ==> {
            &&& chunk.offset == fill.offset + fill.run(n).written
            &&& 1 <= chunk.len <= ZERO_WRITE_BYTES
            &&& fill.run(n + 1).written == fill.run(n).written + chunk.len
        },
        fill.run(n).next() is Ok,
    decreases n,
{
    if n > 0 {
        zero_fills_cover_the_range(fill, (n - 1) as nat);
    }
    assert(fill.run(n + 1) == fill.run(n).filled());
}

/// What a disk holds after `n` runs of a zero fill.
pub open spec fn disk_after_zeroes(disk: Seq<u8>, fill: ZeroFill, n: nat) -> Seq<u8>
    decreases n,
{
    if n == 0 {
        disk
    } else {
        let before = fill.run((n - 1) as nat);
        splice(
            disk_after_zeroes(disk, fill, (n - 1) as nat),
            before.offset + before.written,
            zeroes(before.chunk_len()),
        )
    }
}

/// `n` zero bytes.
pub open spec fn zeroes(n: int) -> Seq<u8> {
    Seq::new(n as nat, |i: int| 0u8)
}

/// A zero fill leaves zeroes on the disk over the bytes filled so far and
/// touches nothing else; when it asks for nothing more, the whole range is
/// zero.
pub proof fn zero_fills_write_zeroes(disk: Seq<u8>, fill: ZeroFill, n: nat)
    requires
        fill.written == 0,
        fill.offset >= 0,
        fill.offset + fill.len <= i64::MAX,
        fill.offset + fill.len <= disk.len(),
    ensures
        disk_after_zeroes(disk, fill, n) == splice(
            disk,
            fill.offset as int,
            zeroes(fill.run(n).written as int),
        ),
        fill.run(n).next() == Ok::<Option<ZeroChunk>, HazmatError>(None) ==> disk_after_zeroes(
            disk,
            fill,
            n,
        ) == splice(disk, fill.offset as int, zeroes(fill.len as int)),
    decreases n,
{
    zero_fills_cover_the_range(fill, n);
    if n > 0 {
        zero_fills_write_zeroes(disk, fill, (n - 1) as nat);
        zero_fills_cover_the_range(fill, (n - 1) as nat);
        assert(fill.run(n) == fill.run((n - 1) as nat).filled());
    }
    assert(disk_after_zeroes(disk, fill, n) =~= splice(
        disk,
        fill.offset as int,
        zeroes(fill.run(n).written as int),
    ));
}

/// A transfer that starts at the descriptor's position, or whose bytes all have
/// an offset that can be addressed, always has a next call until all its bytes
/// are moved.
pub proof fn addressable_transfers_never_fail(t: Transfer, counts: Seq<usize>)
    requires
        t.wf(),
        t.can_run(counts),
        t.offset matches Some(offset) ==> 0 <= offset && offset + t.len <= i64::MAX,
    ensures
        t.run(counts).next() is Ok,
        t.run(counts).done < t.len ==> t.run(counts).next()->Ok_0 is Some,
{
    transfers_run_in_order(t, counts);
}

/// A transfer fails only where the next byte has no offset that can be counted,
/// and says which way it went.
pub proof fn transfers_fail_past_the_last_offset(t: Transfer)
    requires
        t.wf(),
        t.next() is Err,
    ensures
        t.done < t.len,
        t.offset matches Some(offset) && if t.done > i64::MAX {
            t.next()->Err_0 == HazmatError::CountOutOfRange
        } else {
            &&& offset + t.done > i64::MAX
            &&& t.direction == Direction::Read ==> t.next()->Err_0
                == HazmatError::ReadOffsetOverflow
            &&& t.direction == Direction::Write ==> t.next()->Err_0
                == HazmatError::WriteOffsetOverflow
        },
{
}

/// The bytes that a transfer has moved are those that its calls moved together.
pub proof fn transfers_count_what_calls_move(t: Transfer, counts: Seq<usize>, n: usize)
    requires
        t.wf(),
        t.can_run(counts),
        t.run(counts).next() matches Ok(Some(request)) && n <= request.len,
    ensures
        t.run(Seq::empty()) == t,
        t.run(counts.push(n)).done == t.run(counts).done + n,
{
    transfers_run_in_order(t, counts);
    assert(counts.push(n).drop_last() =~= counts);
}

/// A zero fill fails only where the next run has no offset that can be counted.
pub proof fn zero_fills_fail_past_the_last_offset(fill: ZeroFill)
    requires
        fill.wf(),
        fill.next() is Err,
    ensures
        fill.written < fill.len,
        if fill.written > i64::MAX {
            fill.next()->Err_0 == HazmatError::CountOutOfRange
        } else {
            &&& fill.offset + fill.written > i64::MAX
            &&& fill.next()->Err_0 == HazmatError::ZeroWriteOffsetOverflow
        },
{
}

} // verus!
