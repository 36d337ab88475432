//! Requests of the exposed block device, carried out on the backing target.

use vstd::prelude::*;

use crate::cipher::{
    decrypted, decryption_undoes_encryption, encrypted, equal_sectors_encrypt_differently,
    BlockCipher, CipherKeys,
};
use crate::error::HazmatError;
use crate::io::{Direction, IoDevice};
use crate::transfer::Transfer;
use crate::utils::{copy_at, splice};

verus! {

/// Error number of a failed transfer.
pub const EIO: i32 = 5;

/// Error number of a request that makes no sense.
pub const EINVAL: i32 = 22;

/// Code of a read request.
pub const UBLK_IO_OP_READ: u32 = 0;

/// Code of a write request.
pub const UBLK_IO_OP_WRITE: u32 = 1;

/// Code of a flush request.
pub const UBLK_IO_OP_FLUSH: u32 = 2;

/// What a request of the exposed device asks for.
#[derive(Clone, Copy, Debug, PartialEq, Eq, Structural)]
pub enum IoAction {
    /// Read into the first bytes of the buffer.
    Read {
        /// First byte of the exposed device.
        offset: u64,
        /// Number of bytes.
        len: usize,
    },
    /// Write the first bytes of the buffer.
    Write {
        /// First byte of the exposed device.
        offset: u64,
        /// Number of bytes.
        len: usize,
    },
    /// Flush the backing target.
    Flush,
    /// Answer with a status at once.
    Reject {
        /// The status.
        status: i32,
    },
}

/// What the descriptor of a request asks for, when the buffer holds `buf_len`
/// bytes.
pub open spec fn action(
    op_flags: u32,
    start_sector: u64,
    nr_sectors: u32,
    buf_len: usize,
) -> IoAction {
    let offset = ((start_sector * 512) % 0x1_0000_0000_0000_0000) as u64;
    let len = ((nr_sectors * 512) % 0x1_0000_0000) as usize;
    let op = op_flags % 256;
    if len > buf_len {
        IoAction::Reject { status: (-EINVAL) as i32 }
    } else if op == UBLK_IO_OP_READ {
        IoAction::Read { offset, len }
    } else if op == UBLK_IO_OP_WRITE {
        IoAction::Write { offset, len }
    } else if op == UBLK_IO_OP_FLUSH {
        IoAction::Flush
    } else {
        IoAction::Reject { status: (-EINVAL) as i32 }
    }
}

/// Decodes one request of the exposed device.
pub fn handle_io(op_flags: u32, start_sector: u64, nr_sectors: u32, buf_len: usize) -> (result:
    IoAction)
    ensures
        result == action(op_flags, start_sector, nr_sectors, buf_len),
{
    let op: u32 = op_flags & 0xff;
    let offset: u64 = start_sector << 9u32;
    let bytes: usize = (nr_sectors << 9u32) as usize;
    proof {
        assert(op_flags & 0xff == op_flags % 256) by (bit_vector);
        assert(start_sector << 9u32 == (start_sector * 512) % 0x1_0000_0000_0000_0000)
            by (bit_vector);
        assert(nr_sectors << 9u32 == (nr_sectors * 512) % 0x1_0000_0000) by (bit_vector);
    }
    if bytes > buf_len {
        return IoAction::Reject { status: -EINVAL };
    }
    if op == UBLK_IO_OP_READ {
        IoAction::Read { offset, len: bytes }
    } else if op == UBLK_IO_OP_WRITE {
        IoAction::Write { offset, len: bytes }
    } else if op == UBLK_IO_OP_FLUSH {
        IoAction::Flush
    } else {
        IoAction::Reject { status: -EINVAL }
    }
}

/// The status that answers a request: the number of bytes, or the error number
/// of a failed transfer.
pub fn io_status(result: Result<i32, HazmatError>) -> (status: i32)
    ensures
        status == match result {
            Ok(n) => n as int,
            Err(_) => -EIO,
        },
{
    match result {
        Ok(n) => n,
        Err(_) => -EIO,
    }
}

/// A byte count as a status.
fn count_status(len: usize) -> (result: Result<i32, HazmatError>)
    ensures
        match result {
            Ok(n) => n == len,
            Err(e) => len > i32::MAX && e == HazmatError::CountOutOfRange,
        },
{
    if len <= i32::MAX as usize {
        Ok(len as i32)
    } else {
        Err(HazmatError::CountOutOfRange)
    }
}

/// One sector encrypted or decrypted.
pub open spec fn sector_transformed(k: CipherKeys, lba: int, s: Seq<u8>, encrypt: bool) -> Seq<
    u8,
> {
    if encrypt {
        encrypted(k, lba as u64, s)
    } else {
        decrypted(k, lba as u64, s)
    }
}

/// Sector `j` of `s`, in sectors of `size` bytes.
pub open spec fn sector(s: Seq<u8>, size: int, j: int) -> Seq<u8> {
    s.subrange(j * size, j * size + size)
}

/// `s` with its first `n` sectors of `size` bytes encrypted or decrypted, the
/// first of them as sector `first_lba`.
pub open spec fn transformed(
    k: CipherKeys,
    first_lba: int,
    size: int,
    s: Seq<u8>,
    encrypt: bool,
    n: int,
) -> Seq<u8> {
    Seq::new(
        s.len(),
        |i: int|
            if i < n * size {
                sector_transformed(
                    k,
                    first_lba + i / size,
                    sector(s, size, i / size),
                    encrypt,
                )[i % size]
            } else {
                s[i]
            },
    )
}

proof fn lemma_div_mod(i: int, size: int)
    requires
        0 < size,
    ensures
        i / size * size + i % size == i,
        0 <= i % size < size,
        0 <= i ==> 0 <= i / size <= i,
{
    vstd::arithmetic::div_mod::lemma_fundamental_div_mod(i, size);
    vstd::arithmetic::mul::lemma_mul_is_commutative(i / size, size);
    vstd::arithmetic::div_mod::lemma_mod_bound(i, size);
    if 0 <= i {
        vstd::arithmetic::div_mod::lemma_div_pos_is_pos(i, size);
        vstd::arithmetic::div_mod::lemma_div_nonincreasing(i, size);
    }
}

proof fn lemma_product(a: int, b: int)
    requires
        0 <= a,
        0 <= b,
    ensures
        0 <= a * b,
        (a + 1) * b == a * b + b,
        1 <= b ==> a <= a * b,
{
    assert(0 <= a * b && (a + 1) * b == a * b + b && (1 <= b ==> a <= a * b)) by (nonlinear_arith)
        requires
            0 <= a,
            0 <= b,
    ;
}

/// Byte `i` lies in sector `j` exactly when `j` is its quotient.
proof fn lemma_sector_index(i: int, j: int, size: int)
    requires
        0 < size,
        j * size <= i < j * size + size,
    ensures
        i / size == j,
        i % size == i - j * size,
{
    vstd::arithmetic::div_mod::lemma_fundamental_div_mod_converse(i, size, j, i - j * size);
    vstd::arithmetic::mul::lemma_mul_is_commutative(j, size);
}

/// Transforming one sector more transforms that sector.
proof fn lemma_transformed_step(
    k: CipherKeys,
    first_lba: int,
    size: int,
    s: Seq<u8>,
    encrypt: bool,
    n: int,
)
    requires
        0 < size,
        0 <= n,
        n * size + size <= s.len(),
    ensures
        sector(transformed(k, first_lba, size, s, encrypt, n), size, n) == sector(s, size, n),
        transformed(k, first_lba, size, s, encrypt, n + 1) == splice(
            transformed(k, first_lba, size, s, encrypt, n),
            n * size,
            sector_transformed(k, first_lba + n, sector(s, size, n), encrypt),
        ),
{
    lemma_product(n, size);
    let before = transformed(k, first_lba, size, s, encrypt, n);
    let after = transformed(k, first_lba, size, s, encrypt, n + 1);
    assert(sector(before, size, n) =~= sector(s, size, n));
    let t = sector_transformed(k, first_lba + n, sector(s, size, n), encrypt);
    assert(t.len() == size);
    assert forall|i: int| 0 <= i < s.len() implies after[i] == splice(before, n * size, t)[i] by {
        if n * size <= i < n * size + size {
            lemma_sector_index(i, n, size);
        }
    }
    assert(after =~= splice(before, n * size, t));
}

/// Each of the transformed sectors is that sector of the bytes, transformed by
/// its own number.
proof fn lemma_sector_of_transformed(
    k: CipherKeys,
    first_lba: int,
    s: Seq<u8>,
    encrypt: bool,
    n: int,
    j: int,
)
    requires
        0 <= j < n,
        n * 512 <= s.len(),
    ensures
        sector(transformed(k, first_lba, 512, s, encrypt, n), 512, j) == if encrypt {
            encrypted(k, (first_lba + j) as u64, sector(s, 512, j))
        } else {
            decrypted(k, (first_lba + j) as u64, sector(s, 512, j))
        },
{
    let whole = transformed(k, first_lba, 512, s, encrypt, n);
    let one = sector_transformed(k, first_lba + j, sector(s, 512, j), encrypt);
    assert forall|x: int| 0 <= x < 512 implies sector(whole, 512, j)[x] == one[x] by {
        let i = j * 512 + x;
        assert(i / 512 == j && i % 512 == x);
        assert(sector(whole, 512, j)[x] == whole[i]);
    }
    assert(sector(whole, 512, j) =~= one);
}

/// Runtime state of the exposed block device. The exposed device maps sector
/// zero to `shadow_start_lba` in the backing target.
pub struct BlkDeviceOps {
    /// The backing target.
    pub io_device: IoDevice,
    /// Encrypts and decrypts the sectors.
    pub block_cipher: BlockCipher,
    /// First sector of the payload.
    pub shadow_start_lba: u64,
    /// Size of the exposed device, in bytes.
    pub shadow_size: u64,
}

impl BlkDeviceOps {
    /// The logical sectors can be encrypted, and the exposed device has a whole
    /// number of them.
    pub open spec fn wf(self) -> bool {
        &&& self.io_device.wf()
        &&& self.shadow_size % self.io_device.virtual_blk_size == 0
    }

    /// Bytes in a logical sector.
    pub open spec fn sector_size(self) -> int {
        self.io_device.virtual_blk_size as int
    }

    /// The sector of the backing target that an exposed byte lies in.
    pub open spec fn backing_lba(self, offset: int) -> int {
        self.shadow_start_lba + offset / self.sector_size()
    }

    /// The backing offset of a request, or why it is refused.
    pub open spec fn backing(self, offset: int, len: int) -> Result<int, HazmatError> {
        let size = self.sector_size();
        if offset % size != 0 || len % size != 0 {
            Err(HazmatError::RequestUnaligned)
        } else if offset + len > u64::MAX {
            Err(HazmatError::RequestOffsetOverflow)
        } else if offset + len > self.shadow_size {
            Err(HazmatError::RequestOutOfRange)
        } else if self.backing_lba(offset) > u64::MAX {
            Err(HazmatError::BackingLbaOverflow)
        } else if self.backing_lba(offset) * size > i64::MAX {
            Err(HazmatError::BackingOffsetTooLarge)
        } else {
            Ok(self.backing_lba(offset) * size)
        }
    }

    /// Converts a byte range of the exposed device into an absolute backing
    /// offset, rejecting unaligned or out-of-range requests.
    pub fn backing_offset(&self, offset: u64, len: usize) -> (result: Result<i64, HazmatError>)
        requires
            self.io_device.virtual_blk_size != 0,
        ensures
            match self.backing(offset as int, len as int) {
                Ok(at) => result matches Ok(r) && r == at,
                Err(e) => result == Err::<i64, HazmatError>(e),
            },
    {
        let len: u64 = len as u64;
        let sector_size: u64 = self.io_device.virtual_blk_size;
        if !(offset % sector_size == 0 && len % sector_size == 0) {
            return Err(HazmatError::RequestUnaligned);
        }
        let end: u64 = match offset.checked_add(len) {
            Some(end) => end,
            None => {
                return Err(HazmatError::RequestOffsetOverflow);
            },
        };
        if end > self.shadow_size {
            return Err(HazmatError::RequestOutOfRange);
        }
        let relative_lba: u64 = offset / sector_size;
        let backing_lba: u64 = match self.shadow_start_lba.checked_add(relative_lba) {
            Some(lba) => lba,
            None => {
                return Err(HazmatError::BackingLbaOverflow);
            },
        };
        match crate::msfat32::plan::lba_offset(sector_size, backing_lba) {
            Some(at) => Ok(at),
            None => Err(HazmatError::BackingOffsetTooLarge),
        }
    }

    /// Whether the sectors of a request of `len` bytes can all be counted.
    pub open spec fn sectors_countable(self, offset: int, len: int) -> bool {
        &&& self.backing_lba(offset) <= u64::MAX
        &&& self.backing_lba(offset) + len / self.sector_size() <= u64::MAX + 1
    }

    /// What transforming the sectors of a request returns, and what it leaves
    /// in the buffer.
    pub open spec fn transform_outcome(self, offset: int, s: Seq<u8>, encrypt: bool) -> (
        Result<(), HazmatError>,
        Seq<u8>,
    ) {
        let size = self.sector_size();
        let first = self.backing_lba(offset);
        if size > usize::MAX {
            (Err(HazmatError::CountOutOfRange), s)
        } else if s.len() as int % size != 0 {
            (Err(HazmatError::LengthUnaligned), s)
        } else if first > u64::MAX {
            (Err(HazmatError::CipherLbaOverflow), s)
        } else if !self.sectors_countable(offset, s.len() as int) {
            (
                Err(HazmatError::CipherLbaOverflow),
                transformed(self.block_cipher@, first, size, s, encrypt, u64::MAX + 1 - first),
            )
        } else {
            (
                Ok(()),
                transformed(self.block_cipher@, first, size, s, encrypt, s.len() as int / size),
            )
        }
    }

    /// Encrypts or decrypts each sector using its real backing LBA as cipher
    /// context, matching the format-time per-sector transform. Where the
    /// sectors cannot all be counted, those that can are transformed.
    pub fn transform_sectors(&self, offset: u64, data: &mut [u8], encrypt: bool) -> (result: Result<
        (),
        HazmatError,
    >)
        requires
            self.io_device.virtual_blk_size != 0,
            self.io_device.virtual_blk_size % 8 == 0,
        ensures
            result == self.transform_outcome(offset as int, old(data)@, encrypt).0,
            final(data)@ == self.transform_outcome(offset as int, old(data)@, encrypt).1,
    {
        if self.io_device.virtual_blk_size > usize::MAX as u64 {
            return Err(HazmatError::CountOutOfRange);
        }
        let size: usize = self.io_device.virtual_blk_size as usize;
        if data.len() % size != 0 {
            return Err(HazmatError::LengthUnaligned);
        }
        let first_lba: u64 = match self.shadow_start_lba.checked_add(
            offset / self.io_device.virtual_blk_size,
        ) {
            Some(lba) => lba,
            None => {
                return Err(HazmatError::CipherLbaOverflow);
            },
        };
        let ghost before = data@;
        let ghost k = self.block_cipher@;
        let count: usize = data.len() / size;
        let mut index: usize = 0;
        proof {
            assert(data.len() == data@.len());
            lemma_div_mod(before.len() as int, size as int);
            assert(data@ =~= transformed(k, first_lba as int, size as int, before, encrypt, 0));
        }
        while index < count
            invariant
                size == self.io_device.virtual_blk_size,
                0 < size,
                size % 8 == 0,
                index <= count,
                count * size == before.len() <= usize::MAX,
                before.len() == old(data)@.len(),
                before == old(data)@,
                before.len() as int % size as int == 0,
                before.len() as int / size as int == count,
                first_lba == self.backing_lba(offset as int),
                k == self.block_cipher@,
                first_lba + index <= u64::MAX + 1,
                data@ == transformed(
                    k,
                    first_lba as int,
                    size as int,
                    before,
                    encrypt,
                    index as int,
                ),
            decreases count - index,
        {
            let lba: u64 = match first_lba.checked_add(index as u64) {
                Some(lba) => lba,
                None => {
                    return Err(HazmatError::CipherLbaOverflow);
                },
            };
            proof {
                lemma_product(index as int, size as int);
                assert(index * size + size <= count * size) by (nonlinear_arith)
                    requires
                        index < count,
                        0 <= size,
                ;
                lemma_transformed_step(
                    k,
                    first_lba as int,
                    size as int,
                    before,
                    encrypt,
                    index as int,
                );
            }
            let start: usize = index * size;
            let mut sector = vstd::slice::slice_to_vec(
                vstd::slice::slice_subrange(data, start, start + size),
            );
            if encrypt {
                self.block_cipher.encrypt_sector(lba, sector.as_mut_slice());
            } else {
                self.block_cipher.decrypt_sector(lba, sector.as_mut_slice());
            }
            copy_at(data, start, sector.as_slice());
            index = index + 1;
        }
        Ok(())
    }

    /// The sectors of a request that is not refused can all be transformed.
    proof fn lemma_transformable(self, offset: int, len: int)
        requires
            self.wf(),
            0 <= offset <= u64::MAX,
            0 <= len <= usize::MAX,
            self.backing(offset, len) is Ok,
        ensures
            self.sector_size() == 512,
            len % 512 == 0,
            self.backing_lba(offset) <= u64::MAX,
            self.sectors_countable(offset, len),
    {
        let first = self.backing_lba(offset);
        assert(self.sector_size() == 512);
        assert(first * 512 <= i64::MAX);
        assert(0 <= len / 512 <= len);
        assert(offset + len <= u64::MAX);
        assert(first <= 0x40_0000_0000_0000);
        assert(len / 512 <= 0x80_0000_0000_0000);
    }

    /// What is stored of the bytes of a write request.
    pub open spec fn stored(self, offset: int, data: Seq<u8>) -> Seq<u8> {
        transformed(
            self.block_cipher@,
            self.backing_lba(offset),
            self.sector_size(),
            data,
            true,
            data.len() as int / self.sector_size(),
        )
    }

    /// What a read request shows of stored bytes.
    pub open spec fn shown(self, offset: int, data: Seq<u8>) -> Seq<u8> {
        transformed(
            self.block_cipher@,
            self.backing_lba(offset),
            self.sector_size(),
            data,
            false,
            data.len() as int / self.sector_size(),
        )
    }

    /// Begins to read the encrypted sectors of a request.
    pub fn read_request(&self, offset: u64, len: usize) -> (result: Result<Transfer, HazmatError>)
        requires
            self.io_device.virtual_blk_size != 0,
        ensures
            match self.backing(offset as int, len as int) {
                Ok(at) => result == Ok::<Transfer, HazmatError>(
                    Transfer { direction: Direction::Read, offset: Some(at as i64), len, done: 0 },
                ),
                Err(e) => result == Err::<Transfer, HazmatError>(e),
            },
    {
        match self.backing_offset(offset, len) {
            Ok(at) => Ok(self.io_device.read_exact_at(at, len)),
            Err(e) => Err(e),
        }
    }

    /// Decrypts the sectors that `read_request` asked for into what the request
    /// gets, and counts the bytes.
    pub fn read_result(&self, offset: u64, data: &mut [u8]) -> (result: Result<i32, HazmatError>)
        requires
            self.wf(),
            self.backing(offset as int, old(data)@.len() as int) is Ok,
        ensures
            final(data)@ == self.shown(offset as int, old(data)@),
            forall|j: int|
                0 <= j < old(data)@.len() as int / 512 ==> #[trigger] sector(final(data)@, 512, j)
                    == decrypted(
                    self.block_cipher@,
                    (self.shadow_start_lba + offset as int / 512 + j) as u64,
                    sector(old(data)@, 512, j),
                ),
            match result {
                Ok(n) => n == old(data)@.len(),
                Err(e) => old(data)@.len() > i32::MAX && e == HazmatError::CountOutOfRange,
            },
    {
        let len: usize = data.len();
        proof {
            assert(len == data@.len());
            self.lemma_transformable(offset as int, len as int);
        }
        proof {
            let k = self.block_cipher@;
            let first = self.backing_lba(offset as int);
            assert forall|j: int| 0 <= j < len as int / 512 implies #[trigger] sector(
                self.shown(offset as int, data@),
                512,
                j,
            ) == decrypted(
                k,
                (self.shadow_start_lba + offset as int / 512 + j) as u64,
                sector(data@, 512, j),
            ) by {
                lemma_sector_of_transformed(k, first, data@, false, len as int / 512, j);
            }
        }
        match self.transform_sectors(offset, data, false) {
            Ok(()) => count_status(len),
            Err(e) => Err(e),
        }
    }

    /// Encrypts the bytes of a write request, and begins to write them.
    pub fn write_result(&self, offset: u64, data: &[u8]) -> (result: Result<
        (Transfer, Vec<u8>),
        HazmatError,
    >)
        requires
            self.wf(),
        ensures
            match self.backing(offset as int, data@.len() as int) {
                Ok(at) => {
                    &&& result matches Ok((transfer, bytes))
                    &&& transfer == (Transfer {
                        direction: Direction::Write,
                        offset: Some(at as i64),
                        len: data@.len() as usize,
                        done: 0,
                    })
                    &&& bytes@ == self.stored(offset as int, data@)
                    &&& forall|j: int|
                        0 <= j < data@.len() as int / 512 ==> #[trigger] sector(bytes@, 512, j)
                            == encrypted(
                            self.block_cipher@,
                            (self.shadow_start_lba + offset as int / 512 + j) as u64,
                            sector(data@, 512, j),
                        )
                },
                Err(e) => result matches Err(r) && r == e,
            },
    {
        let at: i64 = match self.backing_offset(offset, data.len()) {
            Ok(at) => at,
            Err(e) => {
                return Err(e);
            },
        };
        let mut bytes = vstd::slice::slice_to_vec(data);
        proof {
            assert(data.len() == data@.len());
            self.lemma_transformable(offset as int, data@.len() as int);
            let k = self.block_cipher@;
            let first = self.backing_lba(offset as int);
            let count = data@.len() as int / 512;
            assert forall|j: int| 0 <= j < count implies #[trigger] sector(
                self.stored(offset as int, data@),
                512,
                j,
            ) == encrypted(
                k,
                (self.shadow_start_lba + offset as int / 512 + j) as u64,
                sector(data@, 512, j),
            ) by {
                lemma_sector_of_transformed(k, first, data@, true, count, j);
            }
        }
        match self.transform_sectors(offset, bytes.as_mut_slice(), true) {
            Ok(()) => Ok((self.io_device.write_all_at(at, data.len()), bytes)),
            Err(e) => Err(e),
        }
    }

    /// Counts the bytes of a write request that was carried out.
    pub fn written(&self, len: usize) -> (result: Result<i32, HazmatError>)
        ensures
            match result {
                Ok(n) => n == len,
                Err(e) => len > i32::MAX && e == HazmatError::CountOutOfRange,
            },
    {
        count_status(len)
    }

    /// What a flush of the backing target that returned `res` comes to.
    pub fn flush_result(&self, res: i32) -> (result: Result<i32, HazmatError>)
        ensures
            result == if res == -1 {
                Err::<i32, HazmatError>(HazmatError::SyncFailed)
            } else {
                Ok(0)
            },
    {
        match self.io_device.sync(res) {
            Ok(()) => Ok(0),
            Err(e) => Err(e),
        }
    }
}

impl BlkDeviceOps {
    /// The payload lies on a disk that can be addressed.
    pub open spec fn fits(self, disk: Seq<u8>) -> bool {
        self.shadow_start_lba * 512 + self.shadow_size <= disk.len() <= i64::MAX
    }

    /// The bytes that the exposed device shows when the backing target holds
    /// `disk`.
    pub open spec fn exposed(self, disk: Seq<u8>) -> Seq<u8> {
        let start = self.shadow_start_lba * 512;
        transformed(
            self.block_cipher@,
            self.shadow_start_lba as int,
            512,
            disk.subrange(start, start + self.shadow_size),
            false,
            self.shadow_size as int / 512,
        )
    }

    /// The bytes that a read request gets when the backing target holds `disk`.
    pub open spec fn read_bytes(self, disk: Seq<u8>, offset: int, len: int) -> Seq<u8> {
        let at = self.backing(offset, len)->Ok_0;
        self.shown(offset, disk.subrange(at, at + len))
    }

    /// The backing target after a write request was carried out.
    pub open spec fn disk_after_write(self, disk: Seq<u8>, offset: int, data: Seq<u8>) -> Seq<u8> {
        let at = self.backing(offset, data.len() as int)->Ok_0;
        splice(disk, at, self.stored(offset, data))
    }
}

/// A request that is not refused stays inside the payload, at the place that its
/// offset says, and a request of whole sectors inside the exposed device is not
/// refused.
pub proof fn requests_stay_inside_the_payload(ops: BlkDeviceOps, offset: int, len: int)
    requires
        ops.wf(),
        0 <= offset <= u64::MAX,
        0 <= len,
    ensures
        ops.backing(offset, len) matches Ok(at) ==> {
            &&& at == ops.shadow_start_lba * 512 + offset
            &&& at + len <= ops.shadow_start_lba * 512 + ops.shadow_size
        },
        offset % 512 == 0 && len % 512 == 0 && offset + len <= ops.shadow_size
            && ops.shadow_start_lba * 512 + ops.shadow_size <= i64::MAX ==> ops.backing(
            offset,
            len,
        ) is Ok,
{
}

/// A read request gets the bytes of the exposed device at its place.
pub proof fn reads_see_the_exposed_device(
    ops: BlkDeviceOps,
    disk: Seq<u8>,
    offset: int,
    len: int,
)
    requires
        ops.wf(),
        ops.fits(disk),
        0 <= offset <= u64::MAX,
        0 <= len,
        ops.backing(offset, len) is Ok,
    ensures
        ops.exposed(disk).len() == ops.shadow_size,
        ops.read_bytes(disk, offset, len) == ops.exposed(disk).subrange(offset, offset + len),
{
    requests_stay_inside_the_payload(ops, offset, len);
    let start = ops.shadow_start_lba * 512;
    let at = start + offset;
    let whole = disk.subrange(start, start + ops.shadow_size);
    let part = disk.subrange(at, at + len);
    let a = ops.read_bytes(disk, offset, len);
    let b = ops.exposed(disk).subrange(offset, offset + len);
    assert forall|i: int| 0 <= i < len implies a[i] == b[i] by {
        let j = i / 512;
        let m = (offset + i) / 512;
        assert(m == offset / 512 + j);
        assert((offset + i) % 512 == i % 512);
        assert(sector(part, 512, j) =~= sector(whole, 512, m));
    }
    assert(a =~= b);
}

/// A write request changes the exposed device at its place to the bytes written,
/// and nowhere else.
pub proof fn writes_change_the_exposed_device(
    ops: BlkDeviceOps,
    disk: Seq<u8>,
    offset: int,
    data: Seq<u8>,
)
    requires
        ops.wf(),
        ops.fits(disk),
        0 <= offset <= u64::MAX,
        ops.backing(offset, data.len() as int) is Ok,
    ensures
        ops.exposed(ops.disk_after_write(disk, offset, data)) == splice(
            ops.exposed(disk),
            offset,
            data,
        ),
{
    let len = data.len() as int;
    requests_stay_inside_the_payload(ops, offset, len);
    let k = ops.block_cipher@;
    let start = ops.shadow_start_lba * 512;
    let at = start + offset;
    let first = ops.backing_lba(offset);
    let after = ops.disk_after_write(disk, offset, data);
    let stored = transformed(k, first, 512, data, true, len / 512);
    let w0 = disk.subrange(start, start + ops.shadow_size);
    let w1 = after.subrange(start, start + ops.shadow_size);
    let a = ops.exposed(after);
    let b = splice(ops.exposed(disk), offset, data);
    assert forall|i: int| 0 <= i < ops.shadow_size implies a[i] == b[i] by {
        let m = i / 512;
        if offset <= i < offset + len {
            let j = (i - offset) / 512;
            let plain = sector(data, 512, j);
            let lba = (first + j) as u64;
            assert(m == offset / 512 + j);
            assert((i - offset) % 512 == i % 512);
            assert(sector(w1, 512, m) =~= encrypted(k, lba, plain)) by {
                assert forall|x: int| 0 <= x < 512 implies sector(w1, 512, m)[x] == encrypted(
                    k,
                    lba,
                    plain,
                )[x] by {
                    let y = j * 512 + x;
                    assert(y / 512 == j && y % 512 == x);
                    assert(sector(w1, 512, m)[x] == after[start + m * 512 + x]);
                    assert(after[start + m * 512 + x] == stored[y]);
                }
            }
            decryption_undoes_encryption(k, lba, plain);
            assert(plain[i % 512] == data[i - offset]);
        } else {
            assert(sector(w1, 512, m) =~= sector(w0, 512, m));
        }
    }
    assert(a =~= b);
}

/// A write request leaves the backing target alone outside of the payload.
pub proof fn writes_leave_the_rest_alone(
    ops: BlkDeviceOps,
    disk: Seq<u8>,
    offset: int,
    data: Seq<u8>,
    i: int,
)
    requires
        ops.wf(),
        ops.fits(disk),
        0 <= offset <= u64::MAX,
        ops.backing(offset, data.len() as int) is Ok,
        0 <= i < disk.len(),
        i < ops.shadow_start_lba * 512 || ops.shadow_start_lba * 512 + ops.shadow_size <= i,
    ensures
        ops.disk_after_write(disk, offset, data).len() == disk.len(),
        ops.disk_after_write(disk, offset, data)[i] == disk[i],
{
    requests_stay_inside_the_payload(ops, offset, data.len() as int);
}

/// What was written last is what is read, and a write outside of a range leaves
/// alone what is read there.
pub proof fn reads_give_back_writes(
    ops: BlkDeviceOps,
    disk: Seq<u8>,
    offset: int,
    data: Seq<u8>,
    other: int,
    len: int,
)
    requires
        ops.wf(),
        ops.fits(disk),
        0 <= offset <= u64::MAX,
        ops.backing(offset, data.len() as int) is Ok,
        0 <= other <= u64::MAX,
        0 <= len,
        ops.backing(other, len) is Ok,
    ensures
        ops.read_bytes(
            ops.disk_after_write(disk, offset, data),
            offset,
            data.len() as int,
        ) == data,
        other + len <= offset || offset + data.len() <= other ==> ops.read_bytes(
            ops.disk_after_write(disk, offset, data),
            other,
            len,
        ) == ops.read_bytes(disk, other, len),
{
    let after = ops.disk_after_write(disk, offset, data);
    requests_stay_inside_the_payload(ops, offset, data.len() as int);
    requests_stay_inside_the_payload(ops, other, len);
    writes_change_the_exposed_device(ops, disk, offset, data);
    reads_see_the_exposed_device(ops, after, offset, data.len() as int);
    reads_see_the_exposed_device(ops, after, other, len);
    reads_see_the_exposed_device(ops, disk, other, len);
    let whole = splice(ops.exposed(disk), offset, data);
    assert(whole.subrange(offset, offset + data.len()) =~= data);
    if other + len <= offset || offset + data.len() <= other {
        assert(whole.subrange(other, other + len) =~= ops.exposed(disk).subrange(
            other,
            other + len,
        ));
    }
}

/// A descriptor asks for exactly the bytes of its sectors: the offset is the
/// start sector times 512 and the length the number of sectors times 512, as
/// far as these can be counted. The lowest byte of the flags alone says what is
/// asked for, and what does not fit in the buffer or is none of the three
/// requests is rejected.
pub proof fn descriptors_name_whole_sectors(
    op_flags: u32,
    start_sector: u64,
    nr_sectors: u32,
    buf_len: usize,
)
    requires
        start_sector < 0x80_0000_0000_0000,
        nr_sectors < 0x80_0000,
    ensures
        ({
            let op = op_flags as int % 256;
            let a = action(op_flags, start_sector, nr_sectors, buf_len);
            if nr_sectors * 512 > buf_len || op > 2 {
                a matches IoAction::Reject { status } && status == -22
            } else if op == 0 {
                a matches IoAction::Read { offset, len } && offset == start_sector * 512 && len
                    == nr_sectors * 512
            } else if op == 1 {
                a matches IoAction::Write { offset, len } && offset == start_sector * 512 && len
                    == nr_sectors * 512
            } else {
                a is Flush
            }
        }),
{
}

/// Requests for adjacent sectors get adjacent ranges of the exposed device, so
/// requests for different sectors get different ones.
pub proof fn adjacent_descriptors_get_adjacent_ranges(
    op_flags: u32,
    start_sector: u64,
    nr_sectors: u32,
    next_sectors: u32,
    buf_len: usize,
)
    requires
        op_flags % 256 < 2,
        start_sector + nr_sectors < 0x80_0000_0000_0000,
        nr_sectors < 0x80_0000,
        next_sectors < 0x80_0000,
        nr_sectors * 512 <= buf_len,
        next_sectors * 512 <= buf_len,
    ensures
        ({
            let a = action(op_flags, start_sector, nr_sectors, buf_len);
            let b = action(
                op_flags,
                (start_sector + nr_sectors) as u64,
                next_sectors,
                buf_len,
            );
            match (a, b) {
                (
                    IoAction::Read { offset: x, len: n },
                    IoAction::Read { offset: y, len: m },
                ) => x + n == y && m == next_sectors * 512,
                (
                    IoAction::Write { offset: x, len: n },
                    IoAction::Write { offset: y, len: m },
                ) => x + n == y && m == next_sectors * 512,
                _ => false,
            }
        }),
{
}

/// A request that is not refused covers whole sectors inside the exposed device.
pub proof fn accepted_requests_are_whole_sectors(ops: BlkDeviceOps, offset: int, len: int)
    requires
        ops.wf(),
        0 <= offset <= u64::MAX,
        0 <= len,
        ops.backing(offset, len) is Ok,
    ensures
        offset % 512 == 0,
        len % 512 == 0,
        offset + len <= ops.shadow_size,
{
}

/// Each sector of a request is encrypted and decrypted by the number of the very
/// sector of the backing target that holds it: sector `j` of a request lies
/// `j * 512` bytes behind the backing offset, and that offset divided by 512 is
/// the number that the cipher is given.
pub proof fn sectors_are_encrypted_by_their_place(
    ops: BlkDeviceOps,
    offset: int,
    data: Seq<u8>,
    j: int,
)
    requires
        ops.wf(),
        0 <= offset <= u64::MAX,
        data.len() <= usize::MAX,
        ops.backing(offset, data.len() as int) is Ok,
        0 <= j,
        j * 512 + 512 <= data.len(),
    ensures
        ({
            let place = ops.backing(offset, data.len() as int)->Ok_0 + j * 512;
            let lba = place / 512;
            let plain = data.subrange(j * 512, j * 512 + 512);
            &&& place % 512 == 0
            &&& 0 <= lba <= u64::MAX
            &&& ops.stored(offset, data).len() == data.len()
            &&& ops.shown(offset, data).len() == data.len()
            &&& ops.stored(offset, data).subrange(j * 512, j * 512 + 512) == encrypted(
                ops.block_cipher@,
                lba as u64,
                plain,
            )
            &&& ops.shown(offset, data).subrange(j * 512, j * 512 + 512) == decrypted(
                ops.block_cipher@,
                lba as u64,
                plain,
            )
        }),
{
    let len = data.len() as int;
    let k = ops.block_cipher@;
    let first = ops.backing_lba(offset);
    ops.lemma_transformable(offset, len);
    requests_stay_inside_the_payload(ops, offset, len);
    lemma_sector_of_transformed(k, first, data, true, len / 512, j);
    lemma_sector_of_transformed(k, first, data, false, len / 512, j);
    let place = ops.backing(offset, len)->Ok_0 + j * 512;
    assert(place == (first + j) * 512);
    assert(place / 512 == first + j);
}

/// Equal sectors written at two places of the exposed device differ on the
/// backing target.
pub proof fn equal_data_differs_on_the_backing_target(
    ops: BlkDeviceOps,
    offset1: int,
    offset2: int,
    data: Seq<u8>,
)
    requires
        ops.wf(),
        0 <= offset1 <= u64::MAX,
        0 <= offset2 <= u64::MAX,
        offset1 != offset2,
        data.len() == 512,
        ops.backing(offset1, 512) is Ok,
        ops.backing(offset2, 512) is Ok,
    ensures
        ops.stored(offset1, data) != ops.stored(offset2, data),
{
    sectors_are_encrypted_by_their_place(ops, offset1, data, 0);
    sectors_are_encrypted_by_their_place(ops, offset2, data, 0);
    requests_stay_inside_the_payload(ops, offset1, 512);
    requests_stay_inside_the_payload(ops, offset2, 512);
    let lba1 = ((ops.shadow_start_lba * 512 + offset1) / 512) as u64;
    let lba2 = ((ops.shadow_start_lba * 512 + offset2) / 512) as u64;
    assert(data.subrange(0, 512) =~= data);
    assert(ops.stored(offset1, data).subrange(0, 512) =~= ops.stored(offset1, data));
    assert(ops.stored(offset2, data).subrange(0, 512) =~= ops.stored(offset2, data));
    accepted_requests_are_whole_sectors(ops, offset1, 512);
    accepted_requests_are_whole_sectors(ops, offset2, 512);
    equal_sectors_encrypt_differently(ops.block_cipher@, lba1, lba2, data);
}

/// Where a product cannot be counted the shift drops its highest bits, and
/// nothing else: the offset and the length agree with the products modulo 2^64
/// and 2^32.
pub proof fn descriptors_wrap_past_the_last_byte(
    op_flags: u32,
    start_sector: u64,
    nr_sectors: u32,
    buf_len: usize,
)
    ensures
        match action(op_flags, start_sector, nr_sectors, buf_len) {
            IoAction::Read { offset, len } => {
                &&& op_flags % 256 == 0
                &&& len <= buf_len
                &&& (start_sector * 512 - offset) % 0x1_0000_0000_0000_0000 == 0
                &&& (nr_sectors * 512 - len) % 0x1_0000_0000 == 0
            },
            IoAction::Write { offset, len } => {
                &&& op_flags % 256 == 1
                &&& len <= buf_len
                &&& (start_sector * 512 - offset) % 0x1_0000_0000_0000_0000 == 0
                &&& (nr_sectors * 512 - len) % 0x1_0000_0000 == 0
            },
            IoAction::Flush => op_flags % 256 == 2,
            IoAction::Reject { status } => status == -22,
        },
{
}

/// A request is refused as unaligned exactly where its offset or its length is
/// no whole number of sectors, and as out of range exactly where it is aligned
/// and ends behind the exposed device.
pub proof fn requests_are_refused_for_a_reason(ops: BlkDeviceOps, offset: int, len: int)
    requires
        ops.wf(),
        0 <= offset <= u64::MAX,
        0 <= len,
    ensures
        ({
            let aligned = offset % 512 == 0 && len % 512 == 0;
            match ops.backing(offset, len) {
                Ok(at) => aligned && offset + len <= ops.shadow_size && at
                    == ops.shadow_start_lba * 512 + offset && at <= i64::MAX,
                Err(e) => {
                    &&& e == HazmatError::RequestUnaligned <==> !aligned
                    &&& e == HazmatError::RequestOffsetOverflow <==> aligned && offset + len
                        > u64::MAX
                    &&& e == HazmatError::RequestOutOfRange <==> aligned && ops.shadow_size < offset
                        + len <= u64::MAX
                    &&& aligned && offset + len <= ops.shadow_size ==> ops.shadow_start_lba * 512
                        + offset > i64::MAX
                },
            }
        }),
{
}

/// Transforming goes sector by sector: sector `j` is encrypted or decrypted as
/// sector `j` behind the one that holds the offset, counted from the start of the
/// payload. Sectors that cannot be counted are left as they were, and reported.
pub proof fn sectors_are_transformed_by_their_number(
    ops: BlkDeviceOps,
    offset: int,
    s: Seq<u8>,
    j: int,
)
    requires
        ops.wf(),
        0 <= offset <= u64::MAX,
        s.len() <= usize::MAX,
        s.len() as int % 512 == 0,
        0 <= j,
        j * 512 + 512 <= s.len(),
    ensures
        ({
            let lba = ops.shadow_start_lba + offset / 512 + j;
            let (k, plain) = (ops.block_cipher@, s.subrange(j * 512, j * 512 + 512));
            let (sealed, locked) = ops.transform_outcome(offset, s, true);
            let (opened, shown) = ops.transform_outcome(offset, s, false);
            &&& locked.len() == s.len() && shown.len() == s.len()
            &&& lba <= u64::MAX ==> {
                &&& locked.subrange(j * 512, j * 512 + 512) == encrypted(k, lba as u64, plain)
                &&& shown.subrange(j * 512, j * 512 + 512) == decrypted(k, lba as u64, plain)
            }
            &&& lba > u64::MAX ==> {
                &&& locked.subrange(j * 512, j * 512 + 512) == plain
                &&& shown.subrange(j * 512, j * 512 + 512) == plain
                &&& sealed == Err::<(), HazmatError>(HazmatError::CipherLbaOverflow)
                &&& opened == Err::<(), HazmatError>(HazmatError::CipherLbaOverflow)
            }
            &&& sealed is Ok <==> lba - j + s.len() as int / 512 <= 0x1_0000_0000_0000_0000
            &&& opened is Ok <==> lba - j + s.len() as int / 512 <= 0x1_0000_0000_0000_0000
        }),
{
    let k = ops.block_cipher@;
    let first = ops.backing_lba(offset);
    let count = s.len() as int / 512;
    let n = if first > u64::MAX {
        0
    } else if first + count > u64::MAX + 1 {
        u64::MAX + 1 - first
    } else {
        count
    };
    let (a, b) = (transformed(k, first, 512, s, true, n), transformed(k, first, 512, s, false, n));
    assert(first > u64::MAX ==> a =~= s && b =~= s);
    assert(ops.transform_outcome(offset, s, true).1 == a);
    assert(ops.transform_outcome(offset, s, false).1 == b);
    if j < n {
        lemma_sector_of_transformed(k, first, s, true, n, j);
        lemma_sector_of_transformed(k, first, s, false, n, j);
    } else {
        assert(a.subrange(j * 512, j * 512 + 512) =~= s.subrange(j * 512, j * 512 + 512));
        assert(b.subrange(j * 512, j * 512 + 512) =~= s.subrange(j * 512, j * 512 + 512));
    }
}

/// Whatever the size of a sector, transforming that succeeds encrypts or decrypts
/// each by its own number, and it succeeds where the bytes are whole sectors that
/// can be counted.
pub proof fn sectors_of_any_size_are_transformed_alike(
    ops: BlkDeviceOps,
    offset: int,
    s: Seq<u8>,
    j: int,
)
    requires
        0 < ops.io_device.virtual_blk_size <= usize::MAX,
        0 <= offset <= u64::MAX,
        0 <= j,
        (j + 1) * ops.io_device.virtual_blk_size <= s.len(),
        s.len() as int % ops.io_device.virtual_blk_size as int == 0,
        ops.shadow_start_lba + offset / ops.io_device.virtual_blk_size as int + s.len() as int
            / ops.io_device.virtual_blk_size as int <= u64::MAX,
    ensures
        ({
            let size = ops.io_device.virtual_blk_size as int;
            let lba = (ops.shadow_start_lba + offset / size + j) as u64;
            let plain = s.subrange(j * size, j * size + size);
            let (sealed, locked) = ops.transform_outcome(offset, s, true);
            let (opened, shown) = ops.transform_outcome(offset, s, false);
            &&& sealed is Ok && opened is Ok
            &&& sector(locked, size, j) == encrypted(ops.block_cipher@, lba, plain)
            &&& sector(shown, size, j) == decrypted(ops.block_cipher@, lba, plain)
        }),
{
    let size = ops.sector_size();
    let k = ops.block_cipher@;
    let first = ops.backing_lba(offset);
    let n = s.len() as int / size;
    lemma_div_mod(s.len() as int, size);
    lemma_product(j, size);
    assert(j < n) by (nonlinear_arith)
        requires
            (j + 1) * size <= n * size,
            0 < size,
    ;
    let (a, b) = (
        ops.transform_outcome(offset, s, true).1,
        ops.transform_outcome(offset, s, false).1,
    );
    let plain = sector(s, size, j);
    let (x, y) = (
        encrypted(k, (first + j) as u64, plain),
        decrypted(k, (first + j) as u64, plain),
    );
    assert forall|i: int| 0 <= i < size implies #[trigger] sector(a, size, j)[i] == x[i] by {
        lemma_sector_index(j * size + i, j, size);
    }
    assert forall|i: int| 0 <= i < size implies #[trigger] sector(b, size, j)[i] == y[i] by {
        lemma_sector_index(j * size + i, j, size);
    }
    assert(sector(a, size, j) =~= x);
    assert(sector(b, size, j) =~= y);
}

} // verus!
