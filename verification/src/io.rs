//! The target device: its block accounting, and the requests that move bytes to
//! and from it.

use vstd::prelude::*;
use vstd::string::*;

use crate::error::HazmatError;
use crate::sizes::{byte_size, byte_size_text};
use crate::text::{
    all_decimal, decimal, decimal_text, decimal_text_spells_the_number, decimal_value,
};
use crate::utils::{print_report, report_row};

verus! {

/// Label width of the device report.
pub const REPORT_LABEL_WIDTH: usize = 16;

/// Bytes of zeroes in one write of a zeroed range.
pub const ZERO_WRITE_BYTES: u64 = 1_048_576;

/// The logical sector size used by filesystem writers.
pub const VIRTUAL_SECTOR_SIZE: u64 = 512;

/// File mode bits that tell what kind of file it is.
pub const S_IFMT: u32 = 0o170000;

/// File mode bits of a block device.
pub const S_IFBLK: u32 = 0o060000;

/// File mode bits of a regular file.
pub const S_IFREG: u32 = 0o100000;

/// What the system reports of an opened target.
#[derive(Clone, Copy, Debug, PartialEq, Eq, Structural)]
pub struct RawStat {
    /// File mode.
    pub st_mode: u32,
    /// Size of a regular file, in bytes.
    pub st_size: i64,
    /// Preferred block size of a regular file, in bytes.
    pub st_blksize: i64,
    /// Size of a block device, in bytes; not looked at for a regular file.
    pub device_size: u64,
    /// Sector size of a block device, in bytes; not looked at for a regular
    /// file.
    pub device_blk_size: u64,
}

/// Whether a file mode shows a block device (`Some(true)`), a regular file
/// (`Some(false)`), or neither.
pub open spec fn block_mode(mode: u32) -> Option<bool> {
    if mode & S_IFMT == S_IFBLK {
        Some(true)
    } else if mode & S_IFMT == S_IFREG {
        Some(false)
    } else {
        None
    }
}

impl RawStat {
    /// Byte length of the target.
    pub open spec fn total_size(self, is_blk: bool) -> u64 {
        if is_blk {
            self.device_size
        } else {
            self.st_size as u64
        }
    }

    /// Real block size of the target.
    pub open spec fn blk_size(self, is_blk: bool) -> u64 {
        if is_blk {
            self.device_blk_size
        } else {
            self.st_blksize as u64
        }
    }
}

/// `n` rounded down to a multiple of `d`.
pub open spec fn rounded_down(n: u64, d: u64) -> u64 {
    (n - n % d) as u64
}

/// Tells a block device from a regular file by its mode.
pub fn file_kind(mode: u32) -> (kind: Result<bool, HazmatError>)
    ensures
        match kind {
            Ok(is_blk) => block_mode(mode) == Some(is_blk),
            Err(e) => e == HazmatError::NotBlockOrFile && block_mode(mode) is None,
        },
{
    if mode & S_IFMT == S_IFBLK {
        Ok(true)
    } else if mode & S_IFMT == S_IFREG {
        Ok(false)
    } else {
        Err(HazmatError::NotBlockOrFile)
    }
}

/// The size, the real block size and the number of full real blocks of a
/// target. For regular files the preferred block size is kept as the write
/// block of the random-fill pass.
pub fn ll_stat(is_blk: bool, stat: &RawStat) -> (sizes: (u64, u64, u64))
    requires
        stat.blk_size(is_blk) != 0,
    ensures
        sizes.0 == stat.total_size(is_blk),
        sizes.1 == stat.blk_size(is_blk),
        sizes.2 == stat.total_size(is_blk) / stat.blk_size(is_blk),
{
    let total_size: u64 = if is_blk {
        stat.device_size
    } else {
        stat.st_size as u64
    };
    let blk_size: u64 = if is_blk {
        stat.device_blk_size
    } else {
        stat.st_blksize as u64
    };
    (total_size, blk_size, total_size / blk_size)
}

/// Real and virtual block accounting of a target.
#[derive(Clone, Copy, Debug, PartialEq, Eq, Structural)]
pub struct StatCheckFileResult {
    /// True for a block device.
    pub is_blk: bool,
    /// Full byte length.
    pub total_size: u64,
    /// Real block size.
    pub blk_size: u64,
    /// Full real blocks in `total_size`.
    pub blk_count: u64,
    /// Logical sector size.
    pub virtual_blk_size: u64,
    /// Full logical sectors in `total_size`.
    pub virtual_blk_count: u64,
    /// Byte length rounded down to whole logical sectors.
    pub virtual_usable_size: u64,
    /// Byte length rounded down to whole real blocks.
    pub usable_size: u64,
    /// Full real blocks in `usable_size`.
    pub usable_blk_count: u64,
}

/// The accounting of a target of `total_size` bytes in blocks of `blk_size`.
pub open spec fn accounting(is_blk: bool, total_size: u64, blk_size: u64) -> StatCheckFileResult {
    StatCheckFileResult {
        is_blk,
        total_size,
        blk_size,
        blk_count: total_size / blk_size,
        virtual_blk_size: VIRTUAL_SECTOR_SIZE,
        virtual_blk_count: total_size / VIRTUAL_SECTOR_SIZE,
        virtual_usable_size: rounded_down(total_size, VIRTUAL_SECTOR_SIZE),
        usable_size: rounded_down(total_size, blk_size),
        usable_blk_count: total_size / blk_size,
    }
}

proof fn lemma_rounded_down(n: u64, d: u64)
    requires
        d != 0,
    ensures
        0 <= n % d <= n,
        rounded_down(n, d) / d == n / d,
        rounded_down(n, d) as int == (n / d) * d,
        rounded_down(n, d) <= n,
        n % d == 0 ==> rounded_down(n, d) == n,
{
    vstd::arithmetic::div_mod::lemma_fundamental_div_mod(n as int, d as int);
    vstd::arithmetic::div_mod::lemma_mod_bound(n as int, d as int);
    vstd::arithmetic::div_mod::lemma_mod_decreases(n as nat, d as nat);
    vstd::arithmetic::div_mod::lemma_div_by_multiple((n / d) as int, d as int);
    vstd::arithmetic::mul::lemma_mul_is_commutative((n / d) as int, d as int);
    let q = (n / d) as int;
    assert(0 <= q * d) by (nonlinear_arith)
        requires
            q >= 0,
            d >= 0,
    ;
}

/// Builds both real block accounting and virtual block accounting. The virtual
/// block size is the logical disk sector size used by filesystem writers.
pub fn stat_check_file(stat: &RawStat) -> (result: Result<StatCheckFileResult, HazmatError>)
    requires
        block_mode(stat.st_mode) matches Some(is_blk) ==> stat.blk_size(is_blk) != 0,
    ensures
        match result {
            Ok(r) => block_mode(stat.st_mode) == Some(r.is_blk) && r == accounting(
                r.is_blk,
                stat.total_size(r.is_blk),
                stat.blk_size(r.is_blk),
            ),
            Err(e) => e == HazmatError::NotBlockOrFile && block_mode(stat.st_mode) is None,
        },
{
    let is_blk: bool = match file_kind(stat.st_mode) {
        Ok(is_blk) => is_blk,
        Err(e) => {
            return Err(e);
        },
    };
    let (total_size, blk_size, blk_count) = ll_stat(is_blk, stat);
    proof {
        lemma_rounded_down(total_size, VIRTUAL_SECTOR_SIZE);
        lemma_rounded_down(total_size, blk_size);
    }
    let virtual_blk_size: u64 = VIRTUAL_SECTOR_SIZE;
    let virtual_usable_size: u64 = total_size - (total_size % virtual_blk_size);
    let virtual_blk_count: u64 = virtual_usable_size / virtual_blk_size;
    let usable_size: u64 = if total_size % blk_size != 0 {
        total_size - (total_size % blk_size)
    } else {
        total_size
    };
    let usable_blk_count: u64 = usable_size / blk_size;
    Ok(
        StatCheckFileResult {
            is_blk,
            total_size,
            blk_size,
            blk_count,
            virtual_blk_size,
            virtual_blk_count,
            virtual_usable_size,
            usable_size,
            usable_blk_count,
        },
    )
}

/// Open file or block device plus the size/accounting data used by commands.
///
/// `blk_*` fields describe the real OS block size used for streaming random
/// data. `virtual_*` fields describe the logical sector size used by disk
/// structure writers such as the MSFAT32 generator.
#[derive(Clone, Copy, Debug, PartialEq, Eq, Structural)]
pub struct IoDevice {
    /// Raw file descriptor for the opened target.
    pub fd: i32,
    /// True when the target is a block device, false for a regular file.
    pub is_blk_device: bool,
    /// Full byte length reported by the OS.
    pub total_size: u64,
    /// Real block size used for streaming writes.
    pub blk_size: u64,
    /// Number of full real blocks in `total_size`.
    pub blk_count: u64,
    /// Logical sector size used by filesystem/layout code.
    pub virtual_blk_size: u64,
    /// Number of full virtual blocks in `total_size`.
    pub virtual_blk_count: u64,
    /// Byte length rounded down to `virtual_blk_size`.
    pub virtual_usable_size: u64,
    /// Byte length rounded down to `blk_size`.
    pub usable_size: u64,
    /// Number of full real blocks in `usable_size`.
    pub usable_blk_count: u64,
}

/// The device that a descriptor and its accounting make.
pub open spec fn device_with(fd: i32, r: StatCheckFileResult) -> IoDevice {
    IoDevice {
        fd,
        is_blk_device: r.is_blk,
        total_size: r.total_size,
        blk_size: r.blk_size,
        blk_count: r.blk_count,
        virtual_blk_size: r.virtual_blk_size,
        virtual_blk_count: r.virtual_blk_count,
        virtual_usable_size: r.virtual_usable_size,
        usable_size: r.usable_size,
        usable_blk_count: r.usable_blk_count,
    }
}

/// The rows of the device report.
pub open spec fn stats_rows(d: IoDevice) -> Seq<Seq<char>> {
    stats_rows_with(d, byte_size_text(d.total_size), byte_size_text(d.usable_size))
}

/// The rows of the device report, with its two sizes written as `total` and
/// `available`.
pub open spec fn stats_rows_with(d: IoDevice, total: Seq<char>, available: Seq<char>) -> Seq<
    Seq<char>,
> {
    let w = REPORT_LABEL_WIDTH as int;
    let common = seq![
        report_row(
            "is block"@,
            if d.is_blk_device {
                "true"@
            } else {
                "false"@
            },
            w,
        ),
        report_row("total bytes"@, total, w),
        report_row("block size"@, decimal(d.blk_size as nat), w),
        report_row("total blocks"@, decimal(d.blk_count as nat), w),
        report_row("virtual block"@, decimal(d.virtual_blk_size as nat), w),
        report_row("virtual blocks"@, decimal(d.virtual_blk_count as nat), w),
    ];
    if d.is_blk_device {
        common + seq![
            report_row("available bytes"@, available, w),
            report_row("available blocks"@, decimal(d.usable_blk_count as nat), w),
        ]
    } else {
        common
    }
}

/// The texts of strings.
pub open spec fn texts(s: Seq<String>) -> Seq<Seq<char>> {
    s.map_values(|t: String| t@)
}

/// Which way bytes move.
#[derive(Clone, Copy, Debug, PartialEq, Eq, Structural)]
pub enum Direction {
    /// From the device.
    Read,
    /// To the device.
    Write,
}

/// What a byte count returned by one read or write call means. A call may move
/// fewer bytes than asked for, but none at all is a failure.
pub open spec fn count_meaning(
    direction: Direction,
    offset: Option<i64>,
    res: isize,
) -> Result<isize, HazmatError> {
    if res == -1 {
        Err(
            match direction {
                Direction::Read => HazmatError::ReadFailed,
                Direction::Write => HazmatError::WriteFailed,
            },
        )
    } else if res == 0 {
        Err(
            match (direction, offset) {
                (Direction::Read, None) => HazmatError::EndOfDevice,
                (Direction::Read, Some(offset)) => HazmatError::EndOfDeviceAt { offset },
                (Direction::Write, None) => HazmatError::WroteZero,
                (Direction::Write, Some(offset)) => HazmatError::WroteZeroAt { offset },
            },
        )
    } else {
        Ok(res)
    }
}

fn checked_count(direction: Direction, offset: Option<i64>, res: isize) -> (result: Result<
    isize,
    HazmatError,
>)
    ensures
        result == count_meaning(direction, offset, res),
{
    if res == -1 {
        match direction {
            Direction::Read => Err(HazmatError::ReadFailed),
            Direction::Write => Err(HazmatError::WriteFailed),
        }
    } else if res == 0 {
        match (direction, offset) {
            (Direction::Read, None) => Err(HazmatError::EndOfDevice),
            (Direction::Read, Some(offset)) => Err(HazmatError::EndOfDeviceAt { offset }),
            (Direction::Write, None) => Err(HazmatError::WroteZero),
            (Direction::Write, Some(offset)) => Err(HazmatError::WroteZeroAt { offset }),
        }
    } else {
        Ok(res)
    }
}

impl IoDevice {
    /// The accounting fits together, as `new` makes it.
    pub open spec fn wf(self) -> bool {
        &&& self.blk_size != 0
        &&& self == device_with(
            self.fd,
            accounting(self.is_blk_device, self.total_size, self.blk_size),
        )
    }

    /// Collects real and virtual block geometry of an opened target.
    pub fn new(fd: i32, stat: &RawStat) -> (result: Result<IoDevice, HazmatError>)
        requires
            block_mode(stat.st_mode) matches Some(is_blk) ==> stat.blk_size(is_blk) != 0,
        ensures
            match result {
                Ok(d) => {
                    &&& d.wf()
                    &&& d.fd == fd
                    &&& block_mode(stat.st_mode) == Some(d.is_blk_device)
                    &&& d.total_size == stat.total_size(d.is_blk_device)
                    &&& d.blk_size == stat.blk_size(d.is_blk_device)
                },
                Err(e) => e == HazmatError::NotBlockOrFile && block_mode(stat.st_mode) is None,
            },
    {
        match stat_check_file(stat) {
            Ok(stats) => Ok(
                IoDevice {
                    fd,
                    is_blk_device: stats.is_blk,
                    total_size: stats.total_size,
                    blk_size: stats.blk_size,
                    blk_count: stats.blk_count,
                    virtual_blk_size: stats.virtual_blk_size,
                    virtual_blk_count: stats.virtual_blk_count,
                    virtual_usable_size: stats.virtual_usable_size,
                    usable_size: stats.usable_size,
                    usable_blk_count: stats.usable_blk_count,
                },
            ),
            Err(e) => Err(e),
        }
    }

    /// The rows that show the device geometry used by format and sanitize.
    pub fn display_stats(&self) -> (rows: Vec<String>)
        ensures
            texts(rows@) == stats_rows(*self),
    {
        let total = byte_size(self.total_size);
        let available = byte_size(self.usable_size);
        self.stats_report(total.as_str(), available.as_str())
    }

    /// The rows that show the device geometry, with its two sizes written as
    /// `total` and `available`.
    pub fn stats_report(&self, total: &str, available: &str) -> (rows: Vec<String>)
        ensures
            texts(rows@) == stats_rows_with(*self, total@, available@),
    {
        let w: usize = REPORT_LABEL_WIDTH;
        let mut rows: Vec<String> = Vec::new();
        let kind: &str = if self.is_blk_device {
            "true"
        } else {
            "false"
        };
        rows.push(print_report("is block", kind, w));
        rows.push(print_report("total bytes", total, w));
        rows.push(print_report("block size", decimal_text(self.blk_size).as_str(), w));
        rows.push(print_report("total blocks", decimal_text(self.blk_count).as_str(), w));
        rows.push(print_report("virtual block", decimal_text(self.virtual_blk_size).as_str(), w));
        rows.push(print_report("virtual blocks", decimal_text(self.virtual_blk_count).as_str(), w));
        if self.is_blk_device {
            rows.push(print_report("available bytes", available, w));
            rows.push(
                print_report("available blocks", decimal_text(self.usable_blk_count).as_str(), w),
            );
        }
        proof {
            assert(texts(rows@) =~= stats_rows_with(*self, total@, available@));
        }
        rows
    }

    /// Judges the position that seeking the descriptor returned.
    pub fn seek(&self, res: i64) -> (result: Result<(), HazmatError>)
        ensures
            result == if res == -1 {
                Err::<(), HazmatError>(HazmatError::SeekFailed)
            } else {
                Ok(())
            },
    {
        if res == -1 {
            Err(HazmatError::SeekFailed)
        } else {
            Ok(())
        }
    }

    /// Judges what flushing the descriptor returned.
    pub fn sync(&self, res: i32) -> (result: Result<(), HazmatError>)
        ensures
            result == if res == -1 {
                Err::<(), HazmatError>(HazmatError::SyncFailed)
            } else {
                Ok(())
            },
    {
        if res == -1 {
            Err(HazmatError::SyncFailed)
        } else {
            Ok(())
        }
    }

    /// Judges the count of one write at the descriptor's position: it may be
    /// partial, but zero is never a success.
    pub fn write(&self, res: isize) -> (result: Result<isize, HazmatError>)
        ensures
            result == count_meaning(Direction::Write, None, res),
    {
        checked_count(Direction::Write, None, res)
    }

    /// Judges the count of one read at the descriptor's position: it may be
    /// partial, but zero is never a success.
    pub fn read(&self, res: isize) -> (result: Result<isize, HazmatError>)
        ensures
            result == count_meaning(Direction::Read, None, res),
    {
        checked_count(Direction::Read, None, res)
    }

    /// Judges the count of one read at an absolute offset.
    pub fn read_at(&self, offset: i64, res: isize) -> (result: Result<isize, HazmatError>)
        ensures
            result == count_meaning(Direction::Read, Some(offset), res),
    {
        checked_count(Direction::Read, Some(offset), res)
    }

    /// Judges the count of one write at an absolute offset.
    pub fn write_at(&self, offset: i64, res: isize) -> (result: Result<isize, HazmatError>)
        ensures
            result == count_meaning(Direction::Write, Some(offset), res),
    {
        checked_count(Direction::Write, Some(offset), res)
    }
}

/// The four bits of a file mode above the permissions tell a block device, which
/// is kind six, and a regular file, which is kind eight, from all else.
pub proof fn file_modes_tell_devices_from_files(mode: u32)
    ensures
        block_mode(mode) == Some(true) <==> mode / 4096 % 16 == 6,
        block_mode(mode) == Some(false) <==> mode / 4096 % 16 == 8,
{
    assert(mode & 0o170000 == 0o060000 <==> mode / 4096 % 16 == 6) by (bit_vector);
    assert(mode & 0o170000 == 0o100000 <==> mode / 4096 % 16 == 8) by (bit_vector);
}

/// The sizes of a block device are those that the device gives, and the sizes of
/// a regular file those of its status.
pub proof fn sizes_come_from_device_or_file(stat: RawStat)
    ensures
        stat.total_size(true) == stat.device_size,
        stat.blk_size(true) == stat.device_blk_size,
        stat.st_size >= 0 ==> stat.total_size(false) == stat.st_size,
        stat.st_blksize >= 0 ==> stat.blk_size(false) == stat.st_blksize,
{
}

/// The accounting counts the whole blocks and the whole logical sectors of 512
/// bytes that a target holds, and the bytes that these take.
pub proof fn accounting_counts_whole_blocks(is_blk: bool, total_size: u64, blk_size: u64)
    requires
        blk_size != 0,
    ensures
        ({
            let a = accounting(is_blk, total_size, blk_size);
            &&& a.is_blk == is_blk && a.total_size == total_size && a.blk_size == blk_size
            &&& a.blk_count * blk_size <= total_size < (a.blk_count + 1) * blk_size
            &&& a.usable_size == a.blk_count * blk_size
            &&& a.usable_blk_count == a.blk_count
            &&& a.virtual_blk_size == 512
            &&& a.virtual_blk_count * 512 <= total_size < (a.virtual_blk_count + 1) * 512
            &&& a.virtual_usable_size == a.virtual_blk_count * 512
        }),
{
    let (n, b) = (total_size as int, blk_size as int);
    lemma_rounded_down(total_size, blk_size);
    lemma_rounded_down(total_size, VIRTUAL_SECTOR_SIZE);
    vstd::arithmetic::div_mod::lemma_fundamental_div_mod(n, b);
    vstd::arithmetic::div_mod::lemma_mod_bound(n, b);
    let q = n / b;
    assert(q * b <= n < (q + 1) * b) by (nonlinear_arith)
        requires
            n == b * q + n % b,
            0 <= n % b < b,
    ;
}

/// A device shows the accounting of its target, field by field.
pub proof fn devices_count_whole_blocks(d: IoDevice)
    requires
        d.wf(),
    ensures
        d.blk_count * d.blk_size <= d.total_size < (d.blk_count + 1) * d.blk_size,
        d.usable_size == d.blk_count * d.blk_size,
        d.usable_blk_count == d.blk_count,
        d.virtual_blk_size == 512,
        d.virtual_blk_count * 512 <= d.total_size < (d.virtual_blk_count + 1) * 512,
        d.virtual_usable_size == d.virtual_blk_count * 512,
{
    accounting_counts_whole_blocks(d.is_blk_device, d.total_size, d.blk_size);
}

/// A call that moved none or returned -1 failed, and the error tells reads from
/// writes and names the offset; any other count is handed on as it is.
pub proof fn calls_succeed_by_moving_bytes(offset: i64, res: isize)
    ensures
        ({
            let (r, w) = (Direction::Read, Direction::Write);
            let at = Some(offset);
            &&& forall|d: Direction, o: Option<i64>|
                res > 0 || res < -1 ==> #[trigger] count_meaning(d, o, res) == Ok::<isize, HazmatError>(res)
            &&& forall|d: Direction, o: Option<i64>|
                res == 0 || res == -1 ==> #[trigger] count_meaning(d, o, res) is Err
            &&& res == -1 ==> {
                &&& count_meaning(r, None, res)->Err_0 == HazmatError::ReadFailed
                &&& count_meaning(r, at, res)->Err_0 == HazmatError::ReadFailed
                &&& count_meaning(w, None, res)->Err_0 == HazmatError::WriteFailed
                &&& count_meaning(w, at, res)->Err_0 == HazmatError::WriteFailed
            }
            &&& res == 0 ==> {
                &&& count_meaning(r, None, res)->Err_0 == HazmatError::EndOfDevice
                &&& count_meaning(r, at, res)->Err_0 == HazmatError::EndOfDeviceAt { offset }
                &&& count_meaning(w, None, res)->Err_0 == HazmatError::WroteZero
                &&& count_meaning(w, at, res)->Err_0 == HazmatError::WroteZeroAt { offset }
            }
        }),
{
}

/// The report shows each number of the device in decimal under its label, and
/// what can be filled of it for a block device alone.
pub proof fn device_reports_spell_the_numbers(
    d: IoDevice,
    total: Seq<char>,
    available: Seq<char>,
) -> (n: Seq<Seq<char>>)
    ensures
        n.len() == 5,
        decimal_value(n[0]) == d.blk_size,
        decimal_value(n[1]) == d.blk_count,
        decimal_value(n[2]) == d.virtual_blk_size,
        decimal_value(n[3]) == d.virtual_blk_count,
        decimal_value(n[4]) == d.usable_blk_count,
        forall|i: int| 0 <= i < 5 ==> all_decimal(#[trigger] n[i]),
        ({
            let rows = stats_rows_with(d, total, available);
            &&& rows.len() == if d.is_blk_device {
                8nat
            } else {
                6
            }
            &&& d.is_blk_device ==> rows[0] == report_row("is block"@, "true"@, 16)
            &&& !d.is_blk_device ==> rows[0] == report_row("is block"@, "false"@, 16)
            &&& rows[1] == report_row("total bytes"@, total, 16)
            &&& rows[2] == report_row("block size"@, n[0], 16)
            &&& rows[3] == report_row("total blocks"@, n[1], 16)
            &&& rows[4] == report_row("virtual block"@, n[2], 16)
            &&& rows[5] == report_row("virtual blocks"@, n[3], 16)
            &&& d.is_blk_device ==> rows[6] == report_row("available bytes"@, available, 16)
            &&& d.is_blk_device ==> rows[7] == report_row("available blocks"@, n[4], 16)
        }),
        stats_rows(d) == stats_rows_with(
            d,
            byte_size_text(d.total_size),
            byte_size_text(d.usable_size),
        ),
{
    decimal_text_spells_the_number(d.blk_size as nat);
    decimal_text_spells_the_number(d.blk_count as nat);
    decimal_text_spells_the_number(d.virtual_blk_size as nat);
    decimal_text_spells_the_number(d.virtual_blk_count as nat);
    decimal_text_spells_the_number(d.usable_blk_count as nat);
    seq![
        decimal(d.blk_size as nat),
        decimal(d.blk_count as nat),
        decimal(d.virtual_blk_size as nat),
        decimal(d.virtual_blk_count as nat),
        decimal(d.usable_blk_count as nat),
    ]
}

/// The texts of strings are those of each, in order.
pub proof fn texts_keep_their_order(s: Seq<String>, i: int)
    requires
        0 <= i < s.len(),
    ensures
        texts(s).len() == s.len(),
        texts(s)[i] == s[i]@,
{
}

} // verus!
