//! What can go wrong, and the text that says so.

use vstd::prelude::*;
use vstd::string::*;

use crate::text::{
    all_decimal, decimal, decimal_text, decimal_text_spells_the_number, decimal_value,
    signed_decimal, signed_text, signed_text_spells_the_number,
};

verus! {

/// A refused input or a failed step.
#[derive(Clone, Copy, Debug, PartialEq, Eq, Structural)]
pub enum HazmatError {
    /// The FAT32 partition has more sectors than the boot sector can count.
    PartitionTooLarge,
    /// The FAT32 partition cannot hold a FAT32 file system.
    PartitionTooSmall,
    /// No FAT size matches the clusters that it leaves room for.
    NoStableFatSize,
    /// The FAT32 partition has more reserved sectors than the boot sector can
    /// count.
    ReservedAreaTooLarge,
    /// The structures that the cover disk is built from do not fit it.
    UnsuitableTemplates,
    /// A sector lies beyond what can be addressed.
    LbaTooLarge {
        /// The sector.
        lba: u64,
    },
    /// A range of sectors is too long to count in bytes.
    ZeroRangeTooLarge {
        /// First sector of the range.
        lba: u64,
    },
    /// The logical sector size is not that of the cover disk.
    VirtualBlockSize,
    /// The disk has no room for the partitions.
    DiskTooSmall,
    /// The FAT32 partition does not start with a boot sector.
    BootSignature,
    /// The sectors of the FAT32 partition are not those of the cover disk.
    SectorSize,
    /// The boot sector gives clusters no sectors.
    ZeroSectorsPerCluster,
    /// The boot sector gives the partition no sectors.
    ZeroTotalSectors,
    /// The boot sector gives a FAT no sectors.
    ZeroSectorsPerFat,
    /// The boot sector gives no FAT.
    ZeroFats,
    /// The boot sector leaves no data area in the partition.
    DataAreaOutside,
    /// The partition has too few clusters for FAT32.
    NotFat32Sized,
    /// A sector is too short to hold a header.
    HeaderTooShort {
        /// Bytes in the sector.
        len: usize,
    },
    /// No key can be derived from the password.
    KeyDerivation,
    /// The sector of the hidden header cannot be addressed.
    HeaderLbaTooLarge {
        /// The sector.
        lba: u64,
    },
    /// There is no hidden header, or the password is wrong.
    HeaderNotFound {
        /// The sector looked at.
        lba: u64,
    },
    /// The size of the hidden payload cannot be counted.
    PayloadSizeOverflow,
    /// A request does not cover whole sectors.
    RequestUnaligned,
    /// The end of a request cannot be counted.
    RequestOffsetOverflow,
    /// A request reaches past the exposed device.
    RequestOutOfRange,
    /// A request falls on a sector that cannot be counted.
    BackingLbaOverflow,
    /// A request falls on an offset that cannot be addressed.
    BackingOffsetTooLarge,
    /// The bytes of a request are not whole sectors.
    LengthUnaligned,
    /// A sector to transform cannot be counted.
    CipherLbaOverflow,
    /// The target is neither a block device nor a regular file.
    NotBlockOrFile,
    /// The descriptor could not be moved.
    SeekFailed,
    /// The descriptor could not be flushed.
    SyncFailed,
    /// A write call failed.
    WriteFailed,
    /// A write call at the descriptor's position moved nothing.
    WroteZero,
    /// A write call at an absolute offset moved nothing.
    WroteZeroAt {
        /// Offset of the call.
        offset: i64,
    },
    /// A read call failed.
    ReadFailed,
    /// A read call at the descriptor's position met the end.
    EndOfDevice,
    /// A read call at an absolute offset met the end.
    EndOfDeviceAt {
        /// Offset of the call.
        offset: i64,
    },
    /// A count does not fit in the type that has to hold it.
    CountOutOfRange,
    /// The next offset to read is too large.
    ReadOffsetOverflow,
    /// The next offset to write is too large.
    WriteOffsetOverflow,
    /// The next offset to fill with zeroes is too large.
    ZeroWriteOffsetOverflow,
    /// A real block does not fit in memory.
    BlockSizeTooLarge {
        /// The block size.
        blk_size: u64,
    },
    /// The clock shows a time before 2000-01-02.
    ClockTooEarly,
}

impl HazmatError {
    /// The text of an error on the target `path`. `system` is the system's text
    /// for the call that failed last.
    pub open spec fn text(self, path: Seq<char>, system: Seq<char>) -> Seq<char> {
        match self {
            HazmatError::PartitionTooLarge =>
                "FAT32 partition is too large for this FAT32 BPB writer"@,
            HazmatError::PartitionTooSmall => "partition is too small for FAT32"@,
            HazmatError::NoStableFatSize => "no FAT size fits the FAT32 partition"@,
            HazmatError::ReservedAreaTooLarge =>
                "FAT32 reserved area is too large for this FAT32 BPB writer"@,
            HazmatError::UnsuitableTemplates =>
                "the MSFAT32 templates do not fit the Windows FAT32 layout"@,
            HazmatError::VirtualBlockSize => "MSFAT32 requires a 512-byte virtual block size"@,
            HazmatError::DiskTooSmall => "disk is too small for the Windows FAT32 layout"@,
            HazmatError::BootSignature => "FAT32 boot sector signature was not found at LBA 32768"@,
            HazmatError::SectorSize => "MSFAT32 open requires a 512-byte FAT32 sector"@,
            HazmatError::ZeroSectorsPerCluster => "FAT32 sectors-per-cluster is zero"@,
            HazmatError::ZeroTotalSectors => "FAT32 total sector count is zero"@,
            HazmatError::ZeroSectorsPerFat => "FAT32 sectors-per-FAT is zero"@,
            HazmatError::ZeroFats => "FAT32 FAT count is zero"@,
            HazmatError::DataAreaOutside => "FAT32 data area is outside the partition"@,
            HazmatError::NotFat32Sized => "partition is not FAT32-sized"@,
            HazmatError::KeyDerivation => "failed to derive key out of the password"@,
            HazmatError::PayloadSizeOverflow => "hazmat payload size overflow"@,
            HazmatError::RequestUnaligned => "ublk request is not sector-aligned"@,
            HazmatError::RequestOffsetOverflow => "ublk request offset overflow"@,
            HazmatError::RequestOutOfRange => "ublk request is out of range"@,
            HazmatError::BackingLbaOverflow => "backing LBA overflow"@,
            HazmatError::BackingOffsetTooLarge => "backing offset is too large"@,
            HazmatError::LengthUnaligned => "ublk request length is not sector-aligned"@,
            HazmatError::CipherLbaOverflow => "cipher LBA overflow"@,
            HazmatError::WroteZero => "write wrote zero bytes"@,
            HazmatError::EndOfDevice => "read reached end of device"@,
            HazmatError::CountOutOfRange => "out of range integral type conversion attempted"@,
            HazmatError::ReadOffsetOverflow => "read offset overflow"@,
            HazmatError::WriteOffsetOverflow => "write offset overflow"@,
            HazmatError::ZeroWriteOffsetOverflow => "zero write offset overflow"@,
            HazmatError::ClockTooEarly =>
                "system clock is too early for random timestamp generation"@,
            HazmatError::SeekFailed => "lseek failed; "@ + system,
            HazmatError::SyncFailed => "fsync failed; "@ + system,
            HazmatError::WriteFailed => "write failed; "@ + system,
            HazmatError::ReadFailed => "read failed; "@ + system,
            HazmatError::LbaTooLarge { lba } => "LBA "@ + decimal(lba as nat)
                + " is too large to seek"@,
            HazmatError::ZeroRangeTooLarge { lba } => "zero range at LBA "@ + decimal(lba as nat)
                + " is too large"@,
            HazmatError::HeaderLbaTooLarge { lba } => "hazmat header LBA "@ + decimal(lba as nat)
                + " is too large to seek"@,
            HazmatError::HeaderNotFound { lba } => "hazmat signature was not found at LBA "@
                + decimal(lba as nat) + " or the password is wrong"@,
            HazmatError::WroteZeroAt { offset } => "write at offset "@ + signed_decimal(
                offset as int,
            ) + " wrote zero bytes"@,
            HazmatError::EndOfDeviceAt { offset } => "read at offset "@ + signed_decimal(
                offset as int,
            ) + " reached end of device"@,
            HazmatError::HeaderTooShort { len } =>
                "Condition failed: `buffer.len() >= size_of::<Header>()` ("@ + decimal(len as nat)
                + " vs 32)"@,
            HazmatError::BlockSizeTooLarge { blk_size } =>
                "Condition failed: `self.blk_size <= usize::MAX as u64` ("@ + decimal(
                blk_size as nat,
            ) + " vs "@ + decimal(usize::MAX as nat) + ")"@,
            HazmatError::NotBlockOrFile => "the file '"@ + path + "' is not block or file"@,
        }
    }

    /// Writes the text of an error on the target `path`.
    pub fn message(&self, path: &str, system: &str) -> (text: String)
        ensures
            text@ == self.text(path@, system@),
    {
        proof {
            reveal_strlit("");
        }
        match self {
            HazmatError::PartitionTooLarge => String::from_str(
                "FAT32 partition is too large for this FAT32 BPB writer",
            ),
            HazmatError::PartitionTooSmall => String::from_str("partition is too small for FAT32"),
            HazmatError::NoStableFatSize => String::from_str(
                "no FAT size fits the FAT32 partition",
            ),
            HazmatError::ReservedAreaTooLarge => String::from_str(
                "FAT32 reserved area is too large for this FAT32 BPB writer",
            ),
            HazmatError::UnsuitableTemplates => String::from_str(
                "the MSFAT32 templates do not fit the Windows FAT32 layout",
            ),
            HazmatError::VirtualBlockSize => String::from_str(
                "MSFAT32 requires a 512-byte virtual block size",
            ),
            HazmatError::DiskTooSmall => String::from_str(
                "disk is too small for the Windows FAT32 layout",
            ),
            HazmatError::BootSignature => String::from_str(
                "FAT32 boot sector signature was not found at LBA 32768",
            ),
            HazmatError::SectorSize => String::from_str(
                "MSFAT32 open requires a 512-byte FAT32 sector",
            ),
            HazmatError::ZeroSectorsPerCluster => String::from_str(
                "FAT32 sectors-per-cluster is zero",
            ),
            HazmatError::ZeroTotalSectors => String::from_str("FAT32 total sector count is zero"),
            HazmatError::ZeroSectorsPerFat => String::from_str("FAT32 sectors-per-FAT is zero"),
            HazmatError::ZeroFats => String::from_str("FAT32 FAT count is zero"),
            HazmatError::DataAreaOutside => String::from_str(
                "FAT32 data area is outside the partition",
            ),
            HazmatError::NotFat32Sized => String::from_str("partition is not FAT32-sized"),
            HazmatError::KeyDerivation => String::from_str(
                "failed to derive key out of the password",
            ),
            HazmatError::PayloadSizeOverflow => String::from_str("hazmat payload size overflow"),
            HazmatError::RequestUnaligned => String::from_str("ublk request is not sector-aligned"),
            HazmatError::RequestOffsetOverflow => String::from_str("ublk request offset overflow"),
            HazmatError::RequestOutOfRange => String::from_str("ublk request is out of range"),
            HazmatError::BackingLbaOverflow => String::from_str("backing LBA overflow"),
            HazmatError::BackingOffsetTooLarge => String::from_str("backing offset is too large"),
            HazmatError::LengthUnaligned => String::from_str(
                "ublk request length is not sector-aligned",
            ),
            HazmatError::CipherLbaOverflow => String::from_str("cipher LBA overflow"),
            HazmatError::WroteZero => String::from_str("write wrote zero bytes"),
            HazmatError::EndOfDevice => String::from_str("read reached end of device"),
            HazmatError::CountOutOfRange => String::from_str(
                "out of range integral type conversion attempted",
            ),
            HazmatError::ReadOffsetOverflow => String::from_str("read offset overflow"),
            HazmatError::WriteOffsetOverflow => String::from_str("write offset overflow"),
            HazmatError::ZeroWriteOffsetOverflow => String::from_str("zero write offset overflow"),
            HazmatError::ClockTooEarly => String::from_str(
                "system clock is too early for random timestamp generation",
            ),
            HazmatError::SeekFailed => sentence("lseek failed; ", system, ""),
            HazmatError::SyncFailed => sentence("fsync failed; ", system, ""),
            HazmatError::WriteFailed => sentence("write failed; ", system, ""),
            HazmatError::ReadFailed => sentence("read failed; ", system, ""),
            HazmatError::LbaTooLarge { lba } => sentence(
                "LBA ",
                decimal_text(*lba).as_str(),
                " is too large to seek",
            ),
            HazmatError::ZeroRangeTooLarge { lba } => sentence(
                "zero range at LBA ",
                decimal_text(*lba).as_str(),
                " is too large",
            ),
            HazmatError::HeaderLbaTooLarge { lba } => sentence(
                "hazmat header LBA ",
                decimal_text(*lba).as_str(),
                " is too large to seek",
            ),
            HazmatError::HeaderNotFound { lba } => sentence(
                "hazmat signature was not found at LBA ",
                decimal_text(*lba).as_str(),
                " or the password is wrong",
            ),
            HazmatError::WroteZeroAt { offset } => sentence(
                "write at offset ",
                signed_text(*offset).as_str(),
                " wrote zero bytes",
            ),
            HazmatError::EndOfDeviceAt { offset } => sentence(
                "read at offset ",
                signed_text(*offset).as_str(),
                " reached end of device",
            ),
            HazmatError::HeaderTooShort { len } => sentence(
                "Condition failed: `buffer.len() >= size_of::<Header>()` (",
                decimal_text(*len as u64).as_str(),
                " vs 32)",
            ),
            HazmatError::BlockSizeTooLarge { blk_size } => {
                let sizes = sentence(
                    "Condition failed: `self.blk_size <= usize::MAX as u64` (",
                    decimal_text(*blk_size).as_str(),
                    " vs ",
                );
                sentence(sizes.as_str(), decimal_text(usize::MAX as u64).as_str(), ")")
            },
            HazmatError::NotBlockOrFile => sentence("the file '", path, "' is not block or file"),
        }
    }
}

/// Joins the parts of a sentence.
fn sentence(before: &str, value: &str, after: &str) -> (text: String)
    ensures
        text@ == before@ + value@ + after@,
        after@.len() == 0 ==> text@ == before@ + value@,
{
    let mut text = String::from_str(before);
    text.append(value);
    text.append(after);
    proof {
        if after@.len() == 0 {
            assert(before@ + value@ + after@ =~= before@ + value@);
        }
    }
    text
}

/// An error on a sector, an offset or a length names the number in decimal, one on
/// a target its path, and one on a failed call what the system said.
pub proof fn errors_name_what_failed(e: HazmatError, path: Seq<char>, system: Seq<char>) -> (n:
    Seq<char>)
    ensures
        match e {
            HazmatError::LbaTooLarge { lba } => all_decimal(n) && decimal_value(n) == lba && e.text(
                path,
                system,
            ) == "LBA "@ + n + " is too large to seek"@,
            HazmatError::ZeroRangeTooLarge { lba } => all_decimal(n) && decimal_value(n) == lba
                && e.text(path, system) == "zero range at LBA "@ + n + " is too large"@,
            HazmatError::HeaderLbaTooLarge { lba } => all_decimal(n) && decimal_value(n) == lba
                && e.text(path, system) == "hazmat header LBA "@ + n + " is too large to seek"@,
            HazmatError::HeaderNotFound { lba } => all_decimal(n) && decimal_value(n) == lba
                && e.text(path, system) == "hazmat signature was not found at LBA "@ + n
                + " or the password is wrong"@,
            HazmatError::WroteZeroAt { offset } => {
                &&& offset >= 0 ==> decimal_value(n) == offset
                &&& offset < 0 ==> n[0] == '-' && decimal_value(n.drop_first()) == -offset
                &&& e.text(path, system) == "write at offset "@ + n + " wrote zero bytes"@
            },
            HazmatError::EndOfDeviceAt { offset } => {
                &&& offset >= 0 ==> decimal_value(n) == offset
                &&& offset < 0 ==> n[0] == '-' && decimal_value(n.drop_first()) == -offset
                &&& e.text(path, system) == "read at offset "@ + n + " reached end of device"@
            },
            HazmatError::HeaderTooShort { len } => all_decimal(n) && decimal_value(n) == len
                && e.text(path, system)
                == "Condition failed: `buffer.len() >= size_of::<Header>()` ("@ + n + " vs 32)"@,
            HazmatError::BlockSizeTooLarge { blk_size } => all_decimal(n) && decimal_value(n)
                == blk_size && e.text(path, system)
                == "Condition failed: `self.blk_size <= usize::MAX as u64` ("@ + n + " vs "@
                + decimal(usize::MAX as nat) + ")"@,
            HazmatError::NotBlockOrFile => e.text(path, system) == "the file '"@ + path
                + "' is not block or file"@,
            HazmatError::SeekFailed => e.text(path, system) == "lseek failed; "@ + system,
            HazmatError::SyncFailed => e.text(path, system) == "fsync failed; "@ + system,
            HazmatError::WriteFailed => e.text(path, system) == "write failed; "@ + system,
            HazmatError::ReadFailed => e.text(path, system) == "read failed; "@ + system,
            _ => true,
        },
{
    match e {
        HazmatError::LbaTooLarge { lba } => {
            decimal_text_spells_the_number(lba as nat);
            decimal(lba as nat)
        },
        HazmatError::ZeroRangeTooLarge { lba } => {
            decimal_text_spells_the_number(lba as nat);
            decimal(lba as nat)
        },
        HazmatError::HeaderLbaTooLarge { lba } => {
            decimal_text_spells_the_number(lba as nat);
            decimal(lba as nat)
        },
        HazmatError::HeaderNotFound { lba } => {
            decimal_text_spells_the_number(lba as nat);
            decimal(lba as nat)
        },
        HazmatError::WroteZeroAt { offset } => {
            signed_text_spells_the_number(offset as int);
            signed_decimal(offset as int)
        },
        HazmatError::EndOfDeviceAt { offset } => {
            signed_text_spells_the_number(offset as int);
            signed_decimal(offset as int)
        },
        HazmatError::HeaderTooShort { len } => {
            decimal_text_spells_the_number(len as nat);
            decimal(len as nat)
        },
        HazmatError::BlockSizeTooLarge { blk_size } => {
            decimal_text_spells_the_number(blk_size as nat);
            decimal(blk_size as nat)
        },
        _ => Seq::empty(),
    }
}

} // verus!
