use hazmat::error::HazmatError;

fn text(e: HazmatError) -> String {
    e.message("/dev/sdz", "Input/output error")
}

#[test]
fn plain_errors_have_their_texts() {
    let expected = [
        (
            HazmatError::PartitionTooLarge,
            "FAT32 partition is too large for this FAT32 BPB writer",
        ),
        (HazmatError::PartitionTooSmall, "partition is too small for FAT32"),
        (HazmatError::NoStableFatSize, "no FAT size fits the FAT32 partition"),
        (
            HazmatError::ReservedAreaTooLarge,
            "FAT32 reserved area is too large for this FAT32 BPB writer",
        ),
        (
            HazmatError::UnsuitableTemplates,
            "the MSFAT32 templates do not fit the Windows FAT32 layout",
        ),
        (HazmatError::VirtualBlockSize, "MSFAT32 requires a 512-byte virtual block size"),
        (HazmatError::DiskTooSmall, "disk is too small for the Windows FAT32 layout"),
        (
            HazmatError::BootSignature,
            "FAT32 boot sector signature was not found at LBA 32768",
        ),
        (HazmatError::SectorSize, "MSFAT32 open requires a 512-byte FAT32 sector"),
        (HazmatError::ZeroSectorsPerCluster, "FAT32 sectors-per-cluster is zero"),
        (HazmatError::ZeroTotalSectors, "FAT32 total sector count is zero"),
        (HazmatError::ZeroSectorsPerFat, "FAT32 sectors-per-FAT is zero"),
        (HazmatError::ZeroFats, "FAT32 FAT count is zero"),
        (HazmatError::DataAreaOutside, "FAT32 data area is outside the partition"),
        (HazmatError::NotFat32Sized, "partition is not FAT32-sized"),
        (HazmatError::KeyDerivation, "failed to derive key out of the password"),
        (HazmatError::PayloadSizeOverflow, "hazmat payload size overflow"),
        (HazmatError::RequestUnaligned, "ublk request is not sector-aligned"),
        (HazmatError::RequestOffsetOverflow, "ublk request offset overflow"),
        (HazmatError::RequestOutOfRange, "ublk request is out of range"),
        (HazmatError::BackingLbaOverflow, "backing LBA overflow"),
        (HazmatError::BackingOffsetTooLarge, "backing offset is too large"),
        (HazmatError::LengthUnaligned, "ublk request length is not sector-aligned"),
        (HazmatError::CipherLbaOverflow, "cipher LBA overflow"),
        (HazmatError::WroteZero, "write wrote zero bytes"),
        (HazmatError::EndOfDevice, "read reached end of device"),
        (
            HazmatError::CountOutOfRange,
            "out of range integral type conversion attempted",
        ),
        (HazmatError::ReadOffsetOverflow, "read offset overflow"),
        (HazmatError::WriteOffsetOverflow, "write offset overflow"),
        (HazmatError::ZeroWriteOffsetOverflow, "zero write offset overflow"),
        (
            HazmatError::ClockTooEarly,
            "system clock is too early for random timestamp generation",
        ),
    ];
    for (e, t) in expected {
        assert_eq!(text(e), t);
    }
    assert_eq!(
        text(HazmatError::CountOutOfRange),
        usize::try_from(-1isize).unwrap_err().to_string()
    );
}

#[test]
fn errors_name_what_they_are_about() {
    assert_eq!(text(HazmatError::LbaTooLarge { lba: 7 }), "LBA 7 is too large to seek");
    assert_eq!(
        text(HazmatError::ZeroRangeTooLarge { lba: u64::MAX }),
        "zero range at LBA 18446744073709551615 is too large"
    );
    assert_eq!(
        text(HazmatError::HeaderLbaTooLarge { lba: 10 }),
        "hazmat header LBA 10 is too large to seek"
    );
    assert_eq!(
        text(HazmatError::HeaderNotFound { lba: 42_824 }),
        "hazmat signature was not found at LBA 42824 or the password is wrong"
    );
    assert_eq!(
        text(HazmatError::WroteZeroAt { offset: -5 }),
        "write at offset -5 wrote zero bytes"
    );
    assert_eq!(
        text(HazmatError::EndOfDeviceAt { offset: i64::MIN }),
        "read at offset -9223372036854775808 reached end of device"
    );
    assert_eq!(
        text(HazmatError::HeaderTooShort { len: 31 }),
        "Condition failed: `buffer.len() >= size_of::<Header>()` (31 vs 32)"
    );
    assert_eq!(
        text(HazmatError::BlockSizeTooLarge { blk_size: 7 }),
        format!(
            "Condition failed: `self.blk_size <= usize::MAX as u64` (7 vs {})",
            usize::MAX
        )
    );
    assert_eq!(
        text(HazmatError::NotBlockOrFile),
        "the file '/dev/sdz' is not block or file"
    );
}

#[test]
fn failed_calls_carry_the_system_text() {
    assert_eq!(text(HazmatError::SeekFailed), "lseek failed; Input/output error");
    assert_eq!(text(HazmatError::SyncFailed), "fsync failed; Input/output error");
    assert_eq!(text(HazmatError::WriteFailed), "write failed; Input/output error");
    assert_eq!(text(HazmatError::ReadFailed), "read failed; Input/output error");
}
