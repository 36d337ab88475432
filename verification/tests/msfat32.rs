use hazmat::error::HazmatError;
use hazmat::io::{IoDevice, RawStat, S_IFREG};
use hazmat::msfat32::boot::{
    first_unused_cluster_lba, read_boot_sector, read_fat32_disk_layout, read_lba, Fat32DiskLayout,
};
use hazmat::msfat32::calendar::civil_from_unix_days;
use hazmat::msfat32::crc::crc32;
use hazmat::msfat32::fat::{
    patched_fat32_reserved_region, patched_fat_prefix, patched_root_cluster,
};
use hazmat::msfat32::geometry::{
    fat32_geometry, Fat32Geometry, FAT32_FATS, FAT32_START_LBA, SECTOR_SIZE,
};
use hazmat::msfat32::gpt::{patched_gpt_entries, patched_gpt_header, patched_protective_mbr};
use hazmat::msfat32::ids::{random_u64, FatTimestamp, GeneratedIds, Guid, IdRandom};
use hazmat::msfat32::plan::{
    disk_layout, fat32_usable_size, lba_offset, write_at_lba, write_fixed_blob, write_structures,
    write_zeroes_at_lba, Blob, DiskWrite, Templates, MIN_TRAILING_GAP_SECTORS,
};

fn device(size: i64) -> IoDevice {
    let stat = RawStat {
        st_mode: S_IFREG | 0o644,
        st_size: size,
        st_blksize: 4096,
        device_size: 0,
        device_blk_size: 0,
    };
    IoDevice::new(3, &stat).unwrap()
}

fn random() -> IdRandom {
    IdRandom {
        volume_id: [1, 2, 3, 4],
        disk: [0x10; 16],
        msr: [0x20; 16],
        basic: [0x30; 16],
        day: [1, 0, 0, 0, 0, 0, 0, 0],
        second: [3, 0, 0, 0, 0, 0, 0, 0],
        tenth: [3, 0, 0, 0, 0, 0, 0, 0],
    }
}

fn templates() -> Templates {
    let mut fat32_reserved = vec![6; 16_384];
    fat32_reserved[..512].copy_from_slice(&boot());
    Templates {
        protective_mbr: [1; 512],
        gpt_primary_header: [2; 512],
        gpt_backup_header: [3; 512],
        gpt_entries: vec![4; 16_384],
        msr_prefix: vec![5; 700],
        fat32_reserved,
        fat_prefix: vec![7; 1_000],
        root_cluster: vec![8; 4_096],
    }
}

// Verify the CRC implementation against the standard test vector.
#[test]
fn crc32_matches_gpt_known_value() {
    assert_eq!(crc32(b"123456789"), 0xcbf4_3926);
}

// Verify the four-GiB geometry against the observed Windows disk image.
#[test]
fn geometry_fits_four_gib_disk() {
    let disk_sectors = 4 * 1024 * 1024 * 1024_u64 / SECTOR_SIZE;
    let fat32_end_lba = disk_sectors - MIN_TRAILING_GAP_SECTORS - 1;
    let geometry = fat32_geometry(fat32_end_lba).unwrap();

    assert_eq!(geometry.partition_end_lba, fat32_end_lba);
    assert_eq!(
        geometry.data_start_lba,
        FAT32_START_LBA + geometry.reserved_sectors + FAT32_FATS * geometry.sectors_per_fat
    );
    assert_eq!(geometry.reserved_sectors, 102);
    assert_eq!(geometry.sectors_per_fat, 8_141);
    assert_eq!(geometry.data_start_lba, 49_152);
    assert!(geometry.total_clusters >= 65_525);
}

// Ensure file-backed images use 512-byte virtual sectors, not the host
// filesystem block size.
#[test]
fn fat32_usable_size_uses_virtual_512_byte_sectors() {
    let four_kib = 4 * 1024_u64;
    assert_eq!(
        fat32_usable_size(four_kib + SECTOR_SIZE, SECTOR_SIZE),
        four_kib + SECTOR_SIZE
    );
    assert_eq!(
        fat32_usable_size(four_kib + SECTOR_SIZE + 1, SECTOR_SIZE),
        four_kib + SECTOR_SIZE
    );
}

#[test]
fn smallest_partition_has_the_least_fat32_clusters() {
    let g = fat32_geometry(559_015).unwrap();
    assert_eq!(
        g,
        Fat32Geometry {
            partition_len: 526_248,
            partition_end_lba: 559_015,
            reserved_sectors: 1_024,
            sectors_per_fat: 512,
            first_fat_lba: 33_792,
            second_fat_lba: 34_304,
            data_start_lba: 34_816,
            total_clusters: 65_525,
            first_unused_sector_lba: 42_824,
        }
    );
    assert_eq!(fat32_geometry(559_014), Err(HazmatError::PartitionTooSmall));
    assert_eq!(fat32_geometry(32_768), Err(HazmatError::PartitionTooSmall));
}

#[test]
fn largest_partition_is_counted_in_32_bits() {
    let g = fat32_geometry(32_768 + 0xffff_ffff - 1).unwrap();
    assert_eq!(g.partition_len, 0xffff_ffff);
    assert_eq!(g.sectors_per_fat, 4_186_113);
    assert_eq!(g.data_start_lba, 8_421_376);
    assert_eq!(g.total_clusters, 535_822_335);
    assert_eq!(
        fat32_geometry(32_768 + 0xffff_ffff),
        Err(HazmatError::PartitionTooLarge)
    );
}

#[test]
fn some_partitions_have_no_matching_fat() {
    assert!(fat32_geometry(8_421_366).is_ok());
    assert_eq!(fat32_geometry(8_421_367), Err(HazmatError::NoStableFatSize));
    assert_eq!(fat32_geometry(8_437_750), Err(HazmatError::NoStableFatSize));
    assert!(fat32_geometry(8_437_751).is_ok());
    assert_eq!(fat32_geometry(33_701_879).unwrap().reserved_sectors, 65_566);
}

#[test]
fn days_are_dated() {
    assert_eq!(civil_from_unix_days(0), (1970, 1, 1));
    assert_eq!(civil_from_unix_days(-1), (1969, 12, 31));
    assert_eq!(civil_from_unix_days(10_957), (2000, 1, 1));
    assert_eq!(civil_from_unix_days(19_782), (2024, 2, 29));
    assert_eq!(civil_from_unix_days(19_783), (2024, 3, 1));
    assert_eq!(civil_from_unix_days(2_932_896), (9999, 12, 31));
    assert_eq!(civil_from_unix_days(-719_468), (0, 3, 1));
}

#[test]
fn later_days_have_later_dates() {
    let mut last = civil_from_unix_days(-1_000);
    for day in -999..60_000 {
        let date = civil_from_unix_days(day);
        assert!(last < date);
        last = date;
    }
}

#[test]
fn timestamps_are_drawn_between_2000_and_yesterday() {
    let now = 20_000 * 86_400 + 5;
    let t = FatTimestamp::random_before_today(now, 0, 86_399, 399).unwrap();
    assert_eq!(t.to_text(), "2000-01-01 23:59:58");
    assert_eq!((t.date, t.time, t.tenth), (10_273, 49_021, 199));
    let t = FatTimestamp::random_before_today(now, 9_042, 0, 200).unwrap();
    assert_eq!(t.to_text(), "2024-10-03 00:00:00");
    assert_eq!((t.date, t.time, t.tenth), ((44 << 9) | (10 << 5) | 3, 0, 0));
    let t = FatTimestamp::random_before_today(now, 9_043, 3_661, 0).unwrap();
    assert_eq!(t.to_text(), "2000-01-01 01:01:00");
}

#[test]
fn early_clocks_are_refused() {
    assert_eq!(
        FatTimestamp::random_before_today(10_957 * 86_400 + 86_399, 0, 0, 0).err(),
        Some(HazmatError::ClockTooEarly)
    );
    assert!(FatTimestamp::random_before_today(10_958 * 86_400, 5, 0, 0).is_ok());
    assert_eq!(
        GeneratedIds::new(&random(), 0).err(),
        Some(HazmatError::ClockTooEarly)
    );
}

#[test]
fn guids_are_version_four() {
    let guid = Guid::new_v4([
        0x00, 0x11, 0x22, 0x33, 0x44, 0x55, 0x66, 0x77, 0xff, 0x99, 0xaa, 0xbb, 0xcc, 0xdd, 0xee,
        0xff,
    ]);
    assert_eq!(guid.to_text(), "00112233-4455-4677-bf99-aabbccddeeff");
    assert_eq!(
        guid.gpt_bytes(),
        [
            0x33, 0x22, 0x11, 0x00, 0x55, 0x44, 0x77, 0x46, 0xbf, 0x99, 0xaa, 0xbb, 0xcc, 0xdd,
            0xee, 0xff,
        ]
    );
}

#[test]
fn different_guids_differ_on_disk() {
    let a = Guid::new_v4([7; 16]);
    for i in 0..16 {
        let mut bytes = [7; 16];
        bytes[i] = 0x18;
        let b = Guid::new_v4(bytes);
        assert_ne!(a.gpt_bytes(), b.gpt_bytes());
    }
}

#[test]
fn identities_come_from_the_random_bytes() {
    let ids = GeneratedIds::new(&random(), 20_000 * 86_400).unwrap();
    assert_eq!(ids.fat_volume_id, 0x0403_0201);
    assert_eq!(ids.disk_guid.to_text(), "10101010-1010-4010-9010-101010101010");
    assert_eq!(ids.msr_guid.to_text(), "20202020-2020-4020-a020-202020202020");
    assert_eq!(ids.basic_guid.to_text(), "30303030-3030-4030-b030-303030303030");
    assert_eq!(ids.volume_label_time.to_text(), "2000-01-02 00:00:02");
    assert_eq!(ids.volume_label_time.tenth, 3);
    assert_eq!(random_u64([1, 2, 0, 0, 0, 0, 0, 0x80]), 0x8000_0000_0000_0201);
}

#[test]
fn protective_partition_covers_the_disk() {
    let mbr = patched_protective_mbr(&[0xee; 512], 8_388_608);
    assert_eq!(mbr[458..462], 8_388_607_u32.to_le_bytes());
    assert_eq!((mbr[457], mbr[462]), (0xee, 0xee));
    let mbr = patched_protective_mbr(&[0xee; 512], 0x1_0000_0000);
    assert_eq!(mbr[458..462], [0xff; 4]);
    let mbr = patched_protective_mbr(&[0xee; 512], u64::MAX);
    assert_eq!(mbr[458..462], [0xff; 4]);
}

#[test]
fn partition_entries_are_patched() {
    let ids = GeneratedIds::new(&random(), 20_000 * 86_400).unwrap();
    let entries = patched_gpt_entries(&[0xcc; 256], 559_015, &ids);
    assert_eq!(entries.len(), 256);
    assert_eq!(entries[16..32], ids.msr_guid.gpt_bytes());
    assert_eq!(entries[144..160], ids.basic_guid.gpt_bytes());
    assert_eq!(entries[168..176], 559_015_u64.to_le_bytes());
    assert_eq!(entries[160..168], [0xcc; 8]);
}

#[test]
fn headers_bear_their_checksum() {
    let ids = GeneratedIds::new(&random(), 20_000 * 86_400).unwrap();
    let h = patched_gpt_header(&[0x41; 512], &ids, 1, 999, 966, 2, 0xdead_beef);
    assert_eq!(h[24..32], 1_u64.to_le_bytes());
    assert_eq!(h[32..40], 999_u64.to_le_bytes());
    assert_eq!(h[40..48], 34_u64.to_le_bytes());
    assert_eq!(h[48..56], 966_u64.to_le_bytes());
    assert_eq!(h[56..72], ids.disk_guid.gpt_bytes());
    assert_eq!(h[72..80], 2_u64.to_le_bytes());
    assert_eq!(h[80..84], 128_u32.to_le_bytes());
    assert_eq!(h[84..88], 128_u32.to_le_bytes());
    assert_eq!(h[88..92], 0xdead_beef_u32.to_le_bytes());
    assert_eq!(h[92..], [0x41; 420]);
    let mut zeroed = h;
    zeroed[16..20].copy_from_slice(&[0; 4]);
    assert_eq!(h[16..20], crc32(&zeroed[..92]).to_le_bytes());
}

#[test]
fn reserved_region_is_resized_and_patched() {
    let ids = GeneratedIds::new(&random(), 20_000 * 86_400).unwrap();
    let g = fat32_geometry(559_015).unwrap();
    let region = patched_fat32_reserved_region(&[0x99; 8 * 512], g, &ids);
    assert_eq!(region.len(), 1_024 * 512);
    for base in [0, 6 * 512] {
        assert_eq!(region[base + 14..base + 16], 1_024_u16.to_le_bytes());
        assert_eq!(region[base + 28..base + 32], 32_768_u32.to_le_bytes());
        assert_eq!(region[base + 32..base + 36], 526_248_u32.to_le_bytes());
        assert_eq!(region[base + 36..base + 40], 512_u32.to_le_bytes());
        assert_eq!(region[base + 67..base + 71], 0x0403_0201_u32.to_le_bytes());
        assert_eq!(region[base + 71], 0x99);
    }
    assert_eq!(region[512 + 488..512 + 492], 65_524_u32.to_le_bytes());
    assert_eq!(region[512 + 492..512 + 496], 1_003_u32.to_le_bytes());
    assert_eq!(region[8 * 512 - 1], 0x99);
    assert_eq!(region[8 * 512..], vec![0u8; 1_016 * 512]);
    let g = fat32_geometry(8_384_511).unwrap();
    let region = patched_fat32_reserved_region(&[0x99; 200 * 512], g, &ids);
    assert_eq!(region.len(), 102 * 512);
}

#[test]
fn fat_ends_are_marked_inside_the_prefix() {
    let fat = patched_fat_prefix(&[0; 64], 10);
    assert_eq!(fat[48..52], [0xff, 0xff, 0xff, 0x0f]);
    assert_eq!(fat[..48], [0; 48]);
    assert_eq!(patched_fat_prefix(&[0; 64], 13)[60..], [0xff, 0xff, 0xff, 0x0f]);
    assert_eq!(patched_fat_prefix(&[0; 64], 14), vec![0; 64]);
    assert_eq!(patched_fat_prefix(&[0; 64], 65_525), vec![0; 64]);
}

#[test]
fn volume_label_is_stamped() {
    let ids = GeneratedIds::new(&random(), 20_000 * 86_400).unwrap();
    let t = ids.volume_label_time;
    let cluster = patched_root_cluster(&[0x20; 4096], &ids);
    assert_eq!(cluster[13], t.tenth);
    assert_eq!(cluster[14..16], t.time.to_le_bytes());
    assert_eq!(cluster[16..18], t.date.to_le_bytes());
    assert_eq!(cluster[18..20], t.date.to_le_bytes());
    assert_eq!(cluster[20..22], [0x20; 2]);
    assert_eq!(cluster[22..24], t.time.to_le_bytes());
    assert_eq!(cluster[24..26], t.date.to_le_bytes());
    assert_eq!(cluster[26], 0x20);
}

#[test]
fn sectors_are_addressed() {
    assert_eq!(lba_offset(512, 3), Some(1536));
    assert_eq!(lba_offset(512, (1 << 54) - 1), Some(i64::MAX - 511));
    assert_eq!(lba_offset(512, 1 << 54), None);
    assert_eq!(lba_offset(512, u64::MAX), None);
    assert_eq!(
        write_at_lba(512, 1 << 54, vec![1]).err(),
        Some(HazmatError::LbaTooLarge { lba: 1 << 54 })
    );
    let blob = Blob { start_lba: 34, bytes: vec![1, 2] };
    assert!(matches!(
        write_fixed_blob(512, &blob),
        Ok(DiskWrite::Bytes { offset: 17_408, bytes }) if bytes == [1, 2]
    ));
    let blob = Blob { start_lba: u64::MAX, bytes: vec![] };
    assert_eq!(
        write_fixed_blob(512, &blob).err(),
        Some(HazmatError::LbaTooLarge { lba: u64::MAX })
    );
}

#[test]
fn zero_ranges_are_addressed() {
    assert!(matches!(write_zeroes_at_lba(512, u64::MAX, 0), Ok(None)));
    assert!(matches!(
        write_zeroes_at_lba(512, 2, 3),
        Ok(Some(DiskWrite::Zeroes { offset: 1024, len: 1536 }))
    ));
    assert_eq!(
        write_zeroes_at_lba(512, 1 << 54, 1).err(),
        Some(HazmatError::LbaTooLarge { lba: 1 << 54 })
    );
    assert_eq!(
        write_zeroes_at_lba(512, 7, 1 << 55).err(),
        Some(HazmatError::ZeroRangeTooLarge { lba: 7 })
    );
}

fn boot() -> [u8; 512] {
    let mut boot = [0u8; 512];
    boot[510] = 0x55;
    boot[511] = 0xaa;
    boot[11..13].copy_from_slice(&512_u16.to_le_bytes());
    boot[13] = 8;
    boot[14..16].copy_from_slice(&1_024_u16.to_le_bytes());
    boot[16] = 2;
    boot[32..36].copy_from_slice(&526_248_u32.to_le_bytes());
    boot[36..40].copy_from_slice(&512_u32.to_le_bytes());
    boot
}

#[test]
fn boot_sectors_lead_to_the_header() {
    let d = device(288_313_344);
    assert_eq!(
        read_fat32_disk_layout(&d, &boot()),
        Ok(Fat32DiskLayout {
            sectors_per_cluster: 8,
            data_start_lba: 34_816,
            total_clusters: 65_525,
        })
    );
    assert_eq!(first_unused_cluster_lba(&d, &boot()), Ok(42_824));
    let mut b = boot();
    b[13] = 1;
    assert_eq!(first_unused_cluster_lba(&d, &b), Ok(34_816 + 1_001));
    let mut b = boot();
    b[22..24].copy_from_slice(&300_u16.to_le_bytes());
    assert_eq!(first_unused_cluster_lba(&d, &b), Ok(32_768 + 1_624 + 8_008));
    let transfer = read_boot_sector(&d).unwrap();
    assert_eq!((transfer.offset, transfer.len), (Some(16_777_216), 512));
    let transfer = read_lba(&d, 4096, 2, 100).unwrap();
    assert_eq!((transfer.offset, transfer.len), (Some(8192), 100));
    assert_eq!(
        read_lba(&d, 4096, 1 << 60, 1),
        Err(HazmatError::LbaTooLarge { lba: 1 << 60 })
    );
    let mut wide = d;
    wide.virtual_blk_size = 1 << 50;
    assert_eq!(read_boot_sector(&wide), Err(HazmatError::LbaTooLarge { lba: 32_768 }));
}

#[test]
fn broken_boot_sectors_are_refused() {
    let d = device(288_313_344);
    let refused = |at: usize, bytes: &[u8]| {
        let mut b = boot();
        b[at..at + bytes.len()].copy_from_slice(bytes);
        first_unused_cluster_lba(&d, &b).unwrap_err()
    };
    assert_eq!(refused(510, &[0x54]), HazmatError::BootSignature);
    assert_eq!(refused(511, &[0]), HazmatError::BootSignature);
    assert_eq!(refused(11, &4096_u16.to_le_bytes()), HazmatError::SectorSize);
    assert_eq!(refused(13, &[0]), HazmatError::ZeroSectorsPerCluster);
    assert_eq!(refused(32, &[0; 4]), HazmatError::ZeroTotalSectors);
    assert_eq!(refused(36, &[0; 4]), HazmatError::ZeroSectorsPerFat);
    assert_eq!(refused(16, &[0]), HazmatError::ZeroFats);
    assert_eq!(refused(36, &0xffff_ffff_u32.to_le_bytes()), HazmatError::DataAreaOutside);
    assert_eq!(refused(19, &60_000_u16.to_le_bytes()), HazmatError::NotFat32Sized);
    assert_eq!(refused(32, &526_247_u32.to_le_bytes()), HazmatError::NotFat32Sized);
    let mut wide = d;
    wide.virtual_blk_size = 4096;
    assert_eq!(first_unused_cluster_lba(&wide, &boot()), Err(HazmatError::SectorSize));
}

#[test]
fn plans_list_the_writes_in_order() {
    let d = device(288_313_344);
    let plan = write_structures(&d, &templates(), &random(), 20_000 * 86_400).unwrap();
    let places: Vec<(i64, u64)> = plan
        .writes
        .iter()
        .map(|w| match w {
            DiskWrite::Zeroes { offset, len } => (*offset / 512, *len),
            DiskWrite::Bytes { offset, bytes } => (*offset / 512, bytes.len() as u64),
        })
        .collect();
    assert_eq!(
        places,
        [
            (34, 32_734 * 512),
            (33_792, 512 * 512),
            (34_304, 512 * 512),
            (559_016, 4_063 * 512),
            (0, 512),
            (1, 512),
            (2, 16_384),
            (34, 700),
            (32_768, 1_024 * 512),
            (33_792, 1_000),
            (34_304, 1_000),
            (34_816, 4_096),
            (563_079, 16_384),
            (563_111, 512),
        ]
    );
    for (i, w) in plan.writes.iter().enumerate() {
        assert_eq!(matches!(w, DiskWrite::Zeroes { .. }), i < 4);
    }
    assert_eq!((plan.start_lba, plan.end_lba), (42_824, 559_015));
}

#[test]
fn plans_are_reported() {
    let d = device(288_313_344);
    let plan = write_structures(&d, &templates(), &random(), 20_000 * 86_400).unwrap();
    assert_eq!(
        plan.report,
        [
            "disk.......................: 563112 sectors (288313344 bytes)",
            "virtual block size.........: 512",
            "FAT32 partition............: start LBA 32768, end LBA 559015, length 526248 sectors",
            "backup GPT entries.........: LBA 563079..563110",
            "backup GPT header..........: LBA 563111",
            "FAT32 reserved sectors.....: 1024",
            "FAT32 sectors/FAT..........: 512",
            "FAT32 total clusters.......: 65525",
            "first unused FAT32 cluster.: cluster 1003",
            "first unused sector........: LBA 42824",
            "FAT32 data zero end........: LBA 34823",
            "FAT32 data end.............: LBA 559015",
            "GPT disk GUID..............: 10101010-1010-4010-9010-101010101010",
            "MSR partition GUID.........: 20202020-2020-4020-a020-202020202020",
            "Basic Data partition GUID..: 30303030-3030-4030-b030-303030303030",
            "FAT32 volume ID............: 0x04030201",
            "volume label timestamp.....: 2000-01-02 00:00:02",
        ]
    );
}

#[test]
fn unfit_disks_are_refused() {
    let now = 20_000 * 86_400;
    let mut wide = device(288_313_344);
    wide.virtual_blk_size = 4096;
    let plan = |d: &IoDevice, now: u64| write_structures(d, &templates(), &random(), now).err();
    assert_eq!(plan(&wide, now), Some(HazmatError::VirtualBlockSize));
    assert_eq!(plan(&device(36_896 * 512), now), Some(HazmatError::DiskTooSmall));
    assert_eq!(plan(&device(36_897 * 512), 0), Some(HazmatError::ClockTooEarly));
    assert_eq!(plan(&device(36_897 * 512), now), Some(HazmatError::PartitionTooSmall));
    assert_eq!(plan(&device(288_313_343), now), Some(HazmatError::PartitionTooSmall));
    assert_eq!(plan(&device(8_425_464 * 512), now), Some(HazmatError::NoStableFatSize));
    assert_eq!(plan(&device(1 << 50), now), Some(HazmatError::PartitionTooLarge));
    assert_eq!(plan(&device(33_705_976 * 512), now), Some(HazmatError::ReservedAreaTooLarge));
    assert_eq!(plan(&device(40 << 30), now), Some(HazmatError::ReservedAreaTooLarge));
    let l = disk_layout(&device(288_313_344)).unwrap();
    assert_eq!(
        (l.disk_sectors, l.last_lba, l.backup_entries_lba, l.last_usable_lba, l.fat32_end_lba),
        (563_112, 563_111, 563_079, 563_078, 559_015)
    );
}

#[test]
fn unsuitable_templates_are_refused() {
    let d = device(288_313_344);
    let g = fat32_geometry(559_015).unwrap();
    let refused = |change: &dyn Fn(&mut Templates)| {
        let mut t = templates();
        change(&mut t);
        let plan = write_structures(&d, &t, &random(), 20_000 * 86_400);
        assert_eq!(t.suit(&g), plan.is_ok());
        plan.err() == Some(HazmatError::UnsuitableTemplates)
    };
    assert!(!refused(&|_| {}));
    assert!(refused(&|t| t.gpt_entries.truncate(16_383)));
    assert!(refused(&|t| t.gpt_entries.push(0)));
    assert!(!refused(&|t| t.msr_prefix.resize(32_734 * 512, 0)));
    assert!(refused(&|t| t.msr_prefix.resize(32_734 * 512 + 1, 0)));
    assert!(!refused(&|t| t.fat_prefix.resize(512 * 512, 0)));
    assert!(refused(&|t| t.fat_prefix.resize(512 * 512 + 1, 0)));
    assert!(!refused(&|t| t.root_cluster.truncate(26)));
    assert!(refused(&|t| t.root_cluster.truncate(25)));
    assert!(refused(&|t| t.root_cluster.push(0)));
    assert!(!refused(&|t| t.fat32_reserved.truncate(512)));
    assert!(refused(&|t| t.fat32_reserved.truncate(511)));
    for at in [11, 12, 13, 16, 19, 20, 22, 23, 510, 511] {
        assert!(refused(&|t| t.fat32_reserved[at] ^= 1));
    }
}

#[test]
fn longer_fats_take_longer_prefixes() {
    let mut t = templates();
    t.fat_prefix.resize(1 << 20, 0);
    assert!(!t.suit(&fat32_geometry(559_015).unwrap()));
    assert!(t.suit(&fat32_geometry(8_384_511).unwrap()));
}
