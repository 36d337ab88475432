use hazmat::cipher::BlockCipher;
use hazmat::error::HazmatError;
use hazmat::hazmat::Header;
use hazmat::io::{IoDevice, RawStat, S_IFREG};
use hazmat::msfat32::boot::{first_unused_cluster_lba, read_boot_sector};
use hazmat::msfat32::crc::crc32;
use hazmat::msfat32::ids::IdRandom;
use hazmat::msfat32::plan::{DiskWrite, Templates};
use hazmat::sanitize::{BlockWalk, SanitizePlan};
use hazmat::transfer::Transfer;
use hazmat::volume::{
    format_device, header_request, inserting_hazmat_structures, open, payload_line_with,
    payload_size, payload_text, read_header, size_refusal, too_small_line_with, FormatRun,
    FormatStep,
};

const DISK: usize = 288_313_344;

fn device() -> IoDevice {
    let stat = RawStat {
        st_mode: S_IFREG | 0o644,
        st_size: DISK as i64,
        st_blksize: 4096,
        device_size: 0,
        device_blk_size: 0,
    };
    IoDevice::new(3, &stat).unwrap()
}

fn random() -> IdRandom {
    IdRandom {
        volume_id: [9, 8, 7, 6],
        disk: [0x11; 16],
        msr: [0x22; 16],
        basic: [0x33; 16],
        day: [5; 8],
        second: [6; 8],
        tenth: [7; 8],
    }
}

fn templates() -> Templates {
    let mut fat32_reserved = vec![0u8; 32 * 512];
    fat32_reserved[510] = 0x55;
    fat32_reserved[511] = 0xaa;
    fat32_reserved[11..13].copy_from_slice(&512_u16.to_le_bytes());
    fat32_reserved[13] = 8;
    fat32_reserved[16] = 2;
    let boot = fat32_reserved[..512].to_vec();
    fat32_reserved[6 * 512..7 * 512].copy_from_slice(&boot);
    Templates {
        protective_mbr: [0xa1; 512],
        gpt_primary_header: [0xa2; 512],
        gpt_backup_header: [0xa3; 512],
        gpt_entries: vec![0xa4; 16_384],
        msr_prefix: vec![0xa5; 4_096],
        fat32_reserved,
        fat_prefix: vec![0xa6; 4_096],
        root_cluster: vec![0xa7; 4_096],
    }
}

fn cipher(seed: u8) -> BlockCipher {
    BlockCipher::from_derived(&[seed; 56])
}

fn perform(disk: &mut [u8], write: &DiskWrite) {
    match write {
        DiskWrite::Zeroes { offset, len } => {
            let at = *offset as usize;
            disk[at..at + *len as usize].fill(0);
        }
        DiskWrite::Bytes { offset, bytes } => {
            let at = *offset as usize;
            disk[at..at + bytes.len()].copy_from_slice(bytes);
        }
    }
}

fn fetch(disk: &[u8], transfer: Transfer) -> Vec<u8> {
    let at = transfer.offset.unwrap() as usize;
    disk[at..at + transfer.len].to_vec()
}

fn formatted(seed: u8) -> Vec<u8> {
    let mut disk = vec![0u8; DISK];
    let now = 20_000 * 86_400;
    let plan =
        hazmat::volume::format(&device(), &cipher(seed), &templates(), &random(), now).unwrap();
    assert_eq!(plan.line, "inserting hazmat layout for 42824..559015");
    for write in &plan.structures.writes {
        perform(&mut disk, write);
    }
    perform(&mut disk, &plan.header);
    disk
}

fn boot_of(disk: &[u8]) -> [u8; 512] {
    fetch(disk, read_boot_sector(&device()).unwrap()).try_into().unwrap()
}

#[test]
fn opening_finds_what_formatting_hid() {
    let d = device();
    let mut disk = formatted(1);
    let boot = boot_of(&disk);
    assert_eq!(first_unused_cluster_lba(&d, &boot), Ok(42_824));
    let (lba, transfer) = header_request(&d, &boot).unwrap();
    assert_eq!((lba, transfer.offset, transfer.len), (42_824, Some(42_824 * 512), 512));
    let volume = open(d, cipher(1), lba, fetch(&disk, transfer)).unwrap();
    assert_eq!(volume.line, "hazmat payload range: 42825..559015 (252.0 MiB)");
    assert_eq!(volume.ops.shadow_start_lba, 42_825);
    assert_eq!(volume.ops.shadow_size, 516_191 * 512);

    let data = vec![0x42u8; 2048];
    let (transfer, bytes) = volume.ops.write_result(516_187 * 512, &data).unwrap();
    let at = transfer.offset.unwrap() as usize;
    assert_eq!(at, (42_825 + 516_187) * 512);
    disk[at..at + 2048].copy_from_slice(&bytes);

    assert_eq!(boot_of(&disk), boot);
    let (lba, transfer) = header_request(&d, &boot_of(&disk)).unwrap();
    let volume = open(d, cipher(1), lba, fetch(&disk, transfer)).unwrap();
    let transfer = volume.ops.read_request(516_187 * 512, 2048).unwrap();
    let mut back = fetch(&disk, transfer);
    assert_ne!(back, data);
    assert_eq!(volume.ops.read_result(516_187 * 512, &mut back), Ok(2048));
    assert_eq!(back, data);
}

#[test]
fn cover_writes_spare_the_volume() {
    let d = device();
    let mut disk = formatted(5);
    let (lba, transfer) = header_request(&d, &boot_of(&disk)).unwrap();
    let volume = open(d, cipher(5), lba, fetch(&disk, transfer)).unwrap();
    let (transfer, bytes) = volume.ops.write_result(0, &[0x24; 512]).unwrap();
    let at = transfer.offset.unwrap() as usize;
    disk[at..at + 512].copy_from_slice(&bytes);

    // FSInfo, both FATs and the clusters before the header.
    disk[32_769 * 512..32_774 * 512].fill(0xcd);
    disk[33_792 * 512..42_824 * 512].fill(0xcd);

    let (lba, transfer) = header_request(&d, &boot_of(&disk)).unwrap();
    let volume = open(d, cipher(5), lba, fetch(&disk, transfer)).unwrap();
    let mut back = fetch(&disk, volume.ops.read_request(0, 512).unwrap());
    assert_eq!(volume.ops.read_result(0, &mut back), Ok(512));
    assert_eq!(back, [0x24; 512]);
}

#[test]
fn another_key_finds_no_header() {
    let d = device();
    let disk = formatted(1);
    let (lba, transfer) = header_request(&d, &boot_of(&disk)).unwrap();
    assert_eq!(
        open(d, cipher(2), lba, fetch(&disk, transfer)).err(),
        Some(HazmatError::HeaderNotFound { lba: 42_824 })
    );
    let mut sector = fetch(&disk, transfer);
    assert_eq!(
        read_header(&cipher(1), lba, &mut sector),
        Ok(Header {
            signature: 0xde61_af8d_dd99_6602_f414_8ac8_3b9e_506f,
            starting_lba: 42_825,
            ending_lba: 559_015,
        })
    );
    assert_eq!(sector[32..], [0u8; 480]);
    assert_eq!(
        read_header(&cipher(1), lba, &mut [0u8; 24]),
        Err(HazmatError::HeaderTooShort { len: 24 })
    );
}

#[test]
fn formatted_disks_have_a_valid_partition_table() {
    let disk = formatted(3);
    let primary = &disk[512..1024];
    let last = DISK - 512;
    let backup = &disk[last..];
    for header in [primary, backup] {
        let mut zeroed = header.to_vec();
        zeroed[16..20].fill(0);
        assert_eq!(header[16..20], crc32(&zeroed[..92]).to_le_bytes());
        assert_eq!(header[88..92], crc32(&disk[1024..1024 + 16_384]).to_le_bytes());
    }
    assert_eq!(disk[last - 16_384..last], disk[1024..1024 + 16_384]);
    assert_eq!(primary[32..40], 563_111_u64.to_le_bytes());
    assert_eq!(backup[24..32], 563_111_u64.to_le_bytes());
    assert_eq!(backup[72..80], 563_079_u64.to_le_bytes());
}

#[test]
fn formatted_areas_hold_their_structures() {
    let disk = formatted(4);
    let fat = |lba: usize| &disk[lba * 512..(lba + 512) * 512];
    assert_eq!(fat(33_792), fat(34_304));
    assert_eq!(fat(33_792)[..4_096], [0xa6; 4_096]);
    assert_eq!(fat(33_792)[4_096..], vec![0; 258_048]);
    let boot = 32_768 * 512;
    assert_eq!(disk[boot..boot + 512], disk[boot + 3_072..boot + 3_584]);
    assert_eq!(disk[34_816 * 512], 0xa7);
    assert_eq!(disk[34 * 512], 0xa5);
    // Only the header is written in the hidden volume.
    assert_ne!(disk[42_824 * 512..42_825 * 512], [0; 512]);
    assert!(disk[42_825 * 512..559_016 * 512].iter().all(|b| *b == 0));
}

#[test]
fn headers_far_out_cannot_be_written() {
    let mut d = device();
    assert_eq!(
        inserting_hazmat_structures(&d, &cipher(1), 1 << 54, 1 << 55).err(),
        Some(HazmatError::HeaderLbaTooLarge { lba: 1 << 54 })
    );
    d.virtual_blk_size = 64;
    let write = inserting_hazmat_structures(&d, &cipher(1), 5, 6).unwrap();
    assert!(matches!(
        write,
        DiskWrite::Bytes { offset: 320, ref bytes } if bytes.len() == 64
    ));
}

#[test]
fn requests_need_a_boot_sector() {
    assert_eq!(
        header_request(&device(), &[0; 512]),
        Err(HazmatError::BootSignature)
    );
}

fn header(start: u64, end: u64) -> Header {
    Header { signature: 0, starting_lba: start, ending_lba: end }
}

#[test]
fn payloads_are_measured() {
    assert_eq!(payload_size(&header(10, 19), 512), Ok(5_120));
    assert_eq!(payload_size(&header(10, 10), 512), Ok(512));
    assert_eq!(payload_size(&header(10, 9), 512), Err(HazmatError::PayloadSizeOverflow));
    assert_eq!(payload_size(&header(0, u64::MAX), 1), Err(HazmatError::PayloadSizeOverflow));
    assert_eq!(payload_size(&header(1, u64::MAX), 1), Ok(u64::MAX));
    assert_eq!(payload_size(&header(1, u64::MAX), 2), Err(HazmatError::PayloadSizeOverflow));
}

#[test]
fn payloads_are_shown() {
    let h = header(10, 19);
    assert_eq!(payload_text(&h, 5_120), "hazmat payload range: 10..19 (5.0 KiB)");
    assert_eq!(payload_line_with(&h, "x"), "hazmat payload range: 10..19 (x)");
}

#[test]
fn small_devices_are_not_formatted() {
    let d = device();
    assert_eq!(size_refusal(&d, DISK as u64), None);
    assert_eq!(
        size_refusal(&d, 1 << 30).as_deref(),
        Some("the device size is 275.0 MiB while the minimum size needed is 1.0 GiB")
    );
    assert_eq!(
        too_small_line_with("a", "b"),
        "the device size is a while the minimum size needed is b"
    );
}

fn run_on(d: &IoDevice, minimum: u64) -> FormatRun {
    format_device(d, minimum, &cipher(6), &templates(), &random(), 20_000 * 86_400)
}

#[test]
fn formatting_fills_then_structures_then_hides() {
    let mut run = run_on(&device(), DISK as u64);
    assert_eq!(run.notice, None);
    assert!(matches!(
        run.next_step(),
        Ok(Some(FormatStep::Sanitize(SanitizePlan {
            progress_total: 288_313_344,
            walk: Some(BlockWalk { limit: 70_389, blk_size: 4_096, index: 0 }),
            remainder: 0,
        })))
    ));
    assert_eq!(run.complete(Ok(())), Ok(()));
    assert!(matches!(
        run.next_step(),
        Ok(Some(FormatStep::Structures(plan)))
            if (plan.start_lba, plan.end_lba, plan.writes.len()) == (42_824, 559_015, 14)
    ));
    assert_eq!(run.complete(Ok(())), Ok(()));
    assert!(matches!(
        run.next_step(),
        Ok(Some(FormatStep::Header { line, write: DiskWrite::Bytes { offset: 21_925_888, bytes } }))
            if line == "inserting hazmat layout for 42824..559015" && bytes.len() == 512
    ));
    assert_eq!(run.complete(Ok(())), Ok(()));
    assert!(matches!(run.next_step(), Ok(None)));
}

#[test]
fn performed_runs_format_the_disk() {
    let mut disk = vec![0u8; DISK];
    let mut run = run_on(&device(), 0);
    while let Some(step) = run.next_step().unwrap() {
        match step {
            FormatStep::Structures(plan) => plan.writes.iter().for_each(|w| perform(&mut disk, w)),
            FormatStep::Header { write, .. } => perform(&mut disk, write),
            _ => {}
        }
        run.complete(Ok(())).unwrap();
    }
    assert!(disk == formatted(6));
}

#[test]
fn failed_steps_end_a_format() {
    for ok in 0..3 {
        let mut run = run_on(&device(), 0);
        for _ in 0..ok {
            run.complete(Ok(())).unwrap();
        }
        assert_eq!(
            run.complete(Err(HazmatError::WriteFailed)),
            Err(HazmatError::WriteFailed)
        );
        assert!(matches!(run.next_step(), Ok(None)));
    }
}

#[test]
fn devices_below_the_minimum_are_left_alone() {
    let run = run_on(&device(), DISK as u64 + 1);
    assert_eq!(
        run.notice.as_deref(),
        Some("the device size is 275.0 MiB while the minimum size needed is 275.0 MiB")
    );
    assert!(run.steps.is_empty());
    assert!(matches!(run.next_step(), Ok(None)));
}

#[test]
fn refused_structures_come_after_the_fill() {
    let stat = RawStat {
        st_mode: S_IFREG,
        st_size: 4_096,
        st_blksize: 4_096,
        device_size: 0,
        device_blk_size: 0,
    };
    let mut run = run_on(&IoDevice::new(3, &stat).unwrap(), 0);
    assert_eq!(run.steps.len(), 2);
    assert!(matches!(run.next_step(), Ok(Some(FormatStep::Sanitize(_)))));
    assert_eq!(run.complete(Ok(())), Ok(()));
    assert_eq!(run.next_step().err(), Some(HazmatError::DiskTooSmall));
}
