use hazmat::error::HazmatError;
use hazmat::io::{file_kind, ll_stat, IoDevice, RawStat, S_IFBLK, S_IFREG, ZERO_WRITE_BYTES};
use hazmat::transfer::{Request, Transfer, ZeroChunk};

fn file_stat(size: i64, blk: i64) -> RawStat {
    RawStat {
        st_mode: S_IFREG | 0o644,
        st_size: size,
        st_blksize: blk,
        device_size: 1,
        device_blk_size: 1,
    }
}

fn device_stat(size: u64, blk: u64) -> RawStat {
    RawStat {
        st_mode: S_IFBLK | 0o660,
        st_size: 0,
        st_blksize: 4096,
        device_size: size,
        device_blk_size: blk,
    }
}

#[test]
fn files_are_counted_in_real_and_virtual_blocks() {
    let d = IoDevice::new(5, &file_stat(10_000, 4096)).unwrap();
    assert_eq!(
        d,
        IoDevice {
            fd: 5,
            is_blk_device: false,
            total_size: 10_000,
            blk_size: 4096,
            blk_count: 2,
            virtual_blk_size: 512,
            virtual_blk_count: 19,
            virtual_usable_size: 9728,
            usable_size: 8192,
            usable_blk_count: 2,
        }
    );
}

#[test]
fn block_devices_report_their_own_sizes() {
    let d = IoDevice::new(6, &device_stat(1 << 32, 512)).unwrap();
    assert!(d.is_blk_device);
    assert_eq!(d.total_size, 1 << 32);
    assert_eq!(d.blk_count, 8_388_608);
    assert_eq!(d.usable_size, 1 << 32);
    assert_eq!(ll_stat(true, &device_stat(1000, 512)), (1000, 512, 1));
    assert_eq!(ll_stat(false, &file_stat(1000, 100)), (1000, 100, 10));
}

#[test]
fn other_targets_are_refused() {
    let mut stat = file_stat(1, 1);
    stat.st_mode = 0o020_666;
    assert_eq!(IoDevice::new(1, &stat), Err(HazmatError::NotBlockOrFile));
    stat.st_mode = 0o040_755;
    assert_eq!(IoDevice::new(1, &stat), Err(HazmatError::NotBlockOrFile));
    for mode in [0o140_777, 0o120_777, 0o160_000, 0o010_644, 0o170_000, 0o644] {
        stat.st_mode = mode;
        assert_eq!(IoDevice::new(1, &stat), Err(HazmatError::NotBlockOrFile));
        assert_eq!(file_kind(mode), Err(HazmatError::NotBlockOrFile));
    }
    assert_eq!(file_kind(0o107_777), Ok(false));
    assert_eq!(file_kind(0o067_777), Ok(true));
    assert_eq!(file_kind(0o100_644), Ok(false));
    assert_eq!(file_kind(0o060_660), Ok(true));
}

#[test]
fn reports_show_the_geometry() {
    let d = IoDevice::new(5, &file_stat(4 << 30, 4096)).unwrap();
    assert_eq!(
        d.display_stats(),
        [
            "is block........: false",
            "total bytes.....: 4.0 GiB",
            "block size......: 4096",
            "total blocks....: 1048576",
            "virtual block...: 512",
            "virtual blocks..: 8388608",
        ]
    );
    let d = IoDevice::new(5, &device_stat(1536, 512)).unwrap();
    assert_eq!(
        d.display_stats(),
        [
            "is block........: true",
            "total bytes.....: 1.5 KiB",
            "block size......: 512",
            "total blocks....: 3",
            "virtual block...: 512",
            "virtual blocks..: 3",
            "available bytes.: 1.5 KiB",
            "available blocks: 3",
        ]
    );
    assert_eq!(d.stats_report("one", "two")[1], "total bytes.....: one");
    assert_eq!(d.stats_report("one", "two")[6], "available bytes.: two");
}

#[test]
fn call_results_are_judged() {
    let d = IoDevice::new(5, &file_stat(1024, 512)).unwrap();
    assert_eq!(d.seek(0), Ok(()));
    assert_eq!(d.seek(-1), Err(HazmatError::SeekFailed));
    assert_eq!(d.sync(0), Ok(()));
    assert_eq!(d.sync(-1), Err(HazmatError::SyncFailed));
    assert_eq!(d.write(7), Ok(7));
    assert_eq!(d.write(0), Err(HazmatError::WroteZero));
    assert_eq!(d.write(-1), Err(HazmatError::WriteFailed));
    assert_eq!(d.read(7), Ok(7));
    assert_eq!(d.read(0), Err(HazmatError::EndOfDevice));
    assert_eq!(d.read(-1), Err(HazmatError::ReadFailed));
    assert_eq!(d.read_at(9, 0), Err(HazmatError::EndOfDeviceAt { offset: 9 }));
    assert_eq!(d.read_at(9, -1), Err(HazmatError::ReadFailed));
    assert_eq!(d.write_at(9, 0), Err(HazmatError::WroteZeroAt { offset: 9 }));
    assert_eq!(d.write_at(9, 3), Ok(3));
}

fn requests(mut t: Transfer, d: &IoDevice, counts: &[isize]) -> Vec<Request> {
    let mut seen = Vec::new();
    for &n in counts {
        seen.push(t.request().unwrap().unwrap());
        t.complete(d, n).unwrap();
    }
    assert_eq!(t.request(), Ok(None));
    seen
}

#[test]
fn partial_calls_are_continued() {
    let d = IoDevice::new(5, &file_stat(1024, 512)).unwrap();
    assert_eq!(
        requests(d.write_all(10), &d, &[3, 7]),
        [
            Request { offset: None, start: 0, len: 10 },
            Request { offset: None, start: 3, len: 7 },
        ]
    );
    assert_eq!(
        requests(d.read_exact(4), &d, &[1, 1, 2]),
        [
            Request { offset: None, start: 0, len: 4 },
            Request { offset: None, start: 1, len: 3 },
            Request { offset: None, start: 2, len: 2 },
        ]
    );
    assert_eq!(
        requests(d.read_exact_at(100, 6), &d, &[4, 2]),
        [
            Request { offset: Some(100), start: 0, len: 6 },
            Request { offset: Some(104), start: 4, len: 2 },
        ]
    );
    assert_eq!(
        requests(d.write_all_at(100, 6), &d, &[6]),
        [Request { offset: Some(100), start: 0, len: 6 }]
    );
    assert_eq!(d.write_all(0).request(), Ok(None));
}

#[test]
fn failed_calls_end_a_transfer() {
    let d = IoDevice::new(5, &file_stat(1024, 512)).unwrap();
    let mut t = d.read_exact_at(100, 6);
    assert_eq!(t.complete(&d, 2), Ok(()));
    let before = t;
    assert_eq!(t.complete(&d, 0), Err(HazmatError::EndOfDeviceAt { offset: 102 }));
    assert_eq!(t.complete(&d, -1), Err(HazmatError::ReadFailed));
    assert_eq!(t.complete(&d, -2), Err(HazmatError::CountOutOfRange));
    assert_eq!(t, before);
    let mut t = d.write_all_at(100, 6);
    assert_eq!(t.complete(&d, 0), Err(HazmatError::WroteZeroAt { offset: 100 }));
}

#[test]
fn offsets_past_the_end_of_counting_are_refused() {
    let d = IoDevice::new(5, &file_stat(1024, 512)).unwrap();
    let mut t = d.read_exact_at(i64::MAX, 6);
    assert_eq!(t.complete(&d, 1), Ok(()));
    assert_eq!(t.request(), Err(HazmatError::ReadOffsetOverflow));
    let mut t = d.write_all_at(i64::MAX - 1, 6);
    assert_eq!(t.complete(&d, 2), Ok(()));
    assert_eq!(t.request(), Err(HazmatError::WriteOffsetOverflow));
    let mut fill = d.write_zeroes_at(i64::MAX - 5, 2 * ZERO_WRITE_BYTES);
    fill.complete();
    assert_eq!(fill.request(), Err(HazmatError::ZeroWriteOffsetOverflow));
    let mut fill = d.write_zeroes_at(0, u64::MAX);
    fill.written = 1 << 63;
    assert_eq!(fill.request(), Err(HazmatError::CountOutOfRange));
}

#[test]
fn zero_fills_go_in_runs() {
    let d = IoDevice::new(5, &file_stat(1024, 512)).unwrap();
    let mut fill = d.write_zeroes_at(512, 2 * 1_048_576 + 3);
    let mut seen = Vec::new();
    while let Some(chunk) = fill.request().unwrap() {
        seen.push(chunk);
        fill.complete();
    }
    assert_eq!(
        seen,
        [
            ZeroChunk { offset: 512, len: 1_048_576 },
            ZeroChunk { offset: 512 + 1_048_576, len: 1_048_576 },
            ZeroChunk { offset: 512 + 2_097_152, len: 3 },
        ]
    );
    assert_eq!(d.write_zeroes_at(512, 0).request(), Ok(None));
}

#[test]
fn zero_fills_clear_their_range_alone() {
    let d = IoDevice::new(5, &file_stat(1024, 512)).unwrap();
    let mut disk = vec![0xab_u8; 3_000_000];
    let mut fill = d.write_zeroes_at(1_000, 2_500_000);
    while let Some(chunk) = fill.request().unwrap() {
        let at = chunk.offset as usize;
        disk[at..at + chunk.len].fill(0);
        fill.complete();
        let end = 1_000 + fill.written as usize;
        assert!(disk[1_000..end].iter().all(|b| *b == 0));
        assert!(disk[end..].iter().all(|b| *b == 0xab));
    }
    assert_eq!(fill.written, 2_500_000);
    assert!(disk[..1_000].iter().all(|b| *b == 0xab));
}
