use hazmat::cipher::BlockCipher;
use hazmat::error::HazmatError;
use hazmat::io::{IoDevice, RawStat, S_IFREG};
use hazmat::shadow::{handle_io, io_status, BlkDeviceOps, IoAction, EINVAL, EIO};
use hazmat::transfer::Transfer;

fn ops(start: u64, size: u64) -> BlkDeviceOps {
    let stat = RawStat {
        st_mode: S_IFREG,
        st_size: 1 << 20,
        st_blksize: 4096,
        device_size: 0,
        device_blk_size: 0,
    };
    BlkDeviceOps {
        io_device: IoDevice::new(3, &stat).unwrap(),
        block_cipher: BlockCipher::from_derived(&[0x5c; 56]),
        shadow_start_lba: start,
        shadow_size: size,
    }
}

fn run_read(ops: &BlkDeviceOps, disk: &[u8], mut t: Transfer, buf: &mut [u8]) {
    while let Some(r) = t.request().unwrap() {
        let at = r.offset.unwrap() as usize;
        let n = r.len.min(700);
        buf[r.start..r.start + n].copy_from_slice(&disk[at..at + n]);
        t.complete(&ops.io_device, n as isize).unwrap();
    }
}

fn run_write(ops: &BlkDeviceOps, disk: &mut [u8], mut t: Transfer, buf: &[u8]) {
    while let Some(r) = t.request().unwrap() {
        let at = r.offset.unwrap() as usize;
        let n = r.len.min(300);
        disk[at..at + n].copy_from_slice(&buf[r.start..r.start + n]);
        t.complete(&ops.io_device, n as isize).unwrap();
    }
}

fn read(ops: &BlkDeviceOps, disk: &[u8], offset: u64, len: usize) -> Vec<u8> {
    let mut buf = vec![0u8; len];
    run_read(ops, disk, ops.read_request(offset, len).unwrap(), &mut buf);
    assert_eq!(ops.read_result(offset, &mut buf), Ok(len as i32));
    buf
}

fn write(ops: &BlkDeviceOps, disk: &mut [u8], offset: u64, data: &[u8]) {
    let (transfer, bytes) = ops.write_result(offset, data).unwrap();
    run_write(ops, disk, transfer, &bytes);
    assert_eq!(ops.written(data.len()), Ok(data.len() as i32));
}

#[test]
fn requests_are_placed_behind_the_start() {
    let o = ops(100, 10 * 512);
    assert_eq!(o.backing_offset(0, 512), Ok(100 * 512));
    assert_eq!(o.backing_offset(1024, 4096), Ok(102 * 512));
    assert_eq!(o.backing_offset(5120, 0), Ok(110 * 512));
}

#[test]
fn requests_outside_are_refused() {
    let o = ops(100, 10 * 512);
    assert_eq!(o.backing_offset(1, 512), Err(HazmatError::RequestUnaligned));
    assert_eq!(o.backing_offset(512, 100), Err(HazmatError::RequestUnaligned));
    assert_eq!(
        o.backing_offset(u64::MAX - 511, 512),
        Err(HazmatError::RequestOffsetOverflow)
    );
    assert_eq!(o.backing_offset(5120, 512), Err(HazmatError::RequestOutOfRange));
    let o = ops(u64::MAX, u64::MAX - 511);
    assert_eq!(o.backing_offset(512, 512), Err(HazmatError::BackingLbaOverflow));
    let o = ops(1 << 54, 1 << 20);
    assert_eq!(o.backing_offset(0, 512), Err(HazmatError::BackingOffsetTooLarge));
    assert_eq!(o.read_request(0, 512), Err(HazmatError::BackingOffsetTooLarge));
    assert_eq!(o.write_result(0, &[0; 512]), Err(HazmatError::BackingOffsetTooLarge));
}

#[test]
fn sectors_are_transformed_by_their_own_number() {
    let o = ops(100, 10 * 512);
    let mut data = vec![0u8; 1024];
    assert_eq!(o.transform_sectors(512, &mut data, true), Ok(()));
    let mut first = vec![0u8; 512];
    let mut second = vec![0u8; 512];
    o.block_cipher.encrypt_sector(101, &mut first);
    o.block_cipher.encrypt_sector(102, &mut second);
    assert_eq!(data[..512], first);
    assert_eq!(data[512..], second);
    assert_eq!(o.transform_sectors(512, &mut data, false), Ok(()));
    assert_eq!(data, vec![0u8; 1024]);
}

#[test]
fn transforms_refuse_what_cannot_be_counted() {
    let mut data = vec![7u8; 1000];
    let o = ops(100, 10 * 512);
    assert_eq!(o.transform_sectors(0, &mut data, true), Err(HazmatError::LengthUnaligned));
    assert_eq!(data, vec![7u8; 1000]);

    let o = ops(u64::MAX, 0);
    let mut data = vec![7u8; 1024];
    assert_eq!(o.transform_sectors(512, &mut data, true), Err(HazmatError::CipherLbaOverflow));
    assert_eq!(data, vec![7u8; 1024]);
    assert_eq!(o.transform_sectors(0, &mut data, true), Err(HazmatError::CipherLbaOverflow));
    assert_ne!(data[..512], [7u8; 512]);
    assert_eq!(data[512..], [7u8; 512]);
}

#[test]
fn reads_give_back_what_was_written() {
    let o = ops(4, 16 * 512);
    let mut disk: Vec<u8> = (0..40 * 512u32).map(|i| (i / 7) as u8).collect();
    let before = disk.clone();
    let data: Vec<u8> = (0..3 * 512u32).map(|i| (i % 251) as u8).collect();
    let other = read(&o, &disk, 512, 1024);

    write(&o, &mut disk, 1536, &data);
    assert_eq!(read(&o, &disk, 1536, data.len()), data);
    assert_eq!(read(&o, &disk, 2048, 512), data[512..1024]);
    assert_eq!(read(&o, &disk, 512, 1024), other);
    assert_eq!(disk[..7 * 512], before[..7 * 512]);
    assert_eq!(disk[10 * 512..], before[10 * 512..]);
    assert_ne!(disk[7 * 512..10 * 512], data);
}

#[test]
fn whole_device_reads_see_all_writes() {
    let o = ops(4, 4 * 512);
    let mut disk = vec![0u8; 16 * 512];
    let mut plain = read(&o, &disk, 0, 4 * 512);
    write(&o, &mut disk, 512, &[1u8; 1024]);
    plain[512..1536].copy_from_slice(&[1u8; 1024]);
    write(&o, &mut disk, 1024, &[2u8; 512]);
    plain[1024..1536].copy_from_slice(&[2u8; 512]);
    assert_eq!(read(&o, &disk, 0, 4 * 512), plain);
}

#[test]
fn descriptors_are_decoded() {
    assert_eq!(handle_io(0, 3, 2, 4096), IoAction::Read { offset: 1536, len: 1024 });
    assert_eq!(handle_io(0x101, 3, 8, 4096), IoAction::Write { offset: 1536, len: 4096 });
    assert_eq!(handle_io(2, 0, 0, 0), IoAction::Flush);
    assert_eq!(handle_io(3, 0, 0, 0), IoAction::Reject { status: -22 });
    assert_eq!(handle_io(0, 0, 9, 4096), IoAction::Reject { status: -22 });
    assert_eq!(
        handle_io(0xffff_ff00, 1 << 55, 1 << 23, 0),
        IoAction::Read { offset: 0, len: 0 }
    );
    assert_eq!((EIO, EINVAL), (5, 22));
}

#[test]
fn results_become_statuses() {
    let o = ops(4, 512);
    assert_eq!(io_status(Ok(4096)), 4096);
    assert_eq!(io_status(Err(HazmatError::RequestOutOfRange)), -5);
    assert_eq!(o.flush_result(0), Ok(0));
    assert_eq!(o.flush_result(-1), Err(HazmatError::SyncFailed));
    assert_eq!(o.written(0x8000_0000), Err(HazmatError::CountOutOfRange));
    assert_eq!(o.written(0x7fff_ffff), Ok(i32::MAX));
}
