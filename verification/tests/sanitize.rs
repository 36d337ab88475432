use hazmat::io::{IoDevice, RawStat, S_IFBLK, S_IFREG};
use hazmat::sanitize::{progress_due, BlockWalk, SanitizeDisk};

fn file(size: i64, blk: i64) -> IoDevice {
    let stat = RawStat {
        st_mode: S_IFREG | 0o644,
        st_size: size,
        st_blksize: blk,
        device_size: 0,
        device_blk_size: 0,
    };
    IoDevice::new(3, &stat).unwrap()
}

fn block_device(size: u64, blk: u64) -> IoDevice {
    let stat = RawStat {
        st_mode: S_IFBLK | 0o660,
        st_size: 0,
        st_blksize: 4096,
        device_size: size,
        device_blk_size: blk,
    };
    IoDevice::new(3, &stat).unwrap()
}

#[test]
fn files_are_filled_to_the_last_byte() {
    let plan = file(10_000, 4096).sanitize_disk().unwrap();
    assert_eq!(plan.progress_total, 8192);
    assert_eq!(plan.walk, Some(BlockWalk { limit: 2, blk_size: 4096, index: 0 }));
    assert_eq!(plan.remainder, 1808);

    let plan = file(8192, 4096).sanitize_disk().unwrap();
    assert_eq!(plan.walk, Some(BlockWalk { limit: 2, blk_size: 4096, index: 0 }));
    assert_eq!(plan.remainder, 0);
}

#[test]
fn files_below_a_block_are_all_remainder() {
    let plan = file(100, 4096).sanitize_disk().unwrap();
    assert_eq!(plan.progress_total, 0);
    assert_eq!(plan.walk, None);
    assert_eq!(plan.remainder, 100);

    let plan = file(0, 4096).sanitize_disk().unwrap();
    assert_eq!((plan.walk, plan.remainder), (None, 0));
}

#[test]
fn block_devices_are_filled_by_whole_blocks() {
    let plan = block_device(5 * 512 + 100, 512).sanitize_disk().unwrap();
    assert_eq!(plan.progress_total, 5 * 512);
    assert_eq!(plan.walk, Some(BlockWalk { limit: 5, blk_size: 512, index: 0 }));
    assert_eq!(plan.remainder, 0);
}

#[test]
fn walks_visit_every_block_in_order() {
    let mut walk = file(0, 4096).block_walk(3, 4096);
    let mut seen = Vec::new();
    while let Some(position) = walk.next_position() {
        seen.push(position);
        walk.complete();
    }
    assert_eq!(seen, [0, 4096, 8192]);
    assert_eq!(file(0, 4096).block_walk(0, 512).next_position(), None);
}

#[test]
fn progress_is_shown_once_a_second() {
    assert!(progress_due(false, None));
    assert!(progress_due(false, Some((0, 0))));
    assert!(!progress_due(true, None));
    assert!(!progress_due(true, Some((0, 999_999_999))));
    assert!(!progress_due(true, Some((1, 0))));
    assert!(progress_due(true, Some((1, 1))));
    assert!(progress_due(true, Some((u64::MAX, 0))));
}
