//! Finding the hidden header again through the boot sector of the cover file
//! system.

use vstd::prelude::*;

use crate::error::HazmatError;
use crate::io::{Direction, IoDevice};
use crate::msfat32::geometry::{
    FAT32_MIN_CLUSTERS, FAT32_START_LBA, FIRST_UNUSED_CLUSTER, SECTOR_SIZE,
};
use crate::msfat32::plan::lba_offset;
use crate::transfer::Transfer;
use crate::utils::{
    le_value, lemma_le_bytes_of_value, lemma_pow256_values, read_le_u16, read_le_u32,
};

verus! {

/// What the boot sector says of the data area.
#[derive(Clone, Copy, Debug, PartialEq, Eq, Structural)]
pub struct Fat32DiskLayout {
    /// Sectors in a cluster.
    pub sectors_per_cluster: u64,
    /// First sector of the data area.
    pub data_start_lba: u64,
    /// Clusters in the data area.
    pub total_clusters: u64,
}

/// The little-endian number in the `n` bytes at `at`.
pub open spec fn field(s: Seq<u8>, at: int, n: int) -> int {
    le_value(s.subrange(at, at + n)) as int
}

/// A number of the boot sector that is kept in an old 16-bit field, or where
/// that is zero in a 32-bit one.
pub open spec fn wide_field(boot: Seq<u8>, at_16: int, at_32: int) -> int {
    if field(boot, at_16, 2) != 0 {
        field(boot, at_16, 2)
    } else {
        field(boot, at_32, 4)
    }
}

/// Sectors from the start of the partition to its data area.
pub open spec fn boot_data_offset(boot: Seq<u8>) -> int {
    field(boot, 14, 2) + boot[16] * wide_field(boot, 22, 36)
}

/// What a boot sector says of the data area, on a device with logical sectors
/// of `blk_size` bytes, or why it is refused.
pub open spec fn boot_layout(boot: Seq<u8>, blk_size: int) -> Result<Fat32DiskLayout, HazmatError> {
    let sectors_per_cluster = boot[13] as int;
    let total_sectors = wide_field(boot, 19, 32);
    let clusters = (total_sectors - boot_data_offset(boot)) / sectors_per_cluster;
    if boot[510] != 0x55 || boot[511] != 0xaa {
        Err(HazmatError::BootSignature)
    } else if field(boot, 11, 2) != SECTOR_SIZE || blk_size != SECTOR_SIZE {
        Err(HazmatError::SectorSize)
    } else if sectors_per_cluster == 0 {
        Err(HazmatError::ZeroSectorsPerCluster)
    } else if total_sectors == 0 {
        Err(HazmatError::ZeroTotalSectors)
    } else if wide_field(boot, 22, 36) == 0 {
        Err(HazmatError::ZeroSectorsPerFat)
    } else if boot[16] == 0 {
        Err(HazmatError::ZeroFats)
    } else if boot_data_offset(boot) >= total_sectors {
        Err(HazmatError::DataAreaOutside)
    } else if clusters < FAT32_MIN_CLUSTERS {
        Err(HazmatError::NotFat32Sized)
    } else {
        Ok(
            Fat32DiskLayout {
                sectors_per_cluster: sectors_per_cluster as u64,
                data_start_lba: (FAT32_START_LBA + boot_data_offset(boot)) as u64,
                total_clusters: clusters as u64,
            },
        )
    }
}

/// The sector of the hidden header in a data area.
pub open spec fn header_lba(layout: Fat32DiskLayout) -> int {
    layout.data_start_lba + (FIRST_UNUSED_CLUSTER - 2) * layout.sectors_per_cluster
}

/// The hidden header of an accepted boot sector can be addressed.
pub proof fn lemma_header_lba_bound(boot: Seq<u8>, blk_size: int)
    requires
        boot.len() == 512,
    ensures
        boot_layout(boot, blk_size) matches Ok(layout) ==> {
            &&& header_lba(layout) <= u64::MAX
            &&& header_lba(layout) * blk_size <= i64::MAX
        },
{
    lemma_le_bytes_of_value(boot.subrange(32, 36));
    lemma_le_bytes_of_value(boot.subrange(19, 21));
    lemma_pow256_values();
    let (fats, fat_size) = (boot[16] as int, wide_field(boot, 22, 36));
    assert(0 <= fats * fat_size) by (nonlinear_arith)
        requires
            0 <= fats,
            0 <= fat_size,
    ;
    if let Ok(layout) = boot_layout(boot, blk_size) {
        assert(blk_size == 512);
        assert(header_lba(layout) <= 0x2_0000_0000);
    }
}

/// Begins to read `len` bytes from sector `lba` on.
pub fn read_lba(device: &IoDevice, sector_size: u64, lba: u64, len: usize) -> (result: Result<
    Transfer,
    HazmatError,
>)
    ensures
        match result {
            Ok(transfer) => lba * sector_size <= i64::MAX && transfer == (Transfer {
                direction: Direction::Read,
                offset: Some((lba * sector_size) as i64),
                len,
                done: 0,
            }),
            Err(e) => lba * sector_size > i64::MAX && e == (HazmatError::LbaTooLarge { lba }),
        },
{
    match lba_offset(sector_size, lba) {
        Some(offset) => Ok(device.read_exact_at(offset, len)),
        None => Err(HazmatError::LbaTooLarge { lba }),
    }
}

/// Begins to read the boot sector of the cover file system.
pub fn read_boot_sector(device: &IoDevice) -> (result: Result<Transfer, HazmatError>)
    ensures
        match result {
            Ok(transfer) => FAT32_START_LBA * device.virtual_blk_size <= i64::MAX && transfer == (
            Transfer {
                direction: Direction::Read,
                offset: Some((FAT32_START_LBA * device.virtual_blk_size) as i64),
                len: SECTOR_SIZE as usize,
                done: 0,
            }),
            Err(e) => FAT32_START_LBA * device.virtual_blk_size > i64::MAX && e == (
            HazmatError::LbaTooLarge { lba: FAT32_START_LBA }),
        },
{
    read_lba(device, device.virtual_blk_size, FAT32_START_LBA, SECTOR_SIZE as usize)
}

/// Parses the boot sector fields needed to map cluster numbers to sectors.
pub fn read_fat32_disk_layout(device: &IoDevice, boot: &[u8; 512]) -> (result: Result<
    Fat32DiskLayout,
    HazmatError,
>)
    ensures
        result == boot_layout(boot@, device.virtual_blk_size as int),
{
    if !(boot[510] == 0x55 && boot[511] == 0xaa) {
        return Err(HazmatError::BootSignature);
    }
    let bytes_per_sector: u64 = read_le_u16(boot, 11) as u64;
    let sectors_per_cluster: u64 = boot[13] as u64;
    let reserved_sectors: u64 = read_le_u16(boot, 14) as u64;
    let fats: u64 = boot[16] as u64;
    let total_sectors_16: u64 = read_le_u16(boot, 19) as u64;
    let fat_size_16: u64 = read_le_u16(boot, 22) as u64;
    let total_sectors_32: u64 = read_le_u32(boot, 32) as u64;
    let fat_size_32: u64 = read_le_u32(boot, 36) as u64;
    if !(bytes_per_sector == SECTOR_SIZE && bytes_per_sector == device.virtual_blk_size) {
        return Err(HazmatError::SectorSize);
    }
    if sectors_per_cluster == 0 {
        return Err(HazmatError::ZeroSectorsPerCluster);
    }
    let total_sectors: u64 = if total_sectors_16 != 0 {
        total_sectors_16
    } else {
        total_sectors_32
    };
    let sectors_per_fat: u64 = if fat_size_16 != 0 {
        fat_size_16
    } else {
        fat_size_32
    };
    if total_sectors == 0 {
        return Err(HazmatError::ZeroTotalSectors);
    }
    if sectors_per_fat == 0 {
        return Err(HazmatError::ZeroSectorsPerFat);
    }
    if fats == 0 {
        return Err(HazmatError::ZeroFats);
    }
    assert(fats * sectors_per_fat <= 0xff * 0xffff_ffff) by (nonlinear_arith)
        requires
            fats <= 0xff,
            sectors_per_fat <= 0xffff_ffff,
    ;
    let fat_area_sectors: u64 = fats * sectors_per_fat;
    let data_offset_sectors: u64 = reserved_sectors + fat_area_sectors;
    if data_offset_sectors >= total_sectors {
        return Err(HazmatError::DataAreaOutside);
    }
    let data_sectors: u64 = total_sectors - data_offset_sectors;
    let total_clusters: u64 = data_sectors / sectors_per_cluster;
    if total_clusters < FAT32_MIN_CLUSTERS {
        return Err(HazmatError::NotFat32Sized);
    }
    Ok(
        Fat32DiskLayout {
            sectors_per_cluster,
            data_start_lba: FAT32_START_LBA + data_offset_sectors,
            total_clusters,
        },
    )
}

/// The planned sector of the hidden header inside the FAT32 free-cluster area,
/// given the boot sector of the cover file system.
///
/// The header is placed past the first free clusters on purpose, so that
/// automatic metadata writes of the cover file system have room before the
/// hidden region. It does not depend on the current FAT allocation: mounting
/// the cover file system can legitimately move the first free cluster.
pub fn first_unused_cluster_lba(device: &IoDevice, boot: &[u8; 512]) -> (result: Result<
    u64,
    HazmatError,
>)
    ensures
        match boot_layout(boot@, device.virtual_blk_size as int) {
            Ok(layout) => result matches Ok(lba) && lba == header_lba(layout),
            Err(e) => result == Err::<u64, HazmatError>(e),
        },
{
    match read_fat32_disk_layout(device, boot) {
        Ok(layout) => {
            proof {
                lemma_header_lba_bound(boot@, device.virtual_blk_size as int);
            }
            Ok(layout.data_start_lba + (FIRST_UNUSED_CLUSTER - 2) * layout.sectors_per_cluster)
        },
        Err(e) => Err(e),
    }
}

/// The 16-bit little-endian number at `at`.
pub open spec fn word_at(s: Seq<u8>, at: int) -> int {
    s[at] + 0x100 * s[at + 1]
}

/// The 32-bit little-endian number at `at`.
pub open spec fn long_at(s: Seq<u8>, at: int) -> int {
    s[at] + 0x100 * s[at + 1] + 0x1_0000 * s[at + 2] + 0x100_0000 * s[at + 3]
}

proof fn lemma_field_bytes(s: Seq<u8>, at: int)
    requires
        0 <= at,
        at + 4 <= s.len(),
    ensures
        field(s, at, 2) == word_at(s, at),
        field(s, at, 4) == long_at(s, at),
{
    reveal_with_fuel(le_value, 5);
}

/// A boot sector is accepted exactly where it bears its signature, has sectors of
/// 512 bytes like the device, leaves no field zero and counts at least 65525
/// whole clusters behind the reserved sectors and the FATs. The data area then
/// starts behind these, counted from the start of the partition, and the hidden
/// header lies 1001 clusters into it.
pub proof fn boot_sectors_are_read_by_their_fields(boot: Seq<u8>, blk_size: int)
    requires
        boot.len() == 512,
    ensures
        ({
            let cluster = boot[13] as int;
            let total = if word_at(boot, 19) != 0 {
                word_at(boot, 19)
            } else {
                long_at(boot, 32)
            };
            let fat = if word_at(boot, 22) != 0 {
                word_at(boot, 22)
            } else {
                long_at(boot, 36)
            };
            let before = word_at(boot, 14) + boot[16] * fat;
            let signed = boot[510] == 0x55 && boot[511] == 0xaa;
            let sized = boot[11] == 0 && boot[12] == 2 && blk_size == 512;
            let filled = cluster != 0 && total != 0 && fat != 0 && boot[16] != 0;
            match boot_layout(boot, blk_size) {
                Ok(x) => {
                    &&& signed && sized && filled
                    &&& before + 65_525 * cluster <= total
                    &&& x.sectors_per_cluster == cluster
                    &&& x.data_start_lba == 32_768 + before
                    &&& x.total_clusters * cluster <= total - before < (x.total_clusters + 1)
                        * cluster
                    &&& header_lba(x) == x.data_start_lba + 1001 * cluster
                },
                Err(e) => {
                    &&& !(signed && sized && filled) || total < before + 65_525 * cluster
                    &&& e == HazmatError::BootSignature <==> !signed
                    &&& e == HazmatError::SectorSize <==> signed && !sized
                    &&& e == HazmatError::ZeroSectorsPerCluster <==> signed && sized && cluster == 0
                    &&& e == HazmatError::ZeroTotalSectors <==> signed && sized && cluster != 0
                        && total == 0
                    &&& e == HazmatError::ZeroSectorsPerFat <==> signed && sized && cluster != 0
                        && total != 0 && fat == 0
                    &&& e == HazmatError::ZeroFats <==> signed && sized && cluster != 0 && total
                        != 0 && fat != 0 && boot[16] == 0
                    &&& e == HazmatError::DataAreaOutside <==> signed && sized && filled && before
                        >= total
                    &&& e == HazmatError::NotFat32Sized <==> signed && sized && filled && before
                        < total < before + 65_525 * cluster
                },
            }
        }),
{
    lemma_field_bytes(boot, 11);
    lemma_field_bytes(boot, 14);
    lemma_field_bytes(boot, 19);
    lemma_field_bytes(boot, 22);
    lemma_field_bytes(boot, 32);
    lemma_field_bytes(boot, 36);
    let cluster = boot[13] as int;
    let total = wide_field(boot, 19, 32);
    let (fats, fat) = (boot[16] as int, wide_field(boot, 22, 36));
    let before = boot_data_offset(boot);
    assert(0 <= fats * fat <= 255 * 0xffff_ffff) by (nonlinear_arith)
        requires
            0 <= fats <= 255,
            0 <= fat <= 0xffff_ffff,
    ;
    if cluster != 0 && before < total {
        let n = (total - before) / cluster;
        vstd::arithmetic::div_mod::lemma_fundamental_div_mod(total - before, cluster);
        vstd::arithmetic::div_mod::lemma_mod_bound(total - before, cluster);
        assert(n * cluster <= total - before < (n + 1) * cluster) by (nonlinear_arith)
            requires
                total - before == cluster * n + (total - before) % cluster,
                0 <= (total - before) % cluster < cluster,
        ;
        assert(n >= 65_525 <==> 65_525 * cluster <= total - before) by (nonlinear_arith)
            requires
                n * cluster <= total - before < (n + 1) * cluster,
                cluster > 0,
        ;
    }
}

} // verus!
