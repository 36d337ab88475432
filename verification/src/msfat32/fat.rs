//! The areas of the FAT32 file system.

use vstd::prelude::*;

use crate::msfat32::boot::field;
use crate::msfat32::geometry::{
    Fat32Geometry, FAT32_START_LBA, FIRST_UNUSED_CLUSTER, SECTOR_SIZE,
};
use crate::msfat32::gpt::{write_u16, write_u32};
use crate::msfat32::ids::{FatTimestamp, GeneratedIds};
use crate::utils::{
    copy_at, le_bytes, lemma_le_bytes_len, lemma_le_round_trip, lemma_pow256_values, put_le,
    splice,
};

verus! {

/// Clusters that the empty file system uses: the root directory.
pub const FAT32_ALLOCATED_CLUSTERS: u64 = 1;

/// A boot sector at `base` with the fields put in that depend on the disk
/// geometry or on the identity of the disk.
pub open spec fn boot_patched(
    s: Seq<u8>,
    base: int,
    fat32: Fat32Geometry,
    fat_volume_id: u32,
) -> Seq<u8> {
    let s = splice(s, base + 14, le_bytes(fat32.reserved_sectors as nat, 2));
    let s = splice(s, base + 32, le_bytes(fat32.partition_len as nat, 4));
    let s = splice(s, base + 36, le_bytes(fat32.sectors_per_fat as nat, 4));
    let s = splice(s, base + 28, le_bytes(FAT32_START_LBA as nat, 4));
    splice(s, base + 67, le_bytes(fat_volume_id as nat, 4))
}

/// An FSInfo sector at `base` with the free-cluster accounting of the empty
/// file system put in.
pub open spec fn fsinfo_patched(s: Seq<u8>, base: int, fat32: Fat32Geometry) -> Seq<u8> {
    let s = splice(
        s,
        base + 488,
        le_bytes((fat32.total_clusters - FAT32_ALLOCATED_CLUSTERS) as nat, 4),
    );
    splice(s, base + 492, le_bytes(FIRST_UNUSED_CLUSTER as nat, 4))
}

/// `n` bytes: those of `template`, cut off or filled up with zeroes.
pub open spec fn resized(template: Seq<u8>, n: nat) -> Seq<u8> {
    Seq::new(
        n,
        |i: int|
            if i < template.len() {
                template[i]
            } else {
                0
            },
    )
}

/// The reserved region: boot sector, FSInfo sector, and the backup of the boot
/// sector six sectors on.
pub open spec fn reserved_region(
    template: Seq<u8>,
    fat32: Fat32Geometry,
    fat_volume_id: u32,
) -> Seq<u8> {
    let s = resized(template, (fat32.reserved_sectors * SECTOR_SIZE) as nat);
    let s = boot_patched(s, 0, fat32, fat_volume_id);
    let s = fsinfo_patched(s, SECTOR_SIZE as int, fat32);
    boot_patched(s, SECTOR_SIZE * 6, fat32, fat_volume_id)
}

/// The start of each FAT, with an end marker in the entry behind the last
/// cluster where that entry lies in it.
pub open spec fn fat_prefix(template: Seq<u8>, total_clusters: int) -> Seq<u8> {
    let at = (total_clusters + 2) * 4;
    if at + 4 <= template.len() {
        splice(template, at, le_bytes(0x0fff_ffff, 4))
    } else {
        template
    }
}

/// A short directory entry at `base` with its create, access and write times
/// put in.
pub open spec fn entry_stamped(s: Seq<u8>, base: int, t: FatTimestamp) -> Seq<u8> {
    let s = splice(s, base + 13, seq![t.tenth]);
    let s = splice(s, base + 14, le_bytes(t.time as nat, 2));
    let s = splice(s, base + 16, le_bytes(t.date as nat, 2));
    let s = splice(s, base + 18, le_bytes(t.date as nat, 2));
    let s = splice(s, base + 22, le_bytes(t.time as nat, 2));
    splice(s, base + 24, le_bytes(t.date as nat, 2))
}

/// Patches the fields of the boot sector at `base` that depend on the disk
/// geometry or on the identity of the disk.
pub fn patch_boot_sector(
    bytes: &mut [u8],
    base: usize,
    fat32: Fat32Geometry,
    ids: &GeneratedIds,
)
    requires
        base + SECTOR_SIZE <= old(bytes)@.len(),
        fat32.reserved_sectors <= u16::MAX,
        fat32.partition_len <= u32::MAX,
        fat32.sectors_per_fat <= u32::MAX,
    ensures
        final(bytes)@ == boot_patched(old(bytes)@, base as int, fat32, ids.fat_volume_id),
{
    proof {
        assert(bytes.len() == bytes@.len());
    }
    write_u16(bytes, base + 14, fat32.reserved_sectors);
    write_u32(bytes, base + 32, fat32.partition_len);
    write_u32(bytes, base + 36, fat32.sectors_per_fat);
    write_u32(bytes, base + 28, FAT32_START_LBA);
    write_u32(bytes, base + 67, ids.fat_volume_id as u64);
}

/// Patches the free-cluster accounting of the FSInfo sector at `base` for the
/// empty file system.
pub fn patch_fsinfo_sector(bytes: &mut [u8], base: usize, fat32: Fat32Geometry)
    requires
        base + SECTOR_SIZE <= old(bytes)@.len(),
        1 <= fat32.total_clusters <= 0x1_0000_0000,
    ensures
        final(bytes)@ == fsinfo_patched(old(bytes)@, base as int, fat32),
{
    proof {
        assert(bytes.len() == bytes@.len());
    }
    write_u32(bytes, base + 488, fat32.total_clusters - FAT32_ALLOCATED_CLUSTERS);
    write_u32(bytes, base + 492, FIRST_UNUSED_CLUSTER);
}

/// Builds the FAT32 reserved region from its template, resized for the computed
/// reserved-sector count, with boot and FSInfo values patched in.
pub fn patched_fat32_reserved_region(
    template: &[u8],
    fat32: Fat32Geometry,
    ids: &GeneratedIds,
) -> (reserved: Vec<u8>)
    requires
        7 <= fat32.reserved_sectors <= u16::MAX,
        fat32.partition_len <= u32::MAX,
        fat32.sectors_per_fat <= u32::MAX,
        1 <= fat32.total_clusters <= 0x1_0000_0000,
    ensures
        reserved@ == reserved_region(template@, fat32, ids.fat_volume_id),
{
    let reserved_len: usize = (fat32.reserved_sectors * SECTOR_SIZE) as usize;
    let mut reserved: Vec<u8> = Vec::new();
    let mut i: usize = 0;
    while i < reserved_len
        invariant
            i <= reserved_len,
            reserved@ == resized(template@, i as nat),
        decreases reserved_len - i,
    {
        if i < template.len() {
            reserved.push(template[i]);
        } else {
            reserved.push(0);
        }
        i = i + 1;
        proof {
            assert(reserved@ =~= resized(template@, i as nat));
        }
    }
    patch_boot_sector(reserved.as_mut_slice(), 0, fat32, ids);
    patch_fsinfo_sector(reserved.as_mut_slice(), SECTOR_SIZE as usize, fat32);
    patch_boot_sector(reserved.as_mut_slice(), SECTOR_SIZE as usize * 6, fat32, ids);
    reserved
}

/// Builds the FAT prefix for both FAT copies, with the end marker for the first
/// invalid cluster when it falls inside the prefix.
pub fn patched_fat_prefix(template: &[u8], total_clusters: u64) -> (fat: Vec<u8>)
    requires
        (total_clusters + 2) * 4 + 4 <= usize::MAX,
    ensures
        fat@ == fat_prefix(template@, total_clusters as int),
{
    let mut fat: Vec<u8> = vstd::slice::slice_to_vec(template);
    let next_invalid_cluster: u64 = total_clusters + 2;
    let offset: usize = next_invalid_cluster as usize * 4;
    if offset + 4 <= fat.len() {
        put_le(fat.as_mut_slice(), offset, 0x0fff_ffff, 4);
    }
    fat
}

/// Patches the create, access and write times of the short directory entry at
/// `entry_offset`.
pub fn patch_short_entry_timestamps(
    cluster: &mut [u8],
    entry_offset: usize,
    timestamp: FatTimestamp,
)
    requires
        entry_offset + 26 <= old(cluster)@.len(),
    ensures
        final(cluster)@ == entry_stamped(old(cluster)@, entry_offset as int, timestamp),
{
    proof {
        assert(cluster.len() == cluster@.len());
    }
    let tenth: [u8; 1] = [timestamp.tenth];
    proof {
        assert(tenth@ =~= seq![timestamp.tenth]);
    }
    copy_at(cluster, entry_offset + 13, &tenth);
    put_le(cluster, entry_offset + 14, timestamp.time as u128, 2);
    put_le(cluster, entry_offset + 16, timestamp.date as u128, 2);
    put_le(cluster, entry_offset + 18, timestamp.date as u128, 2);
    put_le(cluster, entry_offset + 22, timestamp.time as u128, 2);
    put_le(cluster, entry_offset + 24, timestamp.date as u128, 2);
}

/// Builds the root-directory cluster and updates its volume-label timestamp.
pub fn patched_root_cluster(template: &[u8], ids: &GeneratedIds) -> (cluster: Vec<u8>)
    requires
        template@.len() >= 26,
    ensures
        cluster@ == entry_stamped(template@, 0, ids.volume_label_time),
{
    let mut cluster: Vec<u8> = vstd::slice::slice_to_vec(template);
    patch_short_entry_timestamps(cluster.as_mut_slice(), 0, ids.volume_label_time);
    cluster
}

/// Where the template holds a copy of its boot sector six sectors on, so does
/// the reserved region: both are given the same fields.
pub proof fn boot_sector_has_a_copy(template: Seq<u8>, fat32: Fat32Geometry, fat_volume_id: u32)
    requires
        template.len() >= 3584,
        template.subrange(0, 512) == template.subrange(3072, 3584),
        fat32.reserved_sectors >= 7,
    ensures
        ({
            let region = reserved_region(template, fat32, fat_volume_id);
            region.subrange(0, 512) == region.subrange(3072, 3584)
        }),
{
    let region = reserved_region(template, fat32, fat_volume_id);
    lemma_le_bytes_len(fat32.reserved_sectors as nat, 2);
    lemma_le_bytes_len(fat32.partition_len as nat, 4);
    lemma_le_bytes_len(fat32.sectors_per_fat as nat, 4);
    lemma_le_bytes_len(FAT32_START_LBA as nat, 4);
    lemma_le_bytes_len(fat_volume_id as nat, 4);
    lemma_le_bytes_len((fat32.total_clusters - FAT32_ALLOCATED_CLUSTERS) as nat, 4);
    lemma_le_bytes_len(FIRST_UNUSED_CLUSTER as nat, 4);
    let base = resized(template, (fat32.reserved_sectors * SECTOR_SIZE) as nat);
    let first = boot_patched(base, 0, fat32, fat_volume_id);
    let second = fsinfo_patched(first, SECTOR_SIZE as int, fat32);
    assert forall|i: int| 0 <= i < 512 implies #[trigger] region[i] == region[3072 + i] by {
        assert(template.subrange(0, 512)[i] == template.subrange(3072, 3584)[i]);
        assert(template.subrange(0, 512)[i] == template[i]);
        assert(template.subrange(3072, 3584)[i] == template[3072 + i]);
        assert(template[i] == template[3072 + i]);
        assert(base[i] == template[i]);
        assert(base[3072 + i] == template[3072 + i]);
        assert(second[3072 + i] == base[3072 + i]);
        assert(region[i] == first[i]);
    }
    assert(region.subrange(0, 512) =~= region.subrange(3072, 3584));
}

/// What a template holds at `i`, and zero behind its end.
pub open spec fn template_byte(template: Seq<u8>, i: int) -> u8 {
    if i < template.len() {
        template[i]
    } else {
        0
    }
}

/// `i` lies in one of the fields that formatting puts into the boot sector at
/// `base`.
pub open spec fn in_boot_fields(base: int, i: int) -> bool {
    base + 14 <= i < base + 16 || base + 28 <= i < base + 40 || base + 67 <= i < base + 71
}

/// Patching a boot sector puts in the reserved sectors, the sectors before the
/// partition, those of the partition and of a FAT, and the volume ID, wherever
/// the boot sector lies, and leaves all else alone.
pub proof fn boot_sectors_hold_their_fields(s: Seq<u8>, base: int, g: Fat32Geometry, volume_id: u32)
    requires
        0 <= base,
        base + 512 <= s.len(),
        g.reserved_sectors <= u16::MAX,
        g.partition_len <= u32::MAX,
        g.sectors_per_fat <= u32::MAX,
    ensures
        ({
            let p = boot_patched(s, base, g, volume_id);
            &&& p.len() == s.len()
            &&& field(p, base + 14, 2) == g.reserved_sectors
            &&& field(p, base + 28, 4) == 32_768
            &&& field(p, base + 32, 4) == g.partition_len
            &&& field(p, base + 36, 4) == g.sectors_per_fat
            &&& field(p, base + 67, 4) == volume_id
            &&& forall|i: int|
                0 <= i < s.len() && !in_boot_fields(base, i) ==> #[trigger] p[i] == s[i]
        }),
{
    let p = boot_patched(s, base, g, volume_id);
    lemma_pow256_values();
    lemma_le_bytes_len(g.reserved_sectors as nat, 2);
    lemma_le_bytes_len(g.partition_len as nat, 4);
    lemma_le_bytes_len(g.sectors_per_fat as nat, 4);
    lemma_le_bytes_len(FAT32_START_LBA as nat, 4);
    lemma_le_bytes_len(volume_id as nat, 4);
    lemma_le_round_trip(g.reserved_sectors as nat, 2);
    lemma_le_round_trip(g.partition_len as nat, 4);
    lemma_le_round_trip(g.sectors_per_fat as nat, 4);
    lemma_le_round_trip(FAT32_START_LBA as nat, 4);
    lemma_le_round_trip(volume_id as nat, 4);
    assert(p.subrange(base + 14, base + 16) =~= le_bytes(g.reserved_sectors as nat, 2));
    assert(p.subrange(base + 28, base + 32) =~= le_bytes(FAT32_START_LBA as nat, 4));
    assert(p.subrange(base + 32, base + 36) =~= le_bytes(g.partition_len as nat, 4));
    assert(p.subrange(base + 36, base + 40) =~= le_bytes(g.sectors_per_fat as nat, 4));
    assert(p.subrange(base + 67, base + 71) =~= le_bytes(volume_id as nat, 4));
}

/// The reserved region holds two boot sectors with the same fields and between
/// them the count of free clusters and the next one to use; all else is as in the
/// template, filled up with zeroes.
pub proof fn reserved_regions_hold_their_fields(template: Seq<u8>, g: Fat32Geometry, volume_id: u32)
    requires
        7 <= g.reserved_sectors <= u16::MAX,
        g.partition_len <= u32::MAX,
        g.sectors_per_fat <= u32::MAX,
        1 <= g.total_clusters <= 0x1_0000_0000,
    ensures
        ({
            let r = reserved_region(template, g, volume_id);
            &&& r.len() == g.reserved_sectors * 512
            &&& field(r, 14, 2) == g.reserved_sectors && field(r, 3086, 2) == g.reserved_sectors
            &&& field(r, 28, 4) == 32_768 && field(r, 3100, 4) == 32_768
            &&& field(r, 32, 4) == g.partition_len && field(r, 3104, 4) == g.partition_len
            &&& field(r, 36, 4) == g.sectors_per_fat && field(r, 3108, 4) == g.sectors_per_fat
            &&& field(r, 67, 4) == volume_id && field(r, 3139, 4) == volume_id
            &&& field(r, 1000, 4) == g.total_clusters - 1
            &&& field(r, 1004, 4) == 1003
            &&& forall|i: int|
                0 <= i < r.len() && !in_boot_fields(0, i) && !in_boot_fields(3072, i) && !(1000
                    <= i < 1008) ==> #[trigger] r[i] == template_byte(template, i)
        }),
{
    let base = resized(template, (g.reserved_sectors * 512) as nat);
    let first = boot_patched(base, 0, g, volume_id);
    let second = fsinfo_patched(first, 512, g);
    let r = boot_patched(second, 3072, g, volume_id);
    assert(r == reserved_region(template, g, volume_id));
    let free = (g.total_clusters - 1) as nat;
    boot_sectors_hold_their_fields(base, 0, g, volume_id);
    lemma_pow256_values();
    lemma_le_bytes_len(free, 4);
    lemma_le_bytes_len(1003, 4);
    lemma_le_round_trip(free, 4);
    lemma_le_round_trip(1003, 4);
    assert(second.len() == first.len());
    boot_sectors_hold_their_fields(second, 3072, g, volume_id);
    assert(r.subrange(14, 16) =~= first.subrange(14, 16));
    assert(r.subrange(28, 32) =~= first.subrange(28, 32));
    assert(r.subrange(32, 36) =~= first.subrange(32, 36));
    assert(r.subrange(36, 40) =~= first.subrange(36, 40));
    assert(r.subrange(67, 71) =~= first.subrange(67, 71));
    assert(r.subrange(1000, 1004) =~= le_bytes(free, 4));
    assert(r.subrange(1004, 1008) =~= le_bytes(1003, 4));
}

/// The FAT prefix is the template, but for an end marker in the entry behind the
/// last cluster where the template reaches that far.
pub proof fn fat_prefixes_end_with_a_marker(template: Seq<u8>, total_clusters: int, i: int)
    requires
        0 <= total_clusters,
        0 <= i < template.len(),
    ensures
        ({
            let fat = fat_prefix(template, total_clusters);
            let end = (total_clusters + 2) * 4;
            &&& fat.len() == template.len()
            &&& fat[i] == if end + 4 <= template.len() && end <= i < end + 3 {
                0xff
            } else if end + 4 <= template.len() && i == end + 3 {
                0x0f
            } else {
                template[i]
            }
        }),
{
    lemma_le_bytes_len(0x0fff_ffff, 4);
    reveal_with_fuel(le_bytes, 5);
}

/// Stamping a directory entry puts in the times of creation, last access and last
/// write, wherever the entry lies, and leaves all else alone.
pub proof fn entries_are_stamped_in_place(s: Seq<u8>, base: int, t: FatTimestamp)
    requires
        0 <= base,
        base + 26 <= s.len(),
    ensures
        ({
            let e = entry_stamped(s, base, t);
            &&& e.len() == s.len()
            &&& e[base + 13] == t.tenth
            &&& field(e, base + 14, 2) == t.time
            &&& field(e, base + 16, 2) == t.date
            &&& field(e, base + 18, 2) == t.date
            &&& field(e, base + 22, 2) == t.time
            &&& field(e, base + 24, 2) == t.date
            &&& forall|i: int|
                0 <= i < base + 13 || base + 20 <= i < base + 22 || base + 26 <= i < s.len()
                    ==> #[trigger] e[i] == s[i]
        }),
{
    let e = entry_stamped(s, base, t);
    lemma_pow256_values();
    lemma_le_bytes_len(t.time as nat, 2);
    lemma_le_bytes_len(t.date as nat, 2);
    lemma_le_round_trip(t.time as nat, 2);
    lemma_le_round_trip(t.date as nat, 2);
    assert(e.subrange(base + 14, base + 16) =~= le_bytes(t.time as nat, 2));
    assert(e.subrange(base + 16, base + 18) =~= le_bytes(t.date as nat, 2));
    assert(e.subrange(base + 18, base + 20) =~= le_bytes(t.date as nat, 2));
    assert(e.subrange(base + 22, base + 24) =~= le_bytes(t.time as nat, 2));
    assert(e.subrange(base + 24, base + 26) =~= le_bytes(t.date as nat, 2));
}

/// Patching an FSInfo sector counts all clusters but that of the root directory as
/// free and names the cluster of the hidden header as the next one to use,
/// wherever the sector lies, and leaves all else alone.
pub proof fn fsinfo_sectors_count_free_clusters(s: Seq<u8>, base: int, g: Fat32Geometry)
    requires
        0 <= base,
        base + 512 <= s.len(),
        1 <= g.total_clusters <= 0x1_0000_0000,
    ensures
        ({
            let p = fsinfo_patched(s, base, g);
            &&& p.len() == s.len()
            &&& field(p, base + 488, 4) == g.total_clusters - 1
            &&& field(p, base + 492, 4) == 1003
            &&& forall|i: int|
                0 <= i < base + 488 || base + 496 <= i < s.len() ==> #[trigger] p[i] == s[i]
        }),
{
    let p = fsinfo_patched(s, base, g);
    let free = (g.total_clusters - 1) as nat;
    lemma_pow256_values();
    lemma_le_bytes_len(free, 4);
    lemma_le_bytes_len(1003, 4);
    lemma_le_round_trip(free, 4);
    lemma_le_round_trip(1003, 4);
    assert(p.subrange(base + 488, base + 492) =~= le_bytes(free, 4));
    assert(p.subrange(base + 492, base + 496) =~= le_bytes(1003, 4));
}

} // verus!
