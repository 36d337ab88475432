//! Where the areas of the FAT32 partition lie.

use vstd::arithmetic::power2::pow2;
use vstd::prelude::*;

use crate::error::HazmatError;

verus! {

/// Bytes in a logical sector of the cover disk.
pub const SECTOR_SIZE: u64 = 512;

/// First sector of the FAT32 partition.
pub const FAT32_START_LBA: u64 = 32_768;

/// Least number of reserved sectors before the first FAT.
pub const FAT32_MIN_RESERVED_SECTORS: u64 = 32;

/// Sectors in a cluster.
pub const FAT32_SECTORS_PER_CLUSTER: u64 = 8;

/// Number of copies of the FAT.
pub const FAT32_FATS: u64 = 2;

/// Least number of clusters that makes a file system FAT32.
pub const FAT32_MIN_CLUSTERS: u64 = 65_525;

/// Free clusters left to the cover file system before the hidden header.
pub const HAZMAT_CLUSTER_GAP: u64 = 1000;

/// The cluster that holds the hidden header.
pub const FIRST_UNUSED_CLUSTER: u64 = 3 + HAZMAT_CLUSTER_GAP;

/// Placement of the FAT32 areas, in sectors.
#[derive(Clone, Copy, Debug, PartialEq, Eq, Structural)]
pub struct Fat32Geometry {
    /// Sectors in the partition.
    pub partition_len: u64,
    /// Last sector of the partition.
    pub partition_end_lba: u64,
    /// Sectors before the first FAT.
    pub reserved_sectors: u64,
    /// Sectors in one FAT.
    pub sectors_per_fat: u64,
    /// First sector of the first FAT.
    pub first_fat_lba: u64,
    /// First sector of the second FAT.
    pub second_fat_lba: u64,
    /// First sector of the data area.
    pub data_start_lba: u64,
    /// Clusters in the data area.
    pub total_clusters: u64,
    /// Sector of the hidden header.
    pub first_unused_sector_lba: u64,
}

/// The least power of two that is not below `n`.
pub open spec fn next_power_of_two(n: nat) -> nat
    decreases n,
{
    if n <= 1 {
        1
    } else {
        2 * next_power_of_two((n + 1) / 2)
    }
}

/// Sectors from the start of the partition to its data area, when each FAT
/// takes `s` sectors.
pub open spec fn data_offset(s: int) -> int {
    next_power_of_two((FAT32_FATS * s + FAT32_MIN_RESERVED_SECTORS) as nat) as int
}

/// Clusters in the data area of a partition of `len` sectors, when each FAT
/// takes `s` sectors.
pub open spec fn clusters(len: int, s: int) -> int {
    (len - data_offset(s)) / FAT32_SECTORS_PER_CLUSTER as int
}

/// Sectors that a FAT needs for those clusters and the two entries before them,
/// at four bytes each.
pub open spec fn required_fat_sectors(len: int, s: int) -> int {
    ((clusters(len, s) + 2) * 4 + SECTOR_SIZE - 1) / SECTOR_SIZE as int
}

/// A FAT of `s` sectors is exactly as large as the clusters that it leaves room
/// for require.
pub open spec fn stable(len: int, s: int) -> bool {
    s >= 1 && required_fat_sectors(len, s) == s
}

/// The partition has no data area behind a one-sector FAT, or none behind the
/// FAT that the clusters behind a one-sector FAT call for, which is the largest
/// one considered.
pub open spec fn no_room(len: int) -> bool {
    len <= data_offset(1) || len <= data_offset(required_fat_sectors(len, 1))
}

/// The placement for a FAT of `s` sectors.
pub open spec fn geometry_with(end: int, s: int) -> Fat32Geometry {
    let len = end - FAT32_START_LBA + 1;
    let data_start = FAT32_START_LBA + data_offset(s);
    Fat32Geometry {
        partition_len: len as u64,
        partition_end_lba: end as u64,
        reserved_sectors: (data_offset(s) - FAT32_FATS * s) as u64,
        sectors_per_fat: s as u64,
        first_fat_lba: (data_start - FAT32_FATS * s) as u64,
        second_fat_lba: (data_start - s) as u64,
        data_start_lba: data_start as u64,
        total_clusters: clusters(len, s) as u64,
        first_unused_sector_lba: (data_start + (FIRST_UNUSED_CLUSTER - 2)
            * FAT32_SECTORS_PER_CLUSTER) as u64,
    }
}

/// The placement of a FAT32 file system in the partition that ends with sector
/// `end`, or why there is none.
pub open spec fn geometry(end: int) -> Result<Fat32Geometry, HazmatError> {
    let len = end - FAT32_START_LBA + 1;
    if len > u32::MAX {
        Err(HazmatError::PartitionTooLarge)
    } else if no_room(len) {
        Err(HazmatError::PartitionTooSmall)
    } else if !exists|s: int| stable(len, s) {
        Err(HazmatError::NoStableFatSize)
    } else {
        let s = choose|s: int| stable(len, s);
        if clusters(len, s) < FAT32_MIN_CLUSTERS {
            Err(HazmatError::PartitionTooSmall)
        } else {
            Ok(geometry_with(end, s))
        }
    }
}

/// `next_power_of_two` lies between its argument and twice the argument.
pub proof fn lemma_next_power_bounds(n: nat)
    ensures
        n <= next_power_of_two(n),
        1 <= n ==> next_power_of_two(n) < 2 * n,
        1 <= next_power_of_two(n),
    decreases n,
{
    if n > 1 {
        lemma_next_power_bounds((n + 1) / 2);
    }
}

/// `next_power_of_two` is monotone, and where it grows it at least doubles.
pub proof fn lemma_next_power_monotone(n: nat, m: nat)
    requires
        n <= m,
    ensures
        next_power_of_two(n) <= next_power_of_two(m),
        next_power_of_two(n) != next_power_of_two(m) ==> 2 * next_power_of_two(n)
            <= next_power_of_two(m),
    decreases m,
{
    if m > 1 {
        lemma_next_power_bounds((m + 1) / 2);
        if n > 1 {
            lemma_next_power_monotone((n + 1) / 2, (m + 1) / 2);
        }
    }
}

/// `next_power_of_two` is a power of two.
pub proof fn lemma_next_power_is_power(n: nat)
    ensures
        exists|k: nat| next_power_of_two(n) == vstd::arithmetic::power2::pow2(k),
    decreases n,
{
    if n <= 1 {
        vstd::arithmetic::power2::lemma2_to64();
        assert(next_power_of_two(n) == vstd::arithmetic::power2::pow2(0));
    } else {
        lemma_next_power_is_power((n + 1) / 2);
        let k = choose|k: nat|
            next_power_of_two((n + 1) / 2) == vstd::arithmetic::power2::pow2(k);
        vstd::arithmetic::power2::lemma_pow2_unfold(k + 1);
        assert(next_power_of_two(n) == vstd::arithmetic::power2::pow2(k + 1));
    }
}

/// A larger FAT moves the data area back and asks for no more FAT sectors.
proof fn lemma_required_antitone(len: int, s: int, t: int)
    requires
        1 <= s <= t,
    ensures
        data_offset(s) <= data_offset(t),
        clusters(len, s) >= clusters(len, t),
        required_fat_sectors(len, s) >= required_fat_sectors(len, t),
{
    lemma_next_power_monotone(
        (FAT32_FATS * s + FAT32_MIN_RESERVED_SECTORS) as nat,
        (FAT32_FATS * t + FAT32_MIN_RESERVED_SECTORS) as nat,
    );
}

/// At most one FAT size is stable.
pub proof fn lemma_stable_unique(len: int, s: int, t: int)
    requires
        stable(len, s),
        stable(len, t),
    ensures
        s == t,
{
    if s < t {
        lemma_required_antitone(len, s, t);
    } else if t < s {
        lemma_required_antitone(len, t, s);
    }
}

/// Between two sizes that ask for each other no size is stable.
proof fn lemma_swap_excludes_stable(len: int, a: int, b: int, s: int)
    requires
        1 <= a < b,
        required_fat_sectors(len, a) == b,
        required_fat_sectors(len, b) == a,
    ensures
        !stable(len, s),
{
    if stable(len, s) {
        if s <= a {
            lemma_required_antitone(len, s, a);
        } else if s >= b {
            lemma_required_antitone(len, b, s);
        } else {
            let na = (FAT32_FATS * a + FAT32_MIN_RESERVED_SECTORS) as nat;
            let ns = (FAT32_FATS * s + FAT32_MIN_RESERVED_SECTORS) as nat;
            let nb = (FAT32_FATS * b + FAT32_MIN_RESERVED_SECTORS) as nat;
            lemma_next_power_monotone(na, ns);
            lemma_next_power_monotone(ns, nb);
            lemma_next_power_bounds(na);
            lemma_next_power_bounds(nb);
            assert(data_offset(a) != data_offset(s));
            assert(data_offset(s) != data_offset(b));
            assert(4 * data_offset(a) <= data_offset(b));
            assert(clusters(len, a) - clusters(len, b) <= (data_offset(b) - data_offset(a)) / 8
                + 1);
            assert(false);
        }
    }
}

/// Every stable size is the one that `geometry` picks.
proof fn lemma_choose_stable(len: int, s: int)
    requires
        stable(len, s),
    ensures
        (choose|t: int| stable(len, t)) == s,
{
    let t = choose|t: int| stable(len, t);
    assert(stable(len, t));
    lemma_stable_unique(len, s, t);
}

/// The FAT32 areas fill the partition in order, without gap or overlap: the
/// reserved sectors, two FATs, and at a power-of-two offset the clusters, of
/// which the last ends inside the partition. Each FAT has room for an entry of
/// every cluster, and no sector that it could do without. The hidden header
/// lies among the clusters, past the root directory.
pub proof fn geometry_partitions_the_disk(end: int)
    requires
        end >= FAT32_START_LBA,
        geometry(end) is Ok,
    ensures
        ({
            let g = geometry(end)->Ok_0;
            let data_offset = g.data_start_lba - FAT32_START_LBA;
            &&& g.partition_end_lba == end
            &&& g.partition_len == end - FAT32_START_LBA + 1
            &&& g.partition_len <= u32::MAX
            &&& g.reserved_sectors >= FAT32_MIN_RESERVED_SECTORS
            &&& g.first_fat_lba == FAT32_START_LBA + g.reserved_sectors
            &&& g.second_fat_lba == g.first_fat_lba + g.sectors_per_fat
            &&& g.data_start_lba == g.second_fat_lba + g.sectors_per_fat
            &&& exists|k: nat| data_offset == vstd::arithmetic::power2::pow2(k)
            &&& data_offset < 2 * (2 * g.sectors_per_fat + FAT32_MIN_RESERVED_SECTORS)
            &&& FAT32_MIN_CLUSTERS <= g.total_clusters < 0x2000_0000
            &&& g.total_clusters == (g.partition_len - data_offset) / (
            FAT32_SECTORS_PER_CLUSTER as int)
            &&& g.data_start_lba + g.total_clusters * FAT32_SECTORS_PER_CLUSTER - 1 <= end
            &&& (g.sectors_per_fat - 1) * SECTOR_SIZE < (g.total_clusters + 2) * 4
                <= g.sectors_per_fat * SECTOR_SIZE
            &&& 512 <= g.sectors_per_fat <= 0x40_0002
            &&& g.first_unused_sector_lba == g.data_start_lba + (FIRST_UNUSED_CLUSTER - 2)
                * FAT32_SECTORS_PER_CLUSTER
            &&& FIRST_UNUSED_CLUSTER < g.total_clusters + 2
        }),
{
    let len = end - FAT32_START_LBA + 1;
    let s = choose|s: int| stable(len, s);
    let n = (FAT32_FATS * s + FAT32_MIN_RESERVED_SECTORS) as nat;
    assert(stable(len, s));
    lemma_next_power_bounds(n);
    lemma_next_power_is_power(n);
    let k = choose|k: nat| next_power_of_two(n) == vstd::arithmetic::power2::pow2(k);
    let g = geometry(end)->Ok_0;
    assert(g.data_start_lba - FAT32_START_LBA == vstd::arithmetic::power2::pow2(k));
}

/// The least power of two that is not below `n`.
fn power_of_two_from(n: u64) -> (p: u64)
    requires
        n <= 0x2000_0000_0000_0000,
    ensures
        p == next_power_of_two(n as nat),
    decreases n,
{
    if n <= 1 {
        1
    } else {
        proof {
            lemma_next_power_bounds(((n + 1) / 2) as nat);
        }
        2 * power_of_two_from((n + 1) / 2)
    }
}

/// Computes the FAT32 geometry of the partition that ends with sector
/// `partition_end_lba`.
///
/// The data area starts at a power-of-two offset, as Windows aligns it, and
/// the FAT size is the one that matches the clusters behind it. Where no size
/// does, the search would swap between two sizes for ever; that is reported as
/// `NoStableFatSize`.
pub fn fat32_geometry(partition_end_lba: u64) -> (result: Result<Fat32Geometry, HazmatError>)
    requires
        partition_end_lba >= FAT32_START_LBA,
    ensures
        result == geometry(partition_end_lba as int),
{
    let partition_len: u64 = partition_end_lba - FAT32_START_LBA + 1;
    let ghost len = partition_len as int;
    if partition_len > 0xffff_ffff {
        return Err(HazmatError::PartitionTooLarge);
    }
    let mut previous: u64 = 0;
    let mut sectors_per_fat: u64 = 1;
    let ghost top = required_fat_sectors(len, 1);
    loop
        invariant
            partition_len == len == partition_end_lba - FAT32_START_LBA + 1,
            1 <= len <= 0xffff_ffff,
            top == required_fat_sectors(len, 1),
            1 <= sectors_per_fat,
            previous == 0 ==> sectors_per_fat == 1,
            previous != 0 ==> {
                &&& data_offset(1) < len
                &&& sectors_per_fat <= top
                &&& required_fat_sectors(len, previous as int) == sectors_per_fat
                &&& previous != sectors_per_fat
                &&& sectors_per_fat == top || data_offset(top) < len
                &&& data_offset(top) < len ==> {
                    ||| previous <= required_fat_sectors(len, sectors_per_fat as int)
                        <= sectors_per_fat
                    ||| sectors_per_fat <= required_fat_sectors(len, sectors_per_fat as int)
                        <= previous
                }
            },
        decreases
                if previous == 0 {
                    0x1_0000_0000_0000_0000int
                } else if previous <= sectors_per_fat {
                    sectors_per_fat - previous
                } else {
                    previous - sectors_per_fat
                },
    {
        proof {
            assert(data_offset(1) >= 1) by {
                lemma_next_power_bounds((FAT32_FATS * 1 + FAT32_MIN_RESERVED_SECTORS) as nat);
            }
            assert(top <= 0x40_0002);
            lemma_next_power_bounds(
                (FAT32_FATS * sectors_per_fat + FAT32_MIN_RESERVED_SECTORS) as nat,
            );
            lemma_required_antitone(len, 1, sectors_per_fat as int);
            if previous != 0 {
                lemma_required_antitone(len, sectors_per_fat as int, top);
            }
        }
        let fat_area_sectors: u64 = FAT32_FATS * sectors_per_fat;
        let data_offset_sectors: u64 = power_of_two_from(
            fat_area_sectors + FAT32_MIN_RESERVED_SECTORS,
        );
        if data_offset_sectors >= partition_len {
            return Err(HazmatError::PartitionTooSmall);
        }
        let data_sectors: u64 = partition_len - data_offset_sectors;
        let total_clusters: u64 = data_sectors / FAT32_SECTORS_PER_CLUSTER;
        let required: u64 = ((total_clusters + 2) * 4 + SECTOR_SIZE - 1) / SECTOR_SIZE;
        assert(required == required_fat_sectors(len, sectors_per_fat as int));
        if required == sectors_per_fat {
            proof {
                assert(stable(len, sectors_per_fat as int));
                lemma_choose_stable(len, sectors_per_fat as int);
                lemma_required_antitone(len, sectors_per_fat as int, sectors_per_fat as int);
                if sectors_per_fat == 1 {
                    assert(top == 1);
                }
            }
            if total_clusters < FAT32_MIN_CLUSTERS {
                return Err(HazmatError::PartitionTooSmall);
            }
            let data_start_lba: u64 = FAT32_START_LBA + data_offset_sectors;
            return Ok(
                Fat32Geometry {
                    partition_len,
                    partition_end_lba,
                    reserved_sectors: data_offset_sectors - fat_area_sectors,
                    sectors_per_fat,
                    first_fat_lba: FAT32_START_LBA + data_offset_sectors - fat_area_sectors,
                    second_fat_lba: FAT32_START_LBA + data_offset_sectors - sectors_per_fat,
                    data_start_lba,
                    total_clusters,
                    first_unused_sector_lba: data_start_lba + (FIRST_UNUSED_CLUSTER - 2)
                        * FAT32_SECTORS_PER_CLUSTER,
                },
            );
        }
        if required == previous {
            proof {
                assert forall|s: int| !stable(len, s) by {
                    if previous < sectors_per_fat {
                        lemma_swap_excludes_stable(len, previous as int, sectors_per_fat as int, s);
                    } else {
                        lemma_swap_excludes_stable(len, sectors_per_fat as int, previous as int, s);
                    }
                }
            }
            return Err(HazmatError::NoStableFatSize);
        }
        proof {
            let p = previous as int;
            let s = sectors_per_fat as int;
            let r = required as int;
            if previous == 0 {
                assert(s == 1 && r == top);
                lemma_required_antitone(len, 1, r);
            } else if p < s {
                lemma_required_antitone(len, p, r);
                lemma_required_antitone(len, r, s);
            } else {
                lemma_required_antitone(len, s, r);
                lemma_required_antitone(len, r, p);
            }
        }
        previous = sectors_per_fat;
        sectors_per_fat = required;
    }
}

/// A power of two between `n` and twice `n` is the next one.
proof fn lemma_power_between(n: nat, k: nat)
    requires
        1 <= n,
        n <= pow2(k) < 2 * n,
    ensures
        next_power_of_two(n) == pow2(k),
    decreases n,
{
    if n > 1 {
        vstd::arithmetic::power2::lemma2_to64();
        assert(k != 0);
        vstd::arithmetic::power2::lemma_pow2_unfold(k);
        lemma_power_between((n + 1) / 2, (k - 1) as nat);
    }
}

/// Where a FAT of `s` sectors and a data area behind `2^k` sectors fit a
/// partition that FAT32 can count, they are what it gets: the power is the least
/// that leaves room for both FATs and 32 sectors before them, and the FAT has as
/// many sectors as the entries of its clusters take.
pub proof fn fitting_geometries_are_found(end: int, s: int, k: nat, n: int)
    requires
        end >= 32_768,
        end - 32_767 <= 0xffff_ffff,
        1 <= s,
        2 * s + 32 <= pow2(k) < 2 * (2 * s + 32),
        65_525 <= n,
        8 * n <= end - 32_767 - pow2(k) < 8 * (n + 1),
        512 * (s - 1) < 4 * (n + 2) <= 512 * s,
    ensures
        geometry(end) matches Ok(g) && {
            &&& g.sectors_per_fat == s
            &&& g.data_start_lba == 32_768 + pow2(k)
            &&& g.first_fat_lba == 32_768 + pow2(k) - 2 * s
            &&& g.total_clusters == n
        },
{
    let len = end - 32_767;
    lemma_power_between((2 * s + 32) as nat, k);
    assert(data_offset(s) == pow2(k));
    assert(clusters(len, s) == n);
    assert(stable(len, s));
    lemma_choose_stable(len, s);
    let top = required_fat_sectors(len, 1);
    lemma_next_power_bounds(34);
    lemma_next_power_bounds((2 * top + 32) as nat);
    assert(data_offset(1) < 68);
    assert(top <= len / 1024 + 2);
    assert(data_offset(top) < 2 * (2 * top + 32));
}

/// A partition is too large exactly where its sectors cannot be counted in 32
/// bits. Any other is refused for want of room or of a stable FAT size.
pub proof fn only_countable_partitions_are_placed(end: int)
    requires
        end >= 32_768,
    ensures
        geometry(end) == Err::<Fat32Geometry, HazmatError>(HazmatError::PartitionTooLarge)
            <==> end - 32_767 > 0xffff_ffff,
        geometry(end) matches Err(e) ==> e == HazmatError::PartitionTooLarge || e
            == HazmatError::PartitionTooSmall || e == HazmatError::NoStableFatSize,
{
}

/// Partitions of 526248 sectors and more are not too small, and no smaller one is
/// placed: that many take 65525 clusters, two FATs of 512 sectors for them and the
/// reserved sectors.
pub proof fn small_partitions_are_not_placed(end: int)
    requires
        end >= 32_768,
    ensures
        geometry(end) is Ok ==> end - 32_767 >= 526_248,
        geometry(end) == Err::<Fat32Geometry, HazmatError>(HazmatError::PartitionTooSmall) ==> end
            - 32_767 < 526_248,
{
    let len = end - 32_767;
    lemma_next_power_bounds(34);
    if len <= u32::MAX && no_room(len) {
        let top = required_fat_sectors(len, 1);
        if len >= 526_248 {
            lemma_next_power_bounds((2 * top + 32) as nat);
            assert(data_offset(1) < 68);
            assert(top <= len / 1024 + 2);
            assert(data_offset(top) < 2 * (2 * top + 32));
        }
    } else if len <= u32::MAX && exists|s: int| stable(len, s) {
        let s = choose|s: int| stable(len, s);
        let n = clusters(len, s);
        lemma_next_power_2048();
        if n >= 65_525 {
            assert(s >= 512);
            lemma_next_power_monotone(1056, (2 * s + 32) as nat);
        } else {
            assert(s <= 512);
            lemma_next_power_monotone((2 * s + 32) as nat, 1056);
        }
    }
}

proof fn lemma_next_power_2048()
    ensures
        next_power_of_two(1056) == 2048,
{
    vstd::arithmetic::power2::lemma2_to64();
    lemma_power_between(1056, 11);
}

/// Where no FAT size is stable, none is as large as the entries of the clusters
/// behind it take.
pub proof fn unstable_partitions_have_no_fat_size(end: int, s: int, k: nat, n: int)
    requires
        end >= 32_768,
        geometry(end) == Err::<Fat32Geometry, HazmatError>(HazmatError::NoStableFatSize),
        1 <= s,
        2 * s + 32 <= pow2(k) < 2 * (2 * s + 32),
        8 * n <= end - 32_767 - pow2(k) < 8 * (n + 1),
    ensures
        !(512 * (s - 1) < 4 * (n + 2) <= 512 * s),
{
    let len = end - 32_767;
    lemma_power_between((2 * s + 32) as nat, k);
    assert(clusters(len, s) == n);
    if 512 * (s - 1) < 4 * (n + 2) <= 512 * s {
        assert(stable(len, s));
    }
}

} // verus!
