//! What a formatted disk holds.

use vstd::prelude::*;

use crate::cipher::{decryption_undoes_encryption, encrypted, CipherKeys};
use crate::error::HazmatError;
use crate::hazmat::{headers_read_back, payload_header, Header};
use crate::io::IoDevice;
use crate::msfat32::boot::{boot_layout, field, header_lba, wide_field, Fat32DiskLayout};
use crate::msfat32::crc::crc32_of;
use crate::msfat32::fat::{
    boot_patched, entries_are_stamped_in_place, entry_stamped, fat_prefix,
    fat_prefixes_end_with_a_marker, in_boot_fields, reserved_region,
    reserved_regions_hold_their_fields, resized, template_byte,
};
use crate::msfat32::geometry::{
    geometry, geometry_partitions_the_disk, Fat32Geometry, FAT32_START_LBA,
};
use crate::msfat32::gpt::{
    gpt_entries, gpt_entries_hold_guids_and_end, gpt_header_unsealed,
    gpt_headers_hold_their_fields, header_checksum_holds, protective_mbr,
    protective_mbrs_cover_the_disk, sealed, GPT_ENTRY_COUNT, GPT_ENTRY_SIZE, MSR_START_LBA,
};
use crate::msfat32::ids::{guid_on_disk, GeneratedIds, IdRandom};
use crate::msfat32::plan::{
    data_end_lba, disk_after, formattable, layout, plan_for, refusal, structure_writes,
    write_views, DiskLayout, FormatPlan, Templates, WriteView,
};
use crate::sanitize::sanitize_plan;
use crate::shadow::{reads_give_back_writes, writes_leave_the_rest_alone, BlkDeviceOps};
use crate::utils::{
    le_bytes, lemma_le_bytes_len, lemma_le_round_trip, lemma_pow256_values, splice,
};
use crate::volume::{
    found_header, header_for, header_sector, payload_bytes, placement_line, steps_for,
    FormatStep,
};

verus! {

/// The disk after its structures were written.
pub open spec fn with_structures(
    disk: Seq<u8>,
    t: Templates,
    l: DiskLayout,
    g: Fat32Geometry,
    ids: GeneratedIds,
) -> Seq<u8> {
    disk_after(disk, structure_writes(t, l, g, ids))
}

/// The disk after the hidden header was written.
pub open spec fn with_header(disk: Seq<u8>, k: CipherKeys, g: Fat32Geometry) -> Seq<u8> {
    let lba = g.first_unused_sector_lba;
    let header = payload_header(lba as int, data_end_lba(g));
    splice(disk, lba * 512, encrypted(k, lba, header_sector(header, 512)))
}

/// Sector `lba` of a disk.
pub open spec fn disk_sector(disk: Seq<u8>, lba: int) -> Seq<u8> {
    disk.subrange(lba * 512, lba * 512 + 512)
}

/// `w` covers byte `i` of the disk.
pub open spec fn covers(w: WriteView, i: int) -> bool {
    w.start() <= i < w.end()
}

/// A byte holds what the last write that covers it put there.
proof fn lemma_last_write_wins(disk: Seq<u8>, writes: Seq<WriteView>, n: int, i: int)
    requires
        0 <= i < disk.len(),
        0 <= n < writes.len(),
        covers(writes[n], i),
        forall|j: int| n < j < writes.len() ==> !covers(#[trigger] writes[j], i),
    ensures
        disk_after(disk, writes).len() == disk.len(),
        disk_after(disk, writes)[i] == writes[n].contents()[i - writes[n].start()],
    decreases writes.len(),
{
    lemma_disk_len(disk, writes);
    lemma_disk_len(disk, writes.drop_last());
    let shorter = writes.drop_last();
    if n < writes.len() - 1 {
        assert(shorter[n] == writes[n]);
        assert forall|j: int| n < j < shorter.len() implies !covers(#[trigger] shorter[j], i) by {
            assert(shorter[j] == writes[j]);
        }
        lemma_last_write_wins(disk, shorter, n, i);
        assert(!covers(writes[writes.len() - 1], i));
    }
}

proof fn lemma_disk_len(disk: Seq<u8>, writes: Seq<WriteView>)
    ensures
        disk_after(disk, writes).len() == disk.len(),
    decreases writes.len(),
{
    if writes.len() > 0 {
        lemma_disk_len(disk, writes.drop_last());
    }
}

/// Where the writes start and how long they are.
proof fn lemma_write_places(t: Templates, l: DiskLayout, g: Fat32Geometry, ids: GeneratedIds)
    ensures
        ({
            let w = structure_writes(t, l, g, ids);
            &&& w.len() == 14
            &&& w[0].start() == 34 * 512 && w[0].contents().len() == (32768 - 34) * 512
            &&& w[1].start() == g.first_fat_lba * 512
            &&& w[1].contents().len() == g.sectors_per_fat * 512
            &&& w[2].start() == g.second_fat_lba * 512
            &&& w[2].contents().len() == g.sectors_per_fat * 512
            &&& w[3].start() == (g.partition_end_lba + 1) * 512
            &&& g.partition_end_lba < l.backup_entries_lba ==> w[3].contents().len() == (
            l.backup_entries_lba - g.partition_end_lba - 1) * 512
            &&& w[4].start() == 0 && w[4].contents().len() == 512
            &&& w[5].start() == 512 && w[5].contents().len() == 512
            &&& w[6].start() == 1024 && w[6].contents().len() == t.gpt_entries@.len()
            &&& w[7].start() == 34 * 512 && w[7].contents().len() == t.msr_prefix@.len()
            &&& w[8].start() == 32768 * 512
            &&& w[8].contents().len() == g.reserved_sectors * 512
            &&& w[9].start() == g.first_fat_lba * 512
            &&& w[9].contents().len() == t.fat_prefix@.len()
            &&& w[10].start() == g.second_fat_lba * 512
            &&& w[10].contents() == w[9].contents()
            &&& w[11].start() == g.data_start_lba * 512
            &&& w[11].contents().len() == t.root_cluster@.len()
            &&& w[12].start() == l.backup_entries_lba * 512
            &&& w[12].contents().len() == t.gpt_entries@.len()
            &&& w[13].start() == l.last_lba * 512 && w[13].contents().len() == 512
        }),
{
}

/// The parts of a disk that can be formatted, in order.
proof fn lemma_disk_order(device: IoDevice, t: Templates, l: DiskLayout, g: Fat32Geometry)
    requires
        formattable(device, t, l, g),
    ensures
        32768 + 32 <= g.first_fat_lba,
        g.first_fat_lba == 32768 + g.reserved_sectors,
        512 <= g.sectors_per_fat,
        g.second_fat_lba == g.first_fat_lba + g.sectors_per_fat,
        g.data_start_lba == g.second_fat_lba + g.sectors_per_fat,
        g.first_unused_sector_lba == g.data_start_lba + 8008,
        g.first_unused_sector_lba + 8 <= data_end_lba(g) <= g.partition_end_lba,
        data_end_lba(g) == g.data_start_lba + g.total_clusters * 8 - 1,
        g.partition_end_lba == l.fat32_end_lba,
        l.fat32_end_lba + 1 + 4063 == l.backup_entries_lba,
        l.backup_entries_lba + 32 == l.last_lba,
        l.last_lba + 1 == l.disk_sectors,
        l.disk_sectors * 512 <= device.virtual_usable_size,
        g.partition_len == g.partition_end_lba - 32768 + 1,
        g.partition_len <= u32::MAX,
        g.sectors_per_fat <= u32::MAX,
        g.total_clusters == (g.partition_len - (g.data_start_lba - 32768)) / 8,
        g.total_clusters >= 65_525,
{
    geometry_partitions_the_disk(l.fat32_end_lba as int);
}

/// Every write of the format lies on the disk, and none touches the sectors of
/// the hidden volume.
pub proof fn structures_spare_the_hidden_volume(
    device: IoDevice,
    t: Templates,
    l: DiskLayout,
    g: Fat32Geometry,
    ids: GeneratedIds,
    j: int,
)
    requires
        formattable(device, t, l, g),
        0 <= j < structure_writes(t, l, g, ids).len(),
    ensures
        ({
            let w = structure_writes(t, l, g, ids)[j];
            &&& 0 <= w.start()
            &&& w.end() <= l.disk_sectors * 512
            &&& w.end() <= g.first_unused_sector_lba * 512 || (data_end_lba(g) + 1) * 512
                <= w.start()
        }),
{
    lemma_write_places(t, l, g, ids);
    lemma_disk_order(device, t, l, g);
}

/// No two structures share a byte; only the zeroes written before them lie
/// under some.
pub proof fn structures_are_disjoint(
    device: IoDevice,
    t: Templates,
    l: DiskLayout,
    g: Fat32Geometry,
    ids: GeneratedIds,
    a: int,
    b: int,
)
    requires
        formattable(device, t, l, g),
        4 <= a < b < structure_writes(t, l, g, ids).len(),
    ensures
        ({
            let w = structure_writes(t, l, g, ids);
            w[a].end() <= w[b].start() || w[b].end() <= w[a].start()
        }),
{
    lemma_write_places(t, l, g, ids);
    lemma_disk_order(device, t, l, g);
}

/// Each structure is found on the formatted disk as it was written.
pub proof fn structures_are_found(
    device: IoDevice,
    disk: Seq<u8>,
    t: Templates,
    l: DiskLayout,
    g: Fat32Geometry,
    ids: GeneratedIds,
    j: int,
)
    requires
        formattable(device, t, l, g),
        disk.len() >= device.virtual_usable_size,
        4 <= j < structure_writes(t, l, g, ids).len(),
    ensures
        ({
            let w = structure_writes(t, l, g, ids)[j];
            with_structures(disk, t, l, g, ids).subrange(w.start(), w.end()) == w.contents()
        }),
{
    let writes = structure_writes(t, l, g, ids);
    let w = writes[j];
    lemma_disk_order(device, t, l, g);
    structures_spare_the_hidden_volume(device, t, l, g, ids, j);
    lemma_disk_len(disk, writes);
    let after = with_structures(disk, t, l, g, ids);
    assert forall|i: int| w.start() <= i < w.end() implies after[i] == w.contents()[i
        - w.start()] by {
        assert forall|m: int| j < m < writes.len() implies !covers(#[trigger] writes[m], i) by {
            structures_are_disjoint(device, t, l, g, ids, j, m);
        }
        lemma_last_write_wins(disk, writes, j, i);
    }
    assert(after.subrange(w.start(), w.end()) =~= w.contents());
}

/// Performing the writes of a plan in order, the hidden header last, makes the
/// formatted disk.
pub proof fn performed_plans_format_the_disk(
    disk: Seq<u8>,
    t: Templates,
    l: DiskLayout,
    g: Fat32Geometry,
    ids: GeneratedIds,
    k: CipherKeys,
)
    ensures
        ({
            let lba = g.first_unused_sector_lba;
            let header = payload_header(lba as int, data_end_lba(g));
            let last = WriteView::Bytes {
                offset: lba * 512,
                bytes: encrypted(k, lba, header_sector(header, 512)),
            };
            disk_after(disk, structure_writes(t, l, g, ids).push(last)) == with_header(
                with_structures(disk, t, l, g, ids),
                k,
                g,
            )
        }),
{
    let lba = g.first_unused_sector_lba;
    let header = payload_header(lba as int, data_end_lba(g));
    let last = WriteView::Bytes {
        offset: lba * 512,
        bytes: encrypted(k, lba, header_sector(header, 512)),
    };
    let writes = structure_writes(t, l, g, ids);
    assert(writes.push(last).drop_last() =~= writes);
}

/// The boot sector at the start of the reserved region.
proof fn lemma_boot_fields(t: Templates, g: Fat32Geometry, volume_id: u32)
    requires
        t.bootable(),
        7 <= g.reserved_sectors <= u16::MAX,
        g.partition_len <= u32::MAX,
        g.sectors_per_fat <= u32::MAX,
    ensures
        ({
            let boot = reserved_region(t.fat32_reserved@, g, volume_id).subrange(0, 512);
            &&& boot[510] == 0x55 && boot[511] == 0xaa
            &&& field(boot, 11, 2) == 512
            &&& boot[13] == 8
            &&& boot[16] == 2
            &&& field(boot, 14, 2) == g.reserved_sectors
            &&& wide_field(boot, 19, 32) == g.partition_len
            &&& wide_field(boot, 22, 36) == g.sectors_per_fat
        }),
{
    let template = t.fat32_reserved@;
    let whole = reserved_region(template, g, volume_id);
    let boot = whole.subrange(0, 512);
    let free = (g.total_clusters - 1) as nat;
    lemma_le_bytes_len(g.reserved_sectors as nat, 2);
    lemma_le_bytes_len(g.partition_len as nat, 4);
    lemma_le_bytes_len(g.sectors_per_fat as nat, 4);
    lemma_le_bytes_len(FAT32_START_LBA as nat, 4);
    lemma_le_bytes_len(volume_id as nat, 4);
    lemma_le_bytes_len(free, 4);
    lemma_le_bytes_len(1003, 4);
    lemma_pow256_values();
    lemma_le_round_trip(g.reserved_sectors as nat, 2);
    lemma_le_round_trip(g.partition_len as nat, 4);
    lemma_le_round_trip(g.sectors_per_fat as nat, 4);
    let base = resized(template, (g.reserved_sectors * 512) as nat);
    let first = boot_patched(base, 0, g, volume_id);
    assert(boot =~= first.subrange(0, 512));
    assert(boot.subrange(14, 16) =~= le_bytes(g.reserved_sectors as nat, 2));
    assert(boot.subrange(32, 36) =~= le_bytes(g.partition_len as nat, 4));
    assert(boot.subrange(36, 40) =~= le_bytes(g.sectors_per_fat as nat, 4));
    assert(boot.subrange(11, 13) =~= template.subrange(11, 13));
    assert(boot.subrange(19, 21) =~= template.subrange(19, 21));
    assert(boot.subrange(22, 24) =~= template.subrange(22, 24));
}

/// As long as the boot sector that formatting wrote is not overwritten, it leads
/// to the sector that was planned for the hidden header, whatever else happens
/// to the disk.
pub proof fn boot_sector_leads_to_the_planned_sector(
    device: IoDevice,
    disk: Seq<u8>,
    t: Templates,
    l: DiskLayout,
    g: Fat32Geometry,
    ids: GeneratedIds,
    later: Seq<u8>,
)
    requires
        formattable(device, t, l, g),
        disk.len() >= device.virtual_usable_size,
        disk_sector(later, FAT32_START_LBA as int) == disk_sector(
            with_structures(disk, t, l, g, ids),
            FAT32_START_LBA as int,
        ),
    ensures
        ({
            let boot = disk_sector(later, FAT32_START_LBA as int);
            let data = Fat32DiskLayout {
                sectors_per_cluster: 8,
                data_start_lba: g.data_start_lba,
                total_clusters: g.total_clusters,
            };
            &&& boot_layout(boot, device.virtual_blk_size as int) == Ok::<
                Fat32DiskLayout,
                HazmatError,
            >(data)
            &&& header_lba(data) == g.first_unused_sector_lba
        }),
{
    let writes = structure_writes(t, l, g, ids);
    let after = with_structures(disk, t, l, g, ids);
    lemma_disk_order(device, t, l, g);
    lemma_write_places(t, l, g, ids);
    lemma_disk_len(disk, writes);
    let boot = disk_sector(after, FAT32_START_LBA as int);
    let region = reserved_region(t.fat32_reserved@, g, ids.fat_volume_id);
    assert(writes[8].contents() == region);
    assert forall|i: int| 0 <= i < 512 implies boot[i] == region[i] by {
        let at = 32768 * 512 + i;
        assert(covers(writes[8], at));
        assert forall|m: int| 8 < m < writes.len() implies !covers(#[trigger] writes[m], at) by {}
        lemma_last_write_wins(disk, writes, 8, at);
    }
    assert(boot =~= region.subrange(0, 512));
    lemma_boot_fields(t, g, ids.fat_volume_id);
}

/// Opening a formatted disk leads from the boot sector of the cover file system
/// to the hidden header that formatting put in, and the header to the sectors
/// behind it up to the end of the cover file system's data area.
pub proof fn opening_finds_what_formatting_hid(
    device: IoDevice,
    disk: Seq<u8>,
    t: Templates,
    l: DiskLayout,
    g: Fat32Geometry,
    ids: GeneratedIds,
    k: CipherKeys,
)
    requires
        formattable(device, t, l, g),
        disk.len() >= device.virtual_usable_size,
    ensures
        ({
            let after = with_header(with_structures(disk, t, l, g, ids), k, g);
            let boot = disk_sector(after, FAT32_START_LBA as int);
            let data = Fat32DiskLayout {
                sectors_per_cluster: 8,
                data_start_lba: g.data_start_lba,
                total_clusters: g.total_clusters,
            };
            let lba = g.first_unused_sector_lba;
            let header = payload_header(lba as int, data_end_lba(g));
            &&& boot_layout(boot, device.virtual_blk_size as int) == Ok::<
                Fat32DiskLayout,
                HazmatError,
            >(data)
            &&& header_lba(data) == lba
            &&& found_header(k, lba, disk_sector(after, lba as int)) == Ok::<Header, HazmatError>(
                header,
            )
            &&& header.starting_lba == lba + 1
            &&& header.ending_lba == data_end_lba(g)
            &&& payload_bytes(header, device.virtual_blk_size as int) == Ok::<int, HazmatError>(
                (data_end_lba(g) - lba) * 512,
            )
        }),
{
    let writes = structure_writes(t, l, g, ids);
    let middle = with_structures(disk, t, l, g, ids);
    let after = with_header(middle, k, g);
    let lba = g.first_unused_sector_lba;
    let header = payload_header(lba as int, data_end_lba(g));
    let plain = header_sector(header, 512);
    lemma_disk_order(device, t, l, g);
    lemma_write_places(t, l, g, ids);
    lemma_disk_len(disk, writes);

    assert(disk_sector(after, FAT32_START_LBA as int) =~= disk_sector(
        middle,
        FAT32_START_LBA as int,
    ));
    boot_sector_leads_to_the_planned_sector(device, disk, t, l, g, ids, after);

    headers_read_back(lba, data_end_lba(g) as u64, plain.skip(32));
    assert(plain =~= crate::hazmat::header_bytes(header) + plain.skip(32));
    decryption_undoes_encryption(k, lba, plain);
    assert(disk_sector(after, lba as int) =~= encrypted(k, lba, plain));
}

/// Data written to the hidden volume of a formatted disk is there when the disk
/// is opened again: the write leaves the boot sector and the header in place, so
/// that opening leads to the same volume, and a read gets the data.
pub proof fn hidden_data_survives_reopening(
    device: IoDevice,
    disk: Seq<u8>,
    t: Templates,
    l: DiskLayout,
    g: Fat32Geometry,
    ids: GeneratedIds,
    ops: BlkDeviceOps,
    offset: int,
    data: Seq<u8>,
)
    requires
        device.wf(),
        formattable(device, t, l, g),
        device.virtual_usable_size <= disk.len() <= i64::MAX,
        ops.io_device == device,
        ops.shadow_start_lba == g.first_unused_sector_lba + 1,
        ops.shadow_size == (data_end_lba(g) - g.first_unused_sector_lba) * 512,
        0 <= offset <= u64::MAX,
        ops.backing(offset, data.len() as int) is Ok,
    ensures
        ({
            let k = ops.block_cipher@;
            let before = with_header(with_structures(disk, t, l, g, ids), k, g);
            let after = ops.disk_after_write(before, offset, data);
            let boot = disk_sector(after, FAT32_START_LBA as int);
            let lba = g.first_unused_sector_lba;
            &&& ops.wf()
            &&& ops.fits(before)
            &&& boot_layout(boot, device.virtual_blk_size as int) matches Ok(found) && header_lba(
                found,
            ) == lba
            &&& found_header(k, lba, disk_sector(after, lba as int)) == Ok::<Header, HazmatError>(
                payload_header(lba as int, data_end_lba(g)),
            )
            &&& ops.read_bytes(after, offset, data.len() as int) == data
        }),
{
    let k = ops.block_cipher@;
    let lba = g.first_unused_sector_lba;
    let before = with_header(with_structures(disk, t, l, g, ids), k, g);
    let after = ops.disk_after_write(before, offset, data);
    lemma_disk_order(device, t, l, g);
    lemma_disk_len(disk, structure_writes(t, l, g, ids));
    assert(ops.fits(before));
    opening_finds_what_formatting_hid(device, disk, t, l, g, ids, k);
    reads_give_back_writes(ops, before, offset, data, offset, data.len() as int);
    assert forall|i: int| 0 <= i < ops.shadow_start_lba * 512 implies #[trigger] after[i]
        == before[i] by {
        writes_leave_the_rest_alone(ops, before, offset, data, i);
    }
    assert(disk_sector(after, FAT32_START_LBA as int) =~= disk_sector(
        before,
        FAT32_START_LBA as int,
    ));
    assert(disk_sector(after, lba as int) =~= disk_sector(before, lba as int));
}

/// Whatever the cover file system writes outside of its boot sector and of the
/// hidden sectors, its FATs and the clusters before the hidden header among
/// them, opening the disk finds the same header and exposes the same data.
pub proof fn cover_writes_spare_the_volume(
    ops: BlkDeviceOps,
    header: int,
    before: Seq<u8>,
    after: Seq<u8>,
)
    requires
        ops.wf(),
        ops.fits(before),
        before.len() == after.len(),
        (FAT32_START_LBA + 1) * 512 <= before.len(),
        0 <= header < ops.shadow_start_lba,
        disk_sector(before, FAT32_START_LBA as int) == disk_sector(after, FAT32_START_LBA as int),
        forall|i: int|
            header * 512 <= i < ops.shadow_start_lba * 512 + ops.shadow_size ==> #[trigger] after[i]
                == before[i],
    ensures
        ({
            let boot = disk_sector(before, FAT32_START_LBA as int);
            &&& boot_layout(disk_sector(after, FAT32_START_LBA as int), 512) == boot_layout(
                boot,
                512,
            )
            &&& disk_sector(after, header) == disk_sector(before, header)
            &&& ops.exposed(after) == ops.exposed(before)
        }),
{
    let start = ops.shadow_start_lba * 512;
    assert(disk_sector(after, header) =~= disk_sector(before, header));
    assert(after.subrange(start, start + ops.shadow_size) =~= before.subrange(
        start,
        start + ops.shadow_size,
    ));
}

/// Reading the partition table of a formatted disk succeeds: both headers bear
/// their checksum and point at each other, at their entries and at the checksum
/// of as many bytes of entries as they announce, and both entry arrays are the
/// same. The disk and the two partitions each bear the GUID that was made for
/// them.
pub proof fn formatted_disks_have_a_valid_partition_table(
    device: IoDevice,
    disk: Seq<u8>,
    t: Templates,
    l: DiskLayout,
    g: Fat32Geometry,
    ids: GeneratedIds,
)
    requires
        formattable(device, t, l, g),
        disk.len() >= device.virtual_usable_size,
    ensures
        ({
            let after = with_structures(disk, t, l, g, ids);
            let primary = disk_sector(after, 1);
            let backup = disk_sector(after, l.last_lba as int);
            let size = t.gpt_entries@.len() as int;
            let entries = after.subrange(1024, 1024 + size);
            let copy_at = l.backup_entries_lba * 512;
            &&& header_checksum_holds(primary)
            &&& header_checksum_holds(backup)
            &&& field(primary, 24, 8) == 1
            &&& field(primary, 32, 8) == l.last_lba
            &&& field(primary, 72, 8) == 2
            &&& field(backup, 24, 8) == l.last_lba
            &&& field(backup, 32, 8) == 1
            &&& field(backup, 72, 8) == l.backup_entries_lba
            &&& field(primary, 48, 8) == l.backup_entries_lba - 1
            &&& field(backup, 48, 8) == l.backup_entries_lba - 1
            &&& field(primary, 40, 8) == 34
            &&& field(backup, 40, 8) == 34
            &&& field(primary, 80, 4) == 128 && field(primary, 84, 4) == 128
            &&& field(backup, 80, 4) == 128 && field(backup, 84, 4) == 128
            &&& field(primary, 80, 4) * field(primary, 84, 4) == size
            &&& field(backup, 80, 4) * field(backup, 84, 4) == size
            &&& field(primary, 88, 4) == crc32_of(entries)
            &&& field(backup, 88, 4) == crc32_of(entries)
            &&& after.subrange(copy_at, copy_at + size) == entries
            &&& field(entries, 168, 8) == g.partition_end_lba
            &&& primary.subrange(56, 72) == guid_on_disk(ids.disk_guid.canonical@)
            &&& backup.subrange(56, 72) == guid_on_disk(ids.disk_guid.canonical@)
            &&& entries.subrange(16, 32) == guid_on_disk(ids.msr_guid.canonical@)
            &&& entries.subrange(144, 160) == guid_on_disk(ids.basic_guid.canonical@)
        }),
{
    let writes = structure_writes(t, l, g, ids);
    let entries = gpt_entries(
        t.gpt_entries@,
        g.partition_end_lba as int,
        ids.msr_guid.canonical@,
        ids.basic_guid.canonical@,
    );
    let crc = crc32_of(entries);
    let guid = ids.disk_guid.canonical@;
    lemma_write_places(t, l, g, ids);
    lemma_disk_order(device, t, l, g);
    structures_are_found(device, disk, t, l, g, ids, 5);
    structures_are_found(device, disk, t, l, g, ids, 6);
    structures_are_found(device, disk, t, l, g, ids, 12);
    structures_are_found(device, disk, t, l, g, ids, 13);
    assert(writes[6].contents() == entries);
    assert(writes[12].contents() == entries);
    lemma_header_fields(
        t.gpt_primary_header@,
        guid,
        1,
        l.last_lba,
        l.last_usable_lba,
        2,
        crc,
    );
    lemma_header_fields(
        t.gpt_backup_header@,
        guid,
        l.last_lba,
        1,
        l.last_usable_lba,
        l.backup_entries_lba,
        crc,
    );
    gpt_entries_hold_guids_and_end(
        t.gpt_entries@,
        g.partition_end_lba,
        ids.msr_guid.canonical@,
        ids.basic_guid.canonical@,
    );
}

/// The fields of a GPT header can be read back, and its checksum holds.
proof fn lemma_header_fields(
    template: Seq<u8>,
    guid: Seq<u8>,
    current: u64,
    backup: u64,
    last_usable: u64,
    entries: u64,
    crc: u32,
)
    requires
        template.len() == 512,
        guid.len() == 16,
    ensures
        ({
            let h = sealed(
                gpt_header_unsealed(
                    template,
                    guid,
                    current as int,
                    backup as int,
                    last_usable as int,
                    entries as int,
                    crc,
                ),
            );
            &&& h.len() == 512
            &&& header_checksum_holds(h)
            &&& field(h, 24, 8) == current
            &&& field(h, 32, 8) == backup
            &&& field(h, 40, 8) == MSR_START_LBA
            &&& field(h, 48, 8) == last_usable
            &&& h.subrange(56, 72) == guid_on_disk(guid)
            &&& field(h, 72, 8) == entries
            &&& field(h, 80, 4) == GPT_ENTRY_COUNT
            &&& field(h, 84, 4) == GPT_ENTRY_SIZE
            &&& field(h, 88, 4) == crc
            &&& forall|i: int|
                0 <= i < 16 || 20 <= i < 24 || 92 <= i < 512 ==> #[trigger] h[i] == template[i]
        }),
{
    gpt_headers_hold_their_fields(template, guid, current, backup, last_usable, entries, crc);
}

/// The two FATs of a formatted disk are the same, byte for byte.
pub proof fn formatted_fats_are_copies(
    device: IoDevice,
    disk: Seq<u8>,
    t: Templates,
    l: DiskLayout,
    g: Fat32Geometry,
    ids: GeneratedIds,
)
    requires
        formattable(device, t, l, g),
        disk.len() >= device.virtual_usable_size,
    ensures
        ({
            let after = with_structures(disk, t, l, g, ids);
            let (a, b) = (g.first_fat_lba * 512, g.second_fat_lba * 512);
            let size = g.sectors_per_fat * 512;
            &&& after.subrange(a, a + size) == after.subrange(b, b + size)
            &&& after.subrange(a, a + size) == resized(
                fat_prefix(t.fat_prefix@, g.total_clusters as int),
                size as nat,
            )
        }),
{
    let after = with_structures(disk, t, l, g, ids);
    let (a, b) = (g.first_fat_lba * 512, g.second_fat_lba * 512);
    let size = g.sectors_per_fat * 512;
    let fat = resized(fat_prefix(t.fat_prefix@, g.total_clusters as int), size as nat);
    lemma_disk_order(device, t, l, g);
    lemma_disk_len(disk, structure_writes(t, l, g, ids));
    assert forall|i: int|
        #![trigger fat[i]]
        0 <= i < size implies after[a + i] == fat[i] && after[b + i] == fat[i] by {
        lemma_fat_byte(device, disk, t, l, g, ids, false, i);
        lemma_fat_byte(device, disk, t, l, g, ids, true, i);
    }
    assert(after.subrange(a, a + size) =~= fat);
    assert(after.subrange(b, b + size) =~= fat);
}

/// Byte `i` of the first or the second FAT.
proof fn lemma_fat_byte(
    device: IoDevice,
    disk: Seq<u8>,
    t: Templates,
    l: DiskLayout,
    g: Fat32Geometry,
    ids: GeneratedIds,
    second: bool,
    i: int,
)
    requires
        formattable(device, t, l, g),
        disk.len() >= device.virtual_usable_size,
        0 <= i < g.sectors_per_fat * 512,
    ensures
        ({
            let at = if second {
                g.second_fat_lba * 512
            } else {
                g.first_fat_lba * 512
            };
            let prefix = fat_prefix(t.fat_prefix@, g.total_clusters as int);
            with_structures(disk, t, l, g, ids)[at + i] == resized(
                prefix,
                (g.sectors_per_fat * 512) as nat,
            )[i]
        }),
{
    let writes = structure_writes(t, l, g, ids);
    let prefix = fat_prefix(t.fat_prefix@, g.total_clusters as int);
    let at = if second {
        g.second_fat_lba * 512
    } else {
        g.first_fat_lba * 512
    };
    let n: int = if i < prefix.len() {
        if second {
            10
        } else {
            9
        }
    } else if second {
        2
    } else {
        1
    };
    lemma_write_places(t, l, g, ids);
    lemma_disk_order(device, t, l, g);
    assert(writes[9].contents() == prefix);
    assert(covers(writes[n], at + i));
    assert forall|m: int| n < m < writes.len() implies !covers(#[trigger] writes[m], at + i) by {
        if covers(writes[m], at + i) {
            lemma_only_fat_writes(device, t, l, g, ids, m, at + i);
        }
    }
    lemma_last_write_wins(disk, writes, n, at + i);
}

/// A byte of the FATs is covered by the writes of its own FAT alone.
proof fn lemma_only_fat_writes(
    device: IoDevice,
    t: Templates,
    l: DiskLayout,
    g: Fat32Geometry,
    ids: GeneratedIds,
    m: int,
    i: int,
)
    requires
        formattable(device, t, l, g),
        0 <= m < 14,
        g.first_fat_lba * 512 <= i < g.data_start_lba * 512,
        covers(structure_writes(t, l, g, ids)[m], i),
    ensures
        m == 1 || m == 2 || m == 9 || m == 10,
        m == 1 || m == 9 ==> i < g.second_fat_lba * 512,
        m == 2 || m == 10 ==> g.second_fat_lba * 512 <= i,
        m == 9 ==> i < g.first_fat_lba * 512 + t.fat_prefix@.len(),
        m == 10 ==> i < g.second_fat_lba * 512 + t.fat_prefix@.len(),
{
    lemma_write_places(t, l, g, ids);
    lemma_disk_order(device, t, l, g);
}

/// A formatted partition starts with a boot sector that counts the reserved
/// sectors, the sectors of the partition and those of a FAT, names the sectors
/// before the partition and bears the volume ID; six sectors on it holds a second
/// one with the same fields. The sector behind the first counts all clusters but
/// that of the root directory as free and names the cluster of the hidden header
/// as the next to be used. All else is as in the template.
pub proof fn formatted_partitions_start_with_boot_sectors(
    device: IoDevice,
    disk: Seq<u8>,
    t: Templates,
    l: DiskLayout,
    g: Fat32Geometry,
    ids: GeneratedIds,
)
    requires
        formattable(device, t, l, g),
        disk.len() >= device.virtual_usable_size,
    ensures
        ({
            let after = with_structures(disk, t, l, g, ids);
            let start = 16_777_216int;
            let r = after.subrange(start, start + g.reserved_sectors * 512);
            &&& field(r, 14, 2) == g.reserved_sectors && field(r, 3086, 2) == g.reserved_sectors
            &&& field(r, 28, 4) == 32_768 && field(r, 3100, 4) == 32_768
            &&& field(r, 32, 4) == g.partition_len && field(r, 3104, 4) == g.partition_len
            &&& field(r, 36, 4) == g.sectors_per_fat && field(r, 3108, 4) == g.sectors_per_fat
            &&& field(r, 67, 4) == ids.fat_volume_id && field(r, 3139, 4) == ids.fat_volume_id
            &&& field(r, 1000, 4) == g.total_clusters - 1
            &&& field(r, 1004, 4) == 1003
            &&& forall|i: int|
                0 <= i < r.len() && !in_boot_fields(0, i) && !in_boot_fields(3072, i) && !(1000
                    <= i < 1008) ==> #[trigger] r[i] == template_byte(t.fat32_reserved@, i)
        }),
{
    let region = reserved_region(t.fat32_reserved@, g, ids.fat_volume_id);
    lemma_disk_order(device, t, l, g);
    lemma_write_places(t, l, g, ids);
    structures_are_found(device, disk, t, l, g, ids, 8);
    assert(structure_writes(t, l, g, ids)[8].contents() == region);
    reserved_regions_hold_their_fields(t.fat32_reserved@, g, ids.fat_volume_id);
}

/// A formatted disk starts with the protective MBR of the template, whose
/// partition covers all sectors but the first, as far as 32 bits can count them.
pub proof fn formatted_disks_start_with_a_protective_mbr(
    device: IoDevice,
    disk: Seq<u8>,
    t: Templates,
    l: DiskLayout,
    g: Fat32Geometry,
    ids: GeneratedIds,
)
    requires
        formattable(device, t, l, g),
        disk.len() >= device.virtual_usable_size,
    ensures
        ({
            let mbr = disk_sector(with_structures(disk, t, l, g, ids), 0);
            &&& l.disk_sectors <= 0x1_0000_0000 ==> field(mbr, 458, 4) == l.disk_sectors - 1
            &&& l.disk_sectors > 0x1_0000_0000 ==> field(mbr, 458, 4) == 0xffff_ffff
            &&& forall|i: int|
                0 <= i < 458 || 462 <= i < 512 ==> #[trigger] mbr[i] == t.protective_mbr@[i]
        }),
{
    let mbr = protective_mbr(t.protective_mbr@, l.disk_sectors as int);
    lemma_disk_order(device, t, l, g);
    lemma_write_places(t, l, g, ids);
    structures_are_found(device, disk, t, l, g, ids, 4);
    assert(structure_writes(t, l, g, ids)[4].contents() == mbr);
    protective_mbrs_cover_the_disk(t.protective_mbr@, l.disk_sectors);
}

/// Where the partition table of a formatted disk holds no field of the disk, it
/// is that of the templates.
pub proof fn formatted_tables_are_those_of_the_templates(
    device: IoDevice,
    disk: Seq<u8>,
    t: Templates,
    l: DiskLayout,
    g: Fat32Geometry,
    ids: GeneratedIds,
)
    requires
        formattable(device, t, l, g),
        disk.len() >= device.virtual_usable_size,
    ensures
        ({
            let after = with_structures(disk, t, l, g, ids);
            let primary = disk_sector(after, 1);
            let backup = disk_sector(after, l.last_lba as int);
            let entries = after.subrange(1024, 17_408);
            &&& forall|i: int|
                0 <= i < 16 || 20 <= i < 24 || 92 <= i < 512 ==> #[trigger] primary[i]
                    == t.gpt_primary_header@[i]
            &&& forall|i: int|
                0 <= i < 16 || 20 <= i < 24 || 92 <= i < 512 ==> #[trigger] backup[i]
                    == t.gpt_backup_header@[i]
            &&& forall|i: int|
                0 <= i < 16 || 32 <= i < 144 || 160 <= i < 168 || 176 <= i < 16_384
                    ==> #[trigger] entries[i] == t.gpt_entries@[i]
        }),
{
    let writes = structure_writes(t, l, g, ids);
    let entries = gpt_entries(
        t.gpt_entries@,
        g.partition_end_lba as int,
        ids.msr_guid.canonical@,
        ids.basic_guid.canonical@,
    );
    let crc = crc32_of(entries);
    let guid = ids.disk_guid.canonical@;
    lemma_write_places(t, l, g, ids);
    lemma_disk_order(device, t, l, g);
    structures_are_found(device, disk, t, l, g, ids, 5);
    structures_are_found(device, disk, t, l, g, ids, 6);
    structures_are_found(device, disk, t, l, g, ids, 13);
    assert(writes[6].contents() == entries);
    lemma_header_fields(t.gpt_primary_header@, guid, 1, l.last_lba, l.last_usable_lba, 2, crc);
    lemma_header_fields(
        t.gpt_backup_header@,
        guid,
        l.last_lba,
        1,
        l.last_usable_lba,
        l.backup_entries_lba,
        crc,
    );
    gpt_entries_hold_guids_and_end(
        t.gpt_entries@,
        g.partition_end_lba,
        ids.msr_guid.canonical@,
        ids.basic_guid.canonical@,
    );
}

/// The root directory of a formatted disk is that of the template, with the
/// label's times of creation, last access and last write put in.
pub proof fn formatted_root_directories_bear_the_label_times(
    device: IoDevice,
    disk: Seq<u8>,
    t: Templates,
    l: DiskLayout,
    g: Fat32Geometry,
    ids: GeneratedIds,
)
    requires
        formattable(device, t, l, g),
        disk.len() >= device.virtual_usable_size,
    ensures
        ({
            let after = with_structures(disk, t, l, g, ids);
            let at = g.data_start_lba * 512;
            let root = after.subrange(at, at + t.root_cluster@.len());
            let time = ids.volume_label_time;
            &&& root[13] == time.tenth
            &&& field(root, 14, 2) == time.time
            &&& field(root, 16, 2) == time.date
            &&& field(root, 18, 2) == time.date
            &&& field(root, 22, 2) == time.time
            &&& field(root, 24, 2) == time.date
            &&& forall|i: int|
                0 <= i < 13 || 20 <= i < 22 || 26 <= i < root.len() ==> #[trigger] root[i]
                    == t.root_cluster@[i]
        }),
{
    let time = ids.volume_label_time;
    let root = entry_stamped(t.root_cluster@, 0, time);
    lemma_write_places(t, l, g, ids);
    lemma_disk_order(device, t, l, g);
    structures_are_found(device, disk, t, l, g, ids, 11);
    assert(structure_writes(t, l, g, ids)[11].contents() == root);
    entries_are_stamped_in_place(t.root_cluster@, 0, time);
}

/// Both FATs of a formatted disk are the template's, filled up with zeroes, but
/// for an end marker in the entry behind the last cluster where the template
/// reaches that far.
pub proof fn formatted_fats_are_those_of_the_template(
    device: IoDevice,
    disk: Seq<u8>,
    t: Templates,
    l: DiskLayout,
    g: Fat32Geometry,
    ids: GeneratedIds,
    i: int,
)
    requires
        formattable(device, t, l, g),
        disk.len() >= device.virtual_usable_size,
        0 <= i < g.sectors_per_fat * 512,
    ensures
        ({
            let after = with_structures(disk, t, l, g, ids);
            let end = (g.total_clusters + 2) * 4;
            let byte: u8 = if end + 4 <= t.fat_prefix@.len() && end <= i < end + 3 {
                0xff
            } else if end + 4 <= t.fat_prefix@.len() && i == end + 3 {
                0x0f
            } else {
                template_byte(t.fat_prefix@, i)
            };
            &&& after[g.first_fat_lba * 512 + i] == byte
            &&& after[g.second_fat_lba * 512 + i] == byte
        }),
{
    lemma_fat_byte(device, disk, t, l, g, ids, false, i);
    lemma_fat_byte(device, disk, t, l, g, ids, true, i);
    if i < t.fat_prefix@.len() {
        fat_prefixes_end_with_a_marker(t.fat_prefix@, g.total_clusters as int, i);
    }
    assert(fat_prefix(t.fat_prefix@, g.total_clusters as int).len() == t.fat_prefix@.len());
}

/// Formatting leaves nothing of the disk's old contents in the reserved
/// partition, which starts as the template says and holds zeroes behind, nor
/// between the FAT32 partition and the backup of the partition table, where all
/// is zero. What lies behind the root directory in the FAT32 partition it leaves
/// as it was.
pub proof fn formatting_clears_around_the_partition(
    device: IoDevice,
    disk: Seq<u8>,
    t: Templates,
    l: DiskLayout,
    g: Fat32Geometry,
    ids: GeneratedIds,
    i: int,
)
    requires
        formattable(device, t, l, g),
        disk.len() >= device.virtual_usable_size,
        0 <= i < disk.len(),
    ensures
        ({
            let after = with_structures(disk, t, l, g, ids);
            &&& after.len() == disk.len()
            &&& 34 * 512 <= i < 32_768 * 512 ==> after[i] == template_byte(
                t.msr_prefix@,
                i - 34 * 512,
            )
            &&& (g.partition_end_lba + 1) * 512 <= i < l.backup_entries_lba * 512 ==> after[i] == 0
            &&& g.data_start_lba * 512 + t.root_cluster@.len() <= i < (g.partition_end_lba + 1)
                * 512 ==> after[i] == disk[i]
        }),
{
    let writes = structure_writes(t, l, g, ids);
    lemma_write_places(t, l, g, ids);
    lemma_disk_order(device, t, l, g);
    lemma_disk_len(disk, writes);
    if 34 * 512 <= i < 32_768 * 512 {
        assert(writes[7].contents() == t.msr_prefix@);
        let n: int = if i - 34 * 512 < t.msr_prefix@.len() {
            7
        } else {
            0
        };
        assert(covers(writes[n], i));
        assert forall|m: int| n < m < writes.len() implies !covers(#[trigger] writes[m], i) by {}
        lemma_last_write_wins(disk, writes, n, i);
    }
    if (g.partition_end_lba + 1) * 512 <= i < l.backup_entries_lba * 512 {
        assert(covers(writes[3], i));
        assert forall|m: int| 3 < m < writes.len() implies !covers(#[trigger] writes[m], i) by {}
        lemma_last_write_wins(disk, writes, 3, i);
    }
    if g.data_start_lba * 512 + t.root_cluster@.len() <= i < (g.partition_end_lba + 1) * 512 {
        assert forall|m: int| 0 <= m < writes.len() implies !covers(#[trigger] writes[m], i) by {}
        lemma_uncovered_byte(disk, writes, i);
    }
}

/// A byte that no write covers stays as it was.
proof fn lemma_uncovered_byte(disk: Seq<u8>, writes: Seq<WriteView>, i: int)
    requires
        0 <= i < disk.len(),
        forall|j: int| 0 <= j < writes.len() ==> !covers(#[trigger] writes[j], i),
    ensures
        disk_after(disk, writes)[i] == disk[i],
    decreases writes.len(),
{
    lemma_disk_len(disk, writes.drop_last());
    if writes.len() > 0 {
        let shorter = writes.drop_last();
        assert forall|j: int| 0 <= j < shorter.len() implies !covers(#[trigger] shorter[j], i) by {
            assert(shorter[j] == writes[j]);
        }
        lemma_uncovered_byte(disk, shorter, i);
        assert(!covers(writes[writes.len() - 1], i));
    }
}

/// A disk that was formatted by performing a plan, the hidden header last, opens
/// again: its boot sector leads to the sector that the plan named, the header
/// there names the sectors from the next one to the end that the plan named, and
/// these lie on the disk, before the gap behind the partition.
pub proof fn performed_plans_open_again(
    device: IoDevice,
    disk: Seq<u8>,
    t: Templates,
    random: IdRandom,
    now_secs: int,
    plan: FormatPlan,
    line: Seq<char>,
    header: WriteView,
    k: CipherKeys,
)
    requires
        plan_for(plan, device, t, random, now_secs),
        header_for(line, header, plan, k),
        disk.len() >= device.virtual_usable_size,
    ensures
        ({
            let after = disk_after(disk, write_views(plan.writes@).push(header));
            let boot = disk_sector(after, 32_768);
            &&& after.len() == disk.len()
            &&& boot_layout(boot, 512) matches Ok(data) && header_lba(data) == plan.start_lba
            &&& found_header(
                k,
                plan.start_lba,
                disk_sector(after, plan.start_lba as int),
            ) matches Ok(h) && {
                &&& h.starting_lba == plan.start_lba + 1
                &&& h.ending_lba == plan.end_lba
                &&& payload_bytes(h, 512) == Ok::<int, HazmatError>(
                    (plan.end_lba - plan.start_lba) * 512,
                )
            }
            &&& plan.start_lba < plan.end_lba
            &&& (plan.end_lba + 1 + 4096) * 512 <= device.virtual_usable_size
        }),
{
    let l = layout(device)->Ok_0;
    let g = geometry(l.fat32_end_lba as int)->Ok_0;
    lemma_disk_order(device, t, l, g);
    lemma_disk_len(disk, write_views(plan.writes@).push(header));
    performed_plans_format_the_disk(disk, t, l, g, plan.ids, k);
    opening_finds_what_formatting_hid(device, disk, t, l, g, plan.ids, k);
}

/// The steps that format a target fill it with random bytes first, then write the
/// structures, and the hidden header last; performed on the filled target they
/// make a disk that opens again. Where the target is refused, nothing but random
/// bytes is written before the run is given up.
pub proof fn format_runs_end_with_a_disk_that_opens(
    steps: Seq<FormatStep>,
    device: IoDevice,
    filled: Seq<u8>,
    k: CipherKeys,
    t: Templates,
    random: IdRandom,
    now_secs: int,
)
    requires
        steps_for(steps, device, k, t, random, now_secs),
        filled.len() >= device.virtual_usable_size,
    ensures
        device.blk_size <= usize::MAX ==> steps[0] == FormatStep::Sanitize(sanitize_plan(device)),
        device.blk_size <= usize::MAX && refusal(device, t, now_secs) is None <==> steps.len() == 3,
        steps.len() == 3 || steps.len() > 0 && steps.last() is Refuse && forall|i: int|
            0 <= i < steps.len() - 1 ==> #[trigger] steps[i] is Sanitize,
        match steps.last() {
            FormatStep::Refuse(e) => steps.len() < 3 && if device.blk_size > usize::MAX {
                e == HazmatError::BlockSizeTooLarge { blk_size: device.blk_size }
            } else {
                refusal(device, t, now_secs) == Some(e)
            },
            FormatStep::Header { line, write } => {
                &&& steps.len() == 3
                &&& steps[1] matches FormatStep::Structures(plan)
                &&& line@ == placement_line(plan.start_lba, plan.end_lba)
                &&& ({
                    let after = disk_after(filled, write_views(plan.writes@).push(write@));
                    let boot = disk_sector(after, 32_768);
                    &&& boot_layout(boot, 512) matches Ok(data) && header_lba(data)
                        == plan.start_lba
                    &&& found_header(
                        k,
                        plan.start_lba,
                        disk_sector(after, plan.start_lba as int),
                    ) matches Ok(h) && h.starting_lba == plan.start_lba + 1 && h.ending_lba
                        == plan.end_lba
                })
            },
            _ => false,
        },
{
    if let FormatStep::Header { line, write } = steps.last() {
        if let FormatStep::Structures(plan) = steps[1] {
            performed_plans_open_again(
                device,
                filled,
                t,
                random,
                now_secs,
                plan,
                line@,
                write@,
                k,
            );
        }
    }
}

} // verus!
