//! The protective MBR and the GUID partition table.

use vstd::prelude::*;

use crate::msfat32::boot::field;
use crate::msfat32::crc::{crc32, crc32_of};
use crate::msfat32::ids::{guid_on_disk, GeneratedIds};
use crate::utils::{
    copy_at, le_bytes, le_value, lemma_le_bytes_len, lemma_le_round_trip, lemma_pow256_values,
    put_le, splice,
};

verus! {

/// Sectors in a GPT entry array.
pub const GPT_ENTRY_ARRAY_SECTORS: u64 = 32;

/// Entries in a GPT entry array.
pub const GPT_ENTRY_COUNT: u32 = 128;

/// Bytes in a GPT entry.
pub const GPT_ENTRY_SIZE: u32 = 128;

/// Bytes in a GPT entry array.
pub const GPT_ENTRY_ARRAY_SIZE: u64 = 16_384;

/// Bytes of a GPT header that its checksum covers.
pub const GPT_HEADER_SIZE: usize = 92;

/// First sector that GPT partitions may use; the reserved partition starts
/// there.
pub const MSR_START_LBA: u64 = 34;

/// Writes a little-endian `u32` into an on-disk structure.
pub fn write_u32(bytes: &mut [u8], offset: usize, value: u64)
    requires
        offset + 4 <= old(bytes)@.len(),
        value <= u32::MAX,
    ensures
        final(bytes)@ == splice(old(bytes)@, offset as int, le_bytes(value as nat, 4)),
{
    put_le(bytes, offset, value as u128, 4);
}

/// Writes a little-endian `u16` into an on-disk structure.
pub fn write_u16(bytes: &mut [u8], offset: usize, value: u64)
    requires
        offset + 2 <= old(bytes)@.len(),
        value <= u16::MAX,
    ensures
        final(bytes)@ == splice(old(bytes)@, offset as int, le_bytes(value as nat, 2)),
{
    put_le(bytes, offset, value as u128, 2);
}

/// Writes a little-endian `u64` into an on-disk structure.
pub fn write_u64(bytes: &mut [u8], offset: usize, value: u64)
    requires
        offset + 8 <= old(bytes)@.len(),
    ensures
        final(bytes)@ == splice(old(bytes)@, offset as int, le_bytes(value as nat, 8)),
{
    put_le(bytes, offset, value as u128, 8);
}

/// Sectors that the protective MBR partition covers: all but the first, as far
/// as 32 bits can count.
pub open spec fn protective_size(disk_sectors: int) -> int {
    if disk_sectors - 1 <= u32::MAX {
        disk_sectors - 1
    } else {
        u32::MAX as int
    }
}

/// The protective MBR of a disk.
pub open spec fn protective_mbr(template: Seq<u8>, disk_sectors: int) -> Seq<u8> {
    splice(template, 458, le_bytes(protective_size(disk_sectors) as nat, 4))
}

/// The GPT entry array of a disk whose FAT32 partition ends with `end_lba`.
pub open spec fn gpt_entries(
    template: Seq<u8>,
    end_lba: int,
    msr_guid: Seq<u8>,
    basic_guid: Seq<u8>,
) -> Seq<u8> {
    splice(
        splice(splice(template, 16, guid_on_disk(msr_guid)), 144, guid_on_disk(basic_guid)),
        168,
        le_bytes(end_lba as nat, 8),
    )
}

/// A GPT header with all fields in place but a zero checksum.
pub open spec fn gpt_header_unsealed(
    template: Seq<u8>,
    disk_guid: Seq<u8>,
    current_lba: int,
    backup_lba: int,
    last_usable_lba: int,
    entries_lba: int,
    entries_crc: u32,
) -> Seq<u8> {
    let h = splice(template, 16, le_bytes(0, 4));
    let h = splice(h, 24, le_bytes(current_lba as nat, 8));
    let h = splice(h, 32, le_bytes(backup_lba as nat, 8));
    let h = splice(h, 40, le_bytes(MSR_START_LBA as nat, 8));
    let h = splice(h, 48, le_bytes(last_usable_lba as nat, 8));
    let h = splice(h, 56, guid_on_disk(disk_guid));
    let h = splice(h, 72, le_bytes(entries_lba as nat, 8));
    let h = splice(h, 80, le_bytes(GPT_ENTRY_COUNT as nat, 4));
    let h = splice(h, 84, le_bytes(GPT_ENTRY_SIZE as nat, 4));
    splice(h, 88, le_bytes(entries_crc as nat, 4))
}

/// A header with the checksum of its covered bytes put in.
pub open spec fn sealed(header: Seq<u8>) -> Seq<u8> {
    splice(header, 16, le_bytes(crc32_of(header.take(GPT_HEADER_SIZE as int)) as nat, 4))
}

/// Whether the checksum field of a header is that of the header with the field
/// zeroed, which is what a reader of the disk verifies.
pub open spec fn header_checksum_holds(header: Seq<u8>) -> bool {
    le_value(header.subrange(16, 20)) == crc32_of(
        splice(header, 16, le_bytes(0, 4)).take(GPT_HEADER_SIZE as int),
    )
}

/// Patches the protective MBR partition length for the target disk size.
pub fn patched_protective_mbr(template: &[u8; 512], disk_sectors: u64) -> (mbr: [u8; 512])
    requires
        disk_sectors >= 1,
    ensures
        mbr@ == protective_mbr(template@, disk_sectors as int),
{
    let mut mbr: [u8; 512] = *template;
    let size: u64 = if disk_sectors - 1 <= 0xffff_ffff {
        disk_sectors - 1
    } else {
        0xffff_ffff
    };
    write_u32(&mut mbr, 458, size);
    mbr
}

/// Patches GPT partition entries with fresh partition GUIDs and the computed
/// FAT32 partition end.
pub fn patched_gpt_entries(template: &[u8], fat32_end_lba: u64, ids: &GeneratedIds) -> (entries:
    Vec<u8>)
    requires
        template@.len() >= 176,
    ensures
        entries@ == gpt_entries(
            template@,
            fat32_end_lba as int,
            ids.msr_guid.canonical@,
            ids.basic_guid.canonical@,
        ),
{
    let mut entries: Vec<u8> = vstd::slice::slice_to_vec(template);
    copy_at(entries.as_mut_slice(), 16, &ids.msr_guid.gpt_bytes());
    copy_at(entries.as_mut_slice(), 144, &ids.basic_guid.gpt_bytes());
    write_u64(entries.as_mut_slice(), 168, fat32_end_lba);
    entries
}

/// Patches a primary or backup GPT header and computes its checksum after all
/// fields are in their final on-disk form.
pub fn patched_gpt_header(
    template: &[u8; 512],
    ids: &GeneratedIds,
    current_lba: u64,
    backup_lba: u64,
    last_usable_lba: u64,
    partition_entries_lba: u64,
    entries_crc: u32,
) -> (header: [u8; 512])
    ensures
        header@ == sealed(
            gpt_header_unsealed(
                template@,
                ids.disk_guid.canonical@,
                current_lba as int,
                backup_lba as int,
                last_usable_lba as int,
                partition_entries_lba as int,
                entries_crc,
            ),
        ),
{
    let mut header: [u8; 512] = *template;
    write_u32(&mut header, 16, 0);
    write_u64(&mut header, 24, current_lba);
    write_u64(&mut header, 32, backup_lba);
    write_u64(&mut header, 40, MSR_START_LBA);
    write_u64(&mut header, 48, last_usable_lba);
    copy_at(&mut header, 56, &ids.disk_guid.gpt_bytes());
    write_u64(&mut header, 72, partition_entries_lba);
    write_u32(&mut header, 80, GPT_ENTRY_COUNT as u64);
    write_u32(&mut header, 84, GPT_ENTRY_SIZE as u64);
    write_u32(&mut header, 88, entries_crc as u64);
    let header_crc: u32 = crc32(vstd::slice::slice_subrange(&header, 0, GPT_HEADER_SIZE));
    proof {
        assert(header@.subrange(0, GPT_HEADER_SIZE as int) =~= header@.take(
            GPT_HEADER_SIZE as int,
        ));
    }
    write_u32(&mut header, 16, header_crc as u64);
    header
}

/// The header that is written passes the check that readers of the disk make.
pub proof fn gpt_headers_check_out(
    template: Seq<u8>,
    disk_guid: Seq<u8>,
    current_lba: int,
    backup_lba: int,
    last_usable_lba: int,
    entries_lba: int,
    entries_crc: u32,
)
    requires
        template.len() == 512,
        disk_guid.len() == 16,
    ensures
        header_checksum_holds(
            sealed(
                gpt_header_unsealed(
                    template,
                    disk_guid,
                    current_lba,
                    backup_lba,
                    last_usable_lba,
                    entries_lba,
                    entries_crc,
                ),
            ),
        ),
{
    let h = gpt_header_unsealed(
        template,
        disk_guid,
        current_lba,
        backup_lba,
        last_usable_lba,
        entries_lba,
        entries_crc,
    );
    let crc = crc32_of(h.take(GPT_HEADER_SIZE as int));
    let s = sealed(h);
    lemma_le_bytes_len(0, 4);
    lemma_le_bytes_len(crc as nat, 4);
    lemma_pow256_values();
    lemma_le_round_trip(crc as nat, 4);
    assert(s.subrange(16, 20) =~= le_bytes(crc as nat, 4));
    lemma_le_bytes_len(current_lba as nat, 8);
    lemma_le_bytes_len(backup_lba as nat, 8);
    lemma_le_bytes_len(MSR_START_LBA as nat, 8);
    lemma_le_bytes_len(last_usable_lba as nat, 8);
    lemma_le_bytes_len(entries_lba as nat, 8);
    lemma_le_bytes_len(GPT_ENTRY_COUNT as nat, 4);
    lemma_le_bytes_len(GPT_ENTRY_SIZE as nat, 4);
    lemma_le_bytes_len(entries_crc as nat, 4);
    assert(h.len() == 512);
    assert(h.subrange(16, 20) =~= le_bytes(0, 4));
    assert forall|i: int| 16 <= i < 20 implies h[i] == le_bytes(0, 4)[i - 16] by {
        assert(h.subrange(16, 20)[i - 16] == h[i]);
    }
    assert(splice(s, 16, le_bytes(0, 4)) =~= h);
}

/// A GPT header holds its own sector, that of the other header, the first and the
/// last sector that partitions may use, the GUID of the disk, and where how many
/// entries of what size with what checksum are; its own checksum holds, and all
/// else is as in the template.
pub proof fn gpt_headers_hold_their_fields(
    template: Seq<u8>,
    guid: Seq<u8>,
    current: u64,
    backup: u64,
    last_usable: u64,
    entries: u64,
    crc: u32,
)
    requires
        template.len() == 512,
        guid.len() == 16,
    ensures
        ({
            let h = sealed(
                gpt_header_unsealed(
                    template,
                    guid,
                    current as int,
                    backup as int,
                    last_usable as int,
                    entries as int,
                    crc,
                ),
            );
            &&& h.len() == 512
            &&& header_checksum_holds(h)
            &&& field(h, 24, 8) == current
            &&& field(h, 32, 8) == backup
            &&& field(h, 40, 8) == 34
            &&& field(h, 48, 8) == last_usable
            &&& h.subrange(56, 72) == guid_on_disk(guid)
            &&& field(h, 72, 8) == entries
            &&& field(h, 80, 4) == 128
            &&& field(h, 84, 4) == 128
            &&& field(h, 88, 4) == crc
            &&& forall|i: int|
                0 <= i < 16 || 20 <= i < 24 || 92 <= i < 512 ==> #[trigger] h[i] == template[i]
        }),
{
    gpt_headers_check_out(
        template,
        guid,
        current as int,
        backup as int,
        last_usable as int,
        entries as int,
        crc,
    );
    let u = gpt_header_unsealed(
        template,
        guid,
        current as int,
        backup as int,
        last_usable as int,
        entries as int,
        crc,
    );
    let h = sealed(u);
    let seal = crc32_of(u.take(GPT_HEADER_SIZE as int));
    lemma_le_bytes_len(seal as nat, 4);
    lemma_le_bytes_len(0, 4);
    lemma_le_bytes_len(current as nat, 8);
    lemma_le_bytes_len(backup as nat, 8);
    lemma_le_bytes_len(MSR_START_LBA as nat, 8);
    lemma_le_bytes_len(last_usable as nat, 8);
    lemma_le_bytes_len(entries as nat, 8);
    lemma_le_bytes_len(GPT_ENTRY_COUNT as nat, 4);
    lemma_le_bytes_len(GPT_ENTRY_SIZE as nat, 4);
    lemma_le_bytes_len(crc as nat, 4);
    lemma_pow256_values();
    lemma_le_round_trip(current as nat, 8);
    lemma_le_round_trip(backup as nat, 8);
    lemma_le_round_trip(MSR_START_LBA as nat, 8);
    lemma_le_round_trip(last_usable as nat, 8);
    lemma_le_round_trip(entries as nat, 8);
    lemma_le_round_trip(GPT_ENTRY_COUNT as nat, 4);
    lemma_le_round_trip(GPT_ENTRY_SIZE as nat, 4);
    lemma_le_round_trip(crc as nat, 4);
    assert(h.subrange(80, 84) =~= le_bytes(GPT_ENTRY_COUNT as nat, 4));
    assert(h.subrange(84, 88) =~= le_bytes(GPT_ENTRY_SIZE as nat, 4));
    assert(h.subrange(24, 32) =~= le_bytes(current as nat, 8));
    assert(h.subrange(32, 40) =~= le_bytes(backup as nat, 8));
    assert(h.subrange(40, 48) =~= le_bytes(MSR_START_LBA as nat, 8));
    assert(h.subrange(48, 56) =~= le_bytes(last_usable as nat, 8));
    assert(h.subrange(56, 72) =~= guid_on_disk(guid));
    assert(h.subrange(72, 80) =~= le_bytes(entries as nat, 8));
    assert(h.subrange(88, 92) =~= le_bytes(crc as nat, 4));
}

/// The entry array holds the GUIDs of the two partitions and the last sector of
/// the second; all else is as in the template.
pub proof fn gpt_entries_hold_guids_and_end(
    template: Seq<u8>,
    end_lba: u64,
    msr_guid: Seq<u8>,
    basic_guid: Seq<u8>,
)
    requires
        template.len() >= 176,
    ensures
        ({
            let e = gpt_entries(template, end_lba as int, msr_guid, basic_guid);
            &&& e.len() == template.len()
            &&& e.subrange(16, 32) == guid_on_disk(msr_guid)
            &&& e.subrange(144, 160) == guid_on_disk(basic_guid)
            &&& field(e, 168, 8) == end_lba
            &&& forall|i: int|
                0 <= i < 16 || 32 <= i < 144 || 160 <= i < 168 || 176 <= i < e.len()
                    ==> #[trigger] e[i] == template[i]
        }),
{
    let e = gpt_entries(template, end_lba as int, msr_guid, basic_guid);
    lemma_pow256_values();
    lemma_le_bytes_len(end_lba as nat, 8);
    lemma_le_round_trip(end_lba as nat, 8);
    assert(e.subrange(168, 176) =~= le_bytes(end_lba as nat, 8));
    assert(e.subrange(16, 32) =~= guid_on_disk(msr_guid));
    assert(e.subrange(144, 160) =~= guid_on_disk(basic_guid));
}

/// The partition of the protective MBR covers all sectors but the first, as far as
/// 32 bits can count them; all else is as in the template.
pub proof fn protective_mbrs_cover_the_disk(template: Seq<u8>, disk_sectors: u64)
    requires
        template.len() == 512,
        disk_sectors >= 1,
    ensures
        ({
            let mbr = protective_mbr(template, disk_sectors as int);
            &&& mbr.len() == 512
            &&& disk_sectors <= 0x1_0000_0000 ==> field(mbr, 458, 4) == disk_sectors - 1
            &&& disk_sectors > 0x1_0000_0000 ==> field(mbr, 458, 4) == 0xffff_ffff
            &&& forall|i: int|
                0 <= i < 458 || 462 <= i < 512 ==> #[trigger] mbr[i] == template[i]
        }),
{
    let mbr = protective_mbr(template, disk_sectors as int);
    let size = protective_size(disk_sectors as int) as nat;
    lemma_pow256_values();
    lemma_le_bytes_len(size, 4);
    lemma_le_round_trip(size, 4);
    assert(mbr.subrange(458, 462) =~= le_bytes(size, 4));
}

} // verus!
