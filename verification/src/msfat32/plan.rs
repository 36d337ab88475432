//! What formatting writes, and where.

use vstd::prelude::*;
use vstd::string::*;

use crate::error::HazmatError;
use crate::io::{texts, IoDevice};
use crate::msfat32::boot::field;
use crate::msfat32::crc::{crc32, crc32_of};
use crate::msfat32::fat::{
    entry_stamped, fat_prefix, patched_fat32_reserved_region, patched_fat_prefix,
    patched_root_cluster, reserved_region,
};
use crate::msfat32::geometry::{
    fat32_geometry, geometry, geometry_partitions_the_disk, Fat32Geometry,
    FAT32_FATS, FAT32_SECTORS_PER_CLUSTER, FAT32_START_LBA, FIRST_UNUSED_CLUSTER, SECTOR_SIZE,
};
use crate::msfat32::gpt::{
    gpt_entries, gpt_header_unsealed, patched_gpt_entries, patched_gpt_header,
    patched_protective_mbr, protective_mbr, sealed, GPT_ENTRY_ARRAY_SECTORS,
    GPT_ENTRY_ARRAY_SIZE, MSR_START_LBA,
};
use crate::msfat32::ids::{
    guid_text, ids_drawn, latest_day, timestamp_text, GeneratedIds, IdRandom, LAST_SUPPORTED_DAY,
    SECONDS_PER_DAY, UNIX_DAYS_TO_2000_01_01,
};
use crate::text::{
    all_decimal, decimal, decimal_text, decimal_text_spells_the_number, decimal_value, hex_bytes,
    hex_text,
};
use crate::utils::{le_bytes, print_report, read_le_u16, report_row, splice};

verus! {

/// Sectors left free between the FAT32 partition and the end of the disk.
pub const MIN_TRAILING_GAP_SECTORS: u64 = 4_096;

/// Label width of the format report.
pub const REPORT_LABEL_WIDTH: usize = 27;

/// The Windows-made structures that the cover disk is built from.
#[derive(Debug)]
pub struct Templates {
    /// The protective MBR.
    pub protective_mbr: [u8; 512],
    /// The primary GPT header.
    pub gpt_primary_header: [u8; 512],
    /// The backup GPT header.
    pub gpt_backup_header: [u8; 512],
    /// The GPT entry array.
    pub gpt_entries: Vec<u8>,
    /// The start of the reserved partition.
    pub msr_prefix: Vec<u8>,
    /// The reserved region of the FAT32 partition.
    pub fat32_reserved: Vec<u8>,
    /// The start of each FAT.
    pub fat_prefix: Vec<u8>,
    /// The cluster of the root directory.
    pub root_cluster: Vec<u8>,
}

impl Templates {
    /// Every structure fits in the area that it belongs to: the entry array is
    /// as long as the partition table says, and the others do not reach into
    /// what follows them.
    pub open spec fn fit(self, fat32: Fat32Geometry) -> bool {
        &&& self.gpt_entries@.len() == GPT_ENTRY_ARRAY_SIZE
        &&& self.msr_prefix@.len() <= (FAT32_START_LBA - MSR_START_LBA) * SECTOR_SIZE
        &&& self.fat_prefix@.len() <= fat32.sectors_per_fat * SECTOR_SIZE
        &&& 26 <= self.root_cluster@.len() <= FAT32_SECTORS_PER_CLUSTER * SECTOR_SIZE
    }

    /// The reserved region starts with a boot sector for the sectors, clusters
    /// and FATs that the layout uses.
    pub open spec fn bootable(self) -> bool {
        let boot = self.fat32_reserved@;
        &&& boot.len() >= SECTOR_SIZE
        &&& boot[510] == 0x55 && boot[511] == 0xaa
        &&& field(boot, 11, 2) == SECTOR_SIZE
        &&& boot[13] == FAT32_SECTORS_PER_CLUSTER
        &&& boot[16] == FAT32_FATS
        &&& field(boot, 19, 2) == 0
        &&& field(boot, 22, 2) == 0
    }

    /// Tells whether a disk of the given geometry can be built from the
    /// structures.
    pub fn suit(&self, fat32: &Fat32Geometry) -> (suit: bool)
        requires
            fat32.sectors_per_fat * SECTOR_SIZE <= u64::MAX,
        ensures
            suit == (self.fit(*fat32) && self.bootable()),
    {
        let root: u64 = self.root_cluster.len() as u64;
        if self.gpt_entries.len() as u64 != GPT_ENTRY_ARRAY_SIZE {
            return false;
        }
        if self.msr_prefix.len() as u64 > (FAT32_START_LBA - MSR_START_LBA) * SECTOR_SIZE {
            return false;
        }
        if self.fat_prefix.len() as u64 > fat32.sectors_per_fat * SECTOR_SIZE {
            return false;
        }
        if root < 26 || root > FAT32_SECTORS_PER_CLUSTER * SECTOR_SIZE {
            return false;
        }
        let boot: &[u8] = self.fat32_reserved.as_slice();
        if (boot.len() as u64) < SECTOR_SIZE {
            return false;
        }
        boot[510] == 0x55 && boot[511] == 0xaa && read_le_u16(boot, 11) as u64 == SECTOR_SIZE
            && boot[13] as u64 == FAT32_SECTORS_PER_CLUSTER && boot[16] as u64 == FAT32_FATS
            && read_le_u16(boot, 19) == 0 && read_le_u16(boot, 22) == 0
    }
}

/// A structure with a fixed place on the disk.
#[derive(Debug)]
pub struct Blob {
    /// First sector.
    pub start_lba: u64,
    /// Contents.
    pub bytes: Vec<u8>,
}

/// One write to the disk, to be performed in full.
#[derive(Debug)]
pub enum DiskWrite {
    /// Fill a range with zeroes.
    Zeroes {
        /// First byte of the range.
        offset: i64,
        /// Length of the range.
        len: u64,
    },
    /// Write bytes.
    Bytes {
        /// First byte of the range.
        offset: i64,
        /// The bytes.
        bytes: Vec<u8>,
    },
}

/// What a `DiskWrite` says.
pub enum WriteView {
    /// Fill a range with zeroes.
    Zeroes {
        /// First byte of the range.
        offset: int,
        /// Length of the range.
        len: nat,
    },
    /// Write bytes.
    Bytes {
        /// First byte of the range.
        offset: int,
        /// The bytes.
        bytes: Seq<u8>,
    },
}

impl View for DiskWrite {
    type V = WriteView;

    open spec fn view(&self) -> WriteView {
        match *self {
            DiskWrite::Zeroes { offset, len } => WriteView::Zeroes {
                offset: offset as int,
                len: len as nat,
            },
            DiskWrite::Bytes { offset, bytes } => WriteView::Bytes {
                offset: offset as int,
                bytes: bytes@,
            },
        }
    }
}

impl WriteView {
    /// First byte written.
    pub open spec fn start(self) -> int {
        match self {
            WriteView::Zeroes { offset, len } => offset,
            WriteView::Bytes { offset, bytes } => offset,
        }
    }

    /// The bytes written.
    pub open spec fn contents(self) -> Seq<u8> {
        match self {
            WriteView::Zeroes { offset, len } => Seq::new(len, |i: int| 0u8),
            WriteView::Bytes { offset, bytes } => bytes,
        }
    }

    /// First byte behind those written.
    pub open spec fn end(self) -> int {
        self.start() + self.contents().len()
    }
}

/// What several writes say.
pub open spec fn write_views(s: Seq<DiskWrite>) -> Seq<WriteView> {
    s.map_values(|w: DiskWrite| w@)
}

/// A disk after writes, performed in order.
pub open spec fn disk_after(disk: Seq<u8>, writes: Seq<WriteView>) -> Seq<u8>
    decreases writes.len(),
{
    if writes.len() == 0 {
        disk
    } else {
        let w = writes.last();
        splice(disk_after(disk, writes.drop_last()), w.start(), w.contents())
    }
}

/// Zeroes from sector `lba` on, over `count` sectors.
pub open spec fn zero_sectors(lba: int, count: int) -> WriteView {
    WriteView::Zeroes { offset: lba * SECTOR_SIZE, len: (count * SECTOR_SIZE) as nat }
}

/// Bytes from sector `lba` on.
pub open spec fn bytes_at(lba: int, bytes: Seq<u8>) -> WriteView {
    WriteView::Bytes { offset: lba * SECTOR_SIZE, bytes }
}

/// Rounds a byte size down to whole sectors.
pub fn fat32_usable_size(total_size: u64, sector_size: u64) -> (usable: u64)
    requires
        sector_size != 0,
    ensures
        usable == total_size - total_size % sector_size,
{
    proof {
        vstd::arithmetic::div_mod::lemma_mod_decreases(total_size as nat, sector_size as nat);
    }
    total_size - (total_size % sector_size)
}

/// Converts an LBA range to bytes and asks for zeroes there. An empty range
/// asks for nothing.
pub fn write_zeroes_at_lba(sector_size: u64, start_lba: u64, sector_count: u64) -> (result: Result<
    Option<DiskWrite>,
    HazmatError,
>)
    ensures
        match result {
            Ok(None) => sector_count == 0,
            Ok(Some(w)) => {
                &&& sector_count != 0
                &&& start_lba * sector_size <= i64::MAX
                &&& sector_count * sector_size <= u64::MAX
                &&& w@ == (WriteView::Zeroes {
                    offset: start_lba * sector_size,
                    len: (sector_count * sector_size) as nat,
                })
            },
            Err(e) => sector_count != 0 && if start_lba * sector_size > i64::MAX {
                e == HazmatError::LbaTooLarge { lba: start_lba }
            } else {
                sector_count * sector_size > u64::MAX && e == HazmatError::ZeroRangeTooLarge {
                    lba: start_lba,
                }
            },
        },
{
    if sector_count == 0 {
        return Ok(None);
    }
    let offset: i64 = match lba_offset(sector_size, start_lba) {
        Some(offset) => offset,
        None => {
            return Err(HazmatError::LbaTooLarge { lba: start_lba });
        },
    };
    match sector_count.checked_mul(sector_size) {
        Some(len) => Ok(Some(DiskWrite::Zeroes { offset, len })),
        None => Err(HazmatError::ZeroRangeTooLarge { lba: start_lba }),
    }
}

/// The byte offset of a sector, where it can be addressed.
pub fn lba_offset(sector_size: u64, lba: u64) -> (offset: Option<i64>)
    ensures
        match offset {
            Some(offset) => offset == lba * sector_size,
            None => lba * sector_size > i64::MAX,
        },
{
    match lba.checked_mul(sector_size) {
        Some(offset) => if offset <= i64::MAX as u64 {
            Some(offset as i64)
        } else {
            None
        },
        None => None,
    }
}

/// Converts one LBA to a byte offset and asks for the bytes there.
pub fn write_at_lba(sector_size: u64, lba: u64, bytes: Vec<u8>) -> (result: Result<
    DiskWrite,
    HazmatError,
>)
    ensures
        match result {
            Ok(w) => lba * sector_size <= i64::MAX && w@ == (WriteView::Bytes {
                offset: lba * sector_size,
                bytes: bytes@,
            }),
            Err(e) => lba * sector_size > i64::MAX && e == (HazmatError::LbaTooLarge { lba }),
        },
{
    match lba_offset(sector_size, lba) {
        Some(offset) => Ok(DiskWrite::Bytes { offset, bytes }),
        None => Err(HazmatError::LbaTooLarge { lba }),
    }
}

/// Asks for a structure at its fixed place.
pub fn write_fixed_blob(sector_size: u64, blob: &Blob) -> (result: Result<DiskWrite, HazmatError>)
    ensures
        match result {
            Ok(w) => blob.start_lba * sector_size <= i64::MAX && w@ == (WriteView::Bytes {
                offset: blob.start_lba * sector_size,
                bytes: blob.bytes@,
            }),
            Err(e) => blob.start_lba * sector_size > i64::MAX && e == (HazmatError::LbaTooLarge {
                lba: blob.start_lba,
            }),
        },
{
    write_at_lba(sector_size, blob.start_lba, vstd::slice::slice_to_vec(blob.bytes.as_slice()))
}

/// The sectors that fix the layout of a disk.
#[derive(Clone, Copy, Debug, PartialEq, Eq, Structural)]
pub struct DiskLayout {
    /// Sectors of the disk.
    pub disk_sectors: u64,
    /// Last sector of the disk; the backup GPT header.
    pub last_lba: u64,
    /// First sector of the backup GPT entries.
    pub backup_entries_lba: u64,
    /// Last sector that a partition may use.
    pub last_usable_lba: u64,
    /// Last sector of the FAT32 partition.
    pub fat32_end_lba: u64,
}

/// Whole sectors of a device.
pub open spec fn disk_sectors(device: IoDevice) -> int {
    device.virtual_usable_size as int / SECTOR_SIZE as int
}

/// The layout of a disk of `n` sectors.
pub open spec fn layout_with(n: int) -> DiskLayout {
    DiskLayout {
        disk_sectors: n as u64,
        last_lba: (n - 1) as u64,
        backup_entries_lba: (n - 1 - GPT_ENTRY_ARRAY_SECTORS) as u64,
        last_usable_lba: (n - 2 - GPT_ENTRY_ARRAY_SECTORS) as u64,
        fat32_end_lba: (n - MIN_TRAILING_GAP_SECTORS - 1) as u64,
    }
}

/// The layout of a device, or why it has none.
pub open spec fn layout(device: IoDevice) -> Result<DiskLayout, HazmatError> {
    if device.virtual_blk_size != SECTOR_SIZE {
        Err(HazmatError::VirtualBlockSize)
    } else if disk_sectors(device) <= FAT32_START_LBA + MIN_TRAILING_GAP_SECTORS
        + GPT_ENTRY_ARRAY_SECTORS {
        Err(HazmatError::DiskTooSmall)
    } else {
        Ok(layout_with(disk_sectors(device)))
    }
}

/// Places the partition table and the FAT32 partition on a device.
pub fn disk_layout(device: &IoDevice) -> (result: Result<DiskLayout, HazmatError>)
    ensures
        result == layout(*device),
{
    let sector_size: u64 = device.virtual_blk_size;
    if sector_size != SECTOR_SIZE {
        return Err(HazmatError::VirtualBlockSize);
    }
    let usable_size: u64 = fat32_usable_size(device.virtual_usable_size, sector_size);
    let sectors: u64 = usable_size / sector_size;
    if sectors <= FAT32_START_LBA + MIN_TRAILING_GAP_SECTORS + GPT_ENTRY_ARRAY_SECTORS {
        return Err(HazmatError::DiskTooSmall);
    }
    let last_lba: u64 = sectors - 1;
    let backup_entries_lba: u64 = last_lba - GPT_ENTRY_ARRAY_SECTORS;
    Ok(
        DiskLayout {
            disk_sectors: sectors,
            last_lba,
            backup_entries_lba,
            last_usable_lba: backup_entries_lba - 1,
            fat32_end_lba: sectors - MIN_TRAILING_GAP_SECTORS - 1,
        },
    )
}

/// `l` and `g` are the layout of a device that can be formatted with the given
/// templates.
pub open spec fn formattable(
    device: IoDevice,
    t: Templates,
    l: DiskLayout,
    g: Fat32Geometry,
) -> bool {
    &&& layout(device) == Ok::<DiskLayout, HazmatError>(l)
    &&& geometry(l.fat32_end_lba as int) == Ok::<Fat32Geometry, HazmatError>(g)
    &&& g.reserved_sectors <= u16::MAX
    &&& t.fit(g)
    &&& t.bootable()
}

/// Why formatting a device at a time is refused, if it is.
pub open spec fn refusal(device: IoDevice, t: Templates, now_secs: int) -> Option<HazmatError> {
    match layout(device) {
        Err(e) => Some(e),
        Ok(l) => if latest_day(now_secs) < UNIX_DAYS_TO_2000_01_01 {
            Some(HazmatError::ClockTooEarly)
        } else {
            match geometry(l.fat32_end_lba as int) {
                Err(e) => Some(e),
                Ok(g) => if g.reserved_sectors > u16::MAX {
                    Some(HazmatError::ReservedAreaTooLarge)
                } else if !(t.fit(g) && t.bootable()) {
                    Some(HazmatError::UnsuitableTemplates)
                } else {
                    None
                },
            }
        },
    }
}

/// The writes that format a disk, in order.
pub open spec fn structure_writes(
    t: Templates,
    l: DiskLayout,
    g: Fat32Geometry,
    ids: GeneratedIds,
) -> Seq<WriteView> {
    let entries = gpt_entries(
        t.gpt_entries@,
        g.partition_end_lba as int,
        ids.msr_guid.canonical@,
        ids.basic_guid.canonical@,
    );
    let entries_crc = crc32_of(entries);
    let primary = sealed(
        gpt_header_unsealed(
            t.gpt_primary_header@,
            ids.disk_guid.canonical@,
            1,
            l.last_lba as int,
            l.last_usable_lba as int,
            2,
            entries_crc,
        ),
    );
    let backup = sealed(
        gpt_header_unsealed(
            t.gpt_backup_header@,
            ids.disk_guid.canonical@,
            l.last_lba as int,
            1,
            l.last_usable_lba as int,
            l.backup_entries_lba as int,
            entries_crc,
        ),
    );
    let fat = fat_prefix(t.fat_prefix@, g.total_clusters as int);
    let gap = g.partition_end_lba + 1;
    seq![
        zero_sectors(MSR_START_LBA as int, FAT32_START_LBA - MSR_START_LBA),
        zero_sectors(g.first_fat_lba as int, g.sectors_per_fat as int),
        zero_sectors(g.second_fat_lba as int, g.sectors_per_fat as int),
        zero_sectors(gap, l.backup_entries_lba - gap),
        bytes_at(0, protective_mbr(t.protective_mbr@, l.disk_sectors as int)),
        bytes_at(1, primary),
        bytes_at(2, entries),
        bytes_at(MSR_START_LBA as int, t.msr_prefix@),
        bytes_at(
            FAT32_START_LBA as int,
            reserved_region(t.fat32_reserved@, g, ids.fat_volume_id),
        ),
        bytes_at(g.first_fat_lba as int, fat),
        bytes_at(g.second_fat_lba as int, fat),
        bytes_at(
            g.data_start_lba as int,
            entry_stamped(t.root_cluster@, 0, ids.volume_label_time),
        ),
        bytes_at(l.backup_entries_lba as int, entries),
        bytes_at(l.last_lba as int, backup),
    ]
}

/// Last sector of the FAT32 data area.
pub open spec fn data_end_lba(g: Fat32Geometry) -> int {
    g.data_start_lba + g.total_clusters * FAT32_SECTORS_PER_CLUSTER - 1
}

/// The rows of the format report.
pub open spec fn structure_report(
    l: DiskLayout,
    g: Fat32Geometry,
    ids: GeneratedIds,
) -> Seq<Seq<char>> {
    disk_report(l, g) + fat_report(g) + id_report(ids)
}

/// The rows on the disk and its partition table.
pub open spec fn disk_report(l: DiskLayout, g: Fat32Geometry) -> Seq<Seq<char>> {
    let w = REPORT_LABEL_WIDTH as int;
    seq![
        report_row(
            "disk"@,
            decimal(l.disk_sectors as nat) + " sectors ("@ + decimal(
                (l.disk_sectors * SECTOR_SIZE) as nat,
            ) + " bytes)"@,
            w,
        ),
        report_row("virtual block size"@, decimal(SECTOR_SIZE as nat), w),
        report_row(
            "FAT32 partition"@,
            "start LBA "@ + decimal(FAT32_START_LBA as nat) + ", end LBA "@ + decimal(
                g.partition_end_lba as nat,
            ) + ", length "@ + decimal(g.partition_len as nat) + " sectors"@,
            w,
        ),
        report_row(
            "backup GPT entries"@,
            "LBA "@ + decimal(l.backup_entries_lba as nat) + ".."@ + decimal(
                (l.last_lba - 1) as nat,
            ),
            w,
        ),
        report_row("backup GPT header"@, "LBA "@ + decimal(l.last_lba as nat), w),
    ]
}

/// The rows on the FAT32 areas.
pub open spec fn fat_report(g: Fat32Geometry) -> Seq<Seq<char>> {
    let w = REPORT_LABEL_WIDTH as int;
    seq![
        report_row("FAT32 reserved sectors"@, decimal(g.reserved_sectors as nat), w),
        report_row("FAT32 sectors/FAT"@, decimal(g.sectors_per_fat as nat), w),
        report_row("FAT32 total clusters"@, decimal(g.total_clusters as nat), w),
        report_row(
            "first unused FAT32 cluster"@,
            "cluster "@ + decimal(FIRST_UNUSED_CLUSTER as nat),
            w,
        ),
        report_row("first unused sector"@, "LBA "@ + decimal(g.first_unused_sector_lba as nat), w),
        report_row(
            "FAT32 data zero end"@,
            "LBA "@ + decimal((g.data_start_lba + FAT32_SECTORS_PER_CLUSTER - 1) as nat),
            w,
        ),
        report_row("FAT32 data end"@, "LBA "@ + decimal(data_end_lba(g) as nat), w),
    ]
}

/// The rows on the identities of the disk.
pub open spec fn id_report(ids: GeneratedIds) -> Seq<Seq<char>> {
    let w = REPORT_LABEL_WIDTH as int;
    seq![
        report_row("GPT disk GUID"@, guid_text(ids.disk_guid.canonical@), w),
        report_row("MSR partition GUID"@, guid_text(ids.msr_guid.canonical@), w),
        report_row("Basic Data partition GUID"@, guid_text(ids.basic_guid.canonical@), w),
        report_row(
            "FAT32 volume ID"@,
            "0x"@ + hex_bytes(le_bytes(ids.fat_volume_id as nat, 4).reverse()),
            w,
        ),
        report_row("volume label timestamp"@, timestamp_text(ids.volume_label_time), w),
    ]
}

/// What formatting a disk comes to.
#[derive(Debug)]
pub struct FormatPlan {
    /// The writes to perform, in order; the disk is to be flushed after them.
    pub writes: Vec<DiskWrite>,
    /// The rows of the report.
    pub report: Vec<String>,
    /// The identities given to the disk.
    pub ids: GeneratedIds,
    /// First unused FAT32 sector, where the hidden header belongs.
    pub start_lba: u64,
    /// Last sector of the FAT32 data area.
    pub end_lba: u64,
}

/// Appends a write that is known to be addressable.
fn queue(writes: &mut Vec<DiskWrite>, write: Result<DiskWrite, HazmatError>)
    requires
        write is Ok,
    ensures
        write_views(final(writes)@) == write_views(old(writes)@).push(write->Ok_0@),
{
    if let Ok(w) = write {
        writes.push(w);
        proof {
            assert(write_views(writes@) =~= write_views(old(writes)@).push(write->Ok_0@));
        }
    }
}

/// Appends a zero fill that is known to be addressable, if it is not empty.
fn queue_zeroes(writes: &mut Vec<DiskWrite>, write: Result<Option<DiskWrite>, HazmatError>)
    requires
        write is Ok,
    ensures
        write_views(final(writes)@) == match write->Ok_0 {
            Some(w) => write_views(old(writes)@).push(w@),
            None => write_views(old(writes)@),
        },
{
    if let Ok(Some(w)) = write {
        writes.push(w);
        proof {
            assert(write_views(writes@) =~= write_views(old(writes)@).push(w@));
        }
    }
}

/// Writes "LBA" and a sector number.
fn lba_text(lba: u64) -> (text: String)
    ensures
        text@ == "LBA "@ + decimal(lba as nat),
{
    let mut text = String::from_str("LBA ");
    text.append(decimal_text(lba).as_str());
    text
}

/// Writes a volume ID as eight hexadecimal digits.
fn volume_id_text(id: u32) -> (text: String)
    ensures
        text@ == "0x"@ + hex_bytes(le_bytes(id as nat, 4).reverse()),
{
    let bytes: [u8; 4] = [
        (id / 0x100_0000) as u8,
        (id / 0x1_0000 % 0x100) as u8,
        (id / 0x100 % 0x100) as u8,
        (id % 0x100) as u8,
    ];
    proof {
        reveal_with_fuel(le_bytes, 5);
        assert(bytes@.subrange(0, 4) =~= le_bytes(id as nat, 4).reverse());
    }
    let mut text = String::from_str("0x");
    text.append(hex_text(&bytes, 0, 4).as_str());
    text
}

/// The report rows on the disk and its partition table.
fn disk_rows(layout: DiskLayout, fat32: Fat32Geometry) -> (rows: Vec<String>)
    requires
        layout.disk_sectors * SECTOR_SIZE <= u64::MAX,
        1 <= layout.last_lba,
    ensures
        texts(rows@) == disk_report(layout, fat32),
{
    let w: usize = REPORT_LABEL_WIDTH;
    let mut rows: Vec<String> = Vec::new();

    let mut disk = decimal_text(layout.disk_sectors);
    disk.append(" sectors (");
    disk.append(decimal_text(layout.disk_sectors * SECTOR_SIZE).as_str());
    disk.append(" bytes)");
    rows.push(print_report("disk", disk.as_str(), w));

    rows.push(print_report("virtual block size", decimal_text(SECTOR_SIZE).as_str(), w));

    let mut partition = String::from_str("start LBA ");
    partition.append(decimal_text(FAT32_START_LBA).as_str());
    partition.append(", end LBA ");
    partition.append(decimal_text(fat32.partition_end_lba).as_str());
    partition.append(", length ");
    partition.append(decimal_text(fat32.partition_len).as_str());
    partition.append(" sectors");
    rows.push(print_report("FAT32 partition", partition.as_str(), w));

    let mut backup = lba_text(layout.backup_entries_lba);
    backup.append("..");
    backup.append(decimal_text(layout.last_lba - 1).as_str());
    rows.push(print_report("backup GPT entries", backup.as_str(), w));

    rows.push(print_report("backup GPT header", lba_text(layout.last_lba).as_str(), w));
    proof {
        assert(texts(rows@) =~= disk_report(layout, fat32));
    }
    rows
}

/// The report rows on the FAT32 areas.
fn fat_rows(fat32: Fat32Geometry) -> (rows: Vec<String>)
    requires
        1 <= fat32.data_start_lba,
        1 <= fat32.total_clusters,
        fat32.data_start_lba + fat32.total_clusters * FAT32_SECTORS_PER_CLUSTER <= u64::MAX,
    ensures
        texts(rows@) == fat_report(fat32),
{
    let w: usize = REPORT_LABEL_WIDTH;
    let mut rows: Vec<String> = Vec::new();
    let reserved = decimal_text(fat32.reserved_sectors);
    rows.push(print_report("FAT32 reserved sectors", reserved.as_str(), w));
    let per_fat = decimal_text(fat32.sectors_per_fat);
    rows.push(print_report("FAT32 sectors/FAT", per_fat.as_str(), w));
    let total = decimal_text(fat32.total_clusters);
    rows.push(print_report("FAT32 total clusters", total.as_str(), w));
    let mut cluster = String::from_str("cluster ");
    cluster.append(decimal_text(FIRST_UNUSED_CLUSTER).as_str());
    rows.push(print_report("first unused FAT32 cluster", cluster.as_str(), w));
    let unused = lba_text(fat32.first_unused_sector_lba);
    rows.push(print_report("first unused sector", unused.as_str(), w));
    let zero_end = lba_text(fat32.data_start_lba + FAT32_SECTORS_PER_CLUSTER - 1);
    rows.push(print_report("FAT32 data zero end", zero_end.as_str(), w));
    let end = lba_text(
        fat32.data_start_lba + fat32.total_clusters * FAT32_SECTORS_PER_CLUSTER - 1,
    );
    rows.push(print_report("FAT32 data end", end.as_str(), w));
    proof {
        assert(texts(rows@) =~= fat_report(fat32));
    }
    rows
}

/// The report rows on the identities of the disk.
fn id_rows(ids: &GeneratedIds) -> (rows: Vec<String>)
    ensures
        texts(rows@) == id_report(*ids),
{
    let w: usize = REPORT_LABEL_WIDTH;
    let mut rows: Vec<String> = Vec::new();
    rows.push(print_report("GPT disk GUID", ids.disk_guid.to_text().as_str(), w));
    rows.push(print_report("MSR partition GUID", ids.msr_guid.to_text().as_str(), w));
    rows.push(print_report("Basic Data partition GUID", ids.basic_guid.to_text().as_str(), w));
    let volume_id = volume_id_text(ids.fat_volume_id);
    rows.push(print_report("FAT32 volume ID", volume_id.as_str(), w));
    let stamp = ids.volume_label_time.to_text();
    rows.push(print_report("volume label timestamp", stamp.as_str(), w));
    proof {
        assert(texts(rows@) =~= id_report(*ids));
    }
    rows
}

/// Builds the structures of a disk and lists the writes that put them there.
fn planned_writes(
    templates: &Templates,
    layout: DiskLayout,
    fat32: Fat32Geometry,
    ids: &GeneratedIds,
) -> (writes: Vec<DiskWrite>)
    requires
        placed(*templates, layout, fat32),
    ensures
        write_views(writes@) == structure_writes(*templates, layout, fat32, *ids),
{
    let gpt_entries = patched_gpt_entries(
        templates.gpt_entries.as_slice(),
        fat32.partition_end_lba,
        ids,
    );
    let entries_crc: u32 = crc32(gpt_entries.as_slice());
    let primary_header: [u8; 512] = patched_gpt_header(
        &templates.gpt_primary_header,
        ids,
        1,
        layout.last_lba,
        layout.last_usable_lba,
        2,
        entries_crc,
    );
    let backup_header: [u8; 512] = patched_gpt_header(
        &templates.gpt_backup_header,
        ids,
        layout.last_lba,
        1,
        layout.last_usable_lba,
        layout.backup_entries_lba,
        entries_crc,
    );
    let protective_mbr: [u8; 512] = patched_protective_mbr(
        &templates.protective_mbr,
        layout.disk_sectors,
    );
    let fat32_reserved = patched_fat32_reserved_region(
        templates.fat32_reserved.as_slice(),
        fat32,
        ids,
    );
    let fat_prefix = patched_fat_prefix(templates.fat_prefix.as_slice(), fat32.total_clusters);
    let root_cluster = patched_root_cluster(templates.root_cluster.as_slice(), ids);
    let post_partition_gap_lba: u64 = fat32.partition_end_lba + 1;
    let msr = Blob {
        start_lba: MSR_START_LBA,
        bytes: vstd::slice::slice_to_vec(templates.msr_prefix.as_slice()),
    };

    let size: u64 = SECTOR_SIZE;
    let mut writes: Vec<DiskWrite> = Vec::new();
    queue_zeroes(
        &mut writes,
        write_zeroes_at_lba(size, MSR_START_LBA, FAT32_START_LBA - MSR_START_LBA),
    );
    queue_zeroes(
        &mut writes,
        write_zeroes_at_lba(size, fat32.first_fat_lba, fat32.sectors_per_fat),
    );
    queue_zeroes(
        &mut writes,
        write_zeroes_at_lba(size, fat32.second_fat_lba, fat32.sectors_per_fat),
    );
    queue_zeroes(
        &mut writes,
        write_zeroes_at_lba(
            size,
            post_partition_gap_lba,
            layout.backup_entries_lba - post_partition_gap_lba,
        ),
    );
    let entries_copy = vstd::slice::slice_to_vec(gpt_entries.as_slice());
    let fat_copy = vstd::slice::slice_to_vec(fat_prefix.as_slice());
    queue(&mut writes, write_at_lba(size, 0, vstd::slice::slice_to_vec(&protective_mbr)));
    queue(&mut writes, write_at_lba(size, 1, vstd::slice::slice_to_vec(&primary_header)));
    queue(&mut writes, write_at_lba(size, 2, entries_copy));
    queue(&mut writes, write_fixed_blob(size, &msr));
    queue(&mut writes, write_at_lba(size, FAT32_START_LBA, fat32_reserved));
    queue(&mut writes, write_at_lba(size, fat32.first_fat_lba, fat_copy));
    queue(&mut writes, write_at_lba(size, fat32.second_fat_lba, fat_prefix));
    queue(&mut writes, write_at_lba(size, fat32.data_start_lba, root_cluster));
    queue(&mut writes, write_at_lba(size, layout.backup_entries_lba, gpt_entries));
    queue(
        &mut writes,
        write_at_lba(size, layout.last_lba, vstd::slice::slice_to_vec(&backup_header)),
    );
    proof {
        assert(write_views(writes@) =~= structure_writes(*templates, layout, fat32, *ids));
    }
    writes
}

/// Lists the rows that report what was written.
fn planned_report(layout: DiskLayout, fat32: Fat32Geometry, ids: &GeneratedIds) -> (report: Vec<
    String,
>)
    requires
        layout.disk_sectors * SECTOR_SIZE <= u64::MAX,
        1 <= layout.last_lba,
        1 <= fat32.data_start_lba,
        1 <= fat32.total_clusters,
        fat32.data_start_lba + fat32.total_clusters * FAT32_SECTORS_PER_CLUSTER <= u64::MAX,
    ensures
        texts(report@) == structure_report(layout, fat32, *ids),
{
    let mut report = disk_rows(layout, fat32);
    let mut fat = fat_rows(fat32);
    let mut id = id_rows(ids);
    report.append(&mut fat);
    report.append(&mut id);
    proof {
        assert(texts(report@) =~= structure_report(layout, fat32, *ids));
    }
    report
}

/// The structures fit, and their places and sizes can be counted.
spec fn placed(t: Templates, l: DiskLayout, g: Fat32Geometry) -> bool {
    &&& t.fit(g)
    &&& 1 <= l.last_lba < l.disk_sectors <= 0x40_0000_0000_0000
    &&& l.backup_entries_lba <= l.last_lba
    &&& 7 <= g.reserved_sectors <= u16::MAX
    &&& g.partition_len <= u32::MAX
    &&& 1 <= g.sectors_per_fat <= u32::MAX
    &&& 1 <= g.total_clusters < 0x2000_0000
    &&& g.first_fat_lba <= g.second_fat_lba <= g.data_start_lba
    &&& 1 <= g.data_start_lba <= l.last_lba
    &&& g.partition_end_lba + 1 < l.backup_entries_lba
}

/// What a disk is formatted with.
struct Prepared {
    layout: DiskLayout,
    fat32: Fat32Geometry,
    ids: GeneratedIds,
}

/// Places the structures of a disk and makes its identities, or refuses to
/// format it.
fn prepare(
    device: &IoDevice,
    templates: &Templates,
    random: &IdRandom,
    now_secs: u64,
) -> (result: Result<Prepared, HazmatError>)
    requires
        now_secs as int / SECONDS_PER_DAY as int <= LAST_SUPPORTED_DAY,
    ensures
        match result {
            Ok(p) => {
                &&& refusal(*device, *templates, now_secs as int) is None
                &&& formattable(*device, *templates, p.layout, p.fat32)
                &&& ids_drawn(p.ids, *random, now_secs as int)
                &&& placed(*templates, p.layout, p.fat32)
            },
            Err(e) => refusal(*device, *templates, now_secs as int) == Some(e),
        },
{
    let layout: DiskLayout = match disk_layout(device) {
        Ok(layout) => layout,
        Err(e) => {
            return Err(e);
        },
    };
    let ids = match GeneratedIds::new(random, now_secs) {
        Ok(ids) => ids,
        Err(e) => {
            return Err(e);
        },
    };
    let fat32: Fat32Geometry = match fat32_geometry(layout.fat32_end_lba) {
        Ok(fat32) => fat32,
        Err(e) => {
            return Err(e);
        },
    };
    if fat32.reserved_sectors > 0xffff {
        return Err(HazmatError::ReservedAreaTooLarge);
    }
    proof {
        geometry_partitions_the_disk(layout.fat32_end_lba as int);
    }
    if !templates.suit(&fat32) {
        return Err(HazmatError::UnsuitableTemplates);
    }
    Ok(Prepared { layout, fat32, ids })
}

/// `plan` formats a device with the given templates, random bytes and time.
pub open spec fn plan_for(
    plan: FormatPlan,
    device: IoDevice,
    t: Templates,
    random: IdRandom,
    now_secs: int,
) -> bool {
    let l = layout(device)->Ok_0;
    let g = geometry(l.fat32_end_lba as int)->Ok_0;
    &&& formattable(device, t, l, g)
    &&& ids_drawn(plan.ids, random, now_secs)
    &&& write_views(plan.writes@) == structure_writes(t, l, g, plan.ids)
    &&& texts(plan.report@) == structure_report(l, g, plan.ids)
    &&& plan.start_lba == g.first_unused_sector_lba
    &&& plan.end_lba == data_end_lba(g)
}

/// Makes the plan of a disk whose structures are placed.
fn plan_with(
    templates: &Templates,
    layout: DiskLayout,
    fat32: Fat32Geometry,
    ids: GeneratedIds,
) -> (plan: FormatPlan)
    requires
        placed(*templates, layout, fat32),
    ensures
        plan.ids == ids,
        write_views(plan.writes@) == structure_writes(*templates, layout, fat32, ids),
        texts(plan.report@) == structure_report(layout, fat32, ids),
        plan.start_lba == fat32.first_unused_sector_lba,
        plan.end_lba == data_end_lba(fat32),
{
    let writes = planned_writes(templates, layout, fat32, &ids);
    let report = planned_report(layout, fat32, &ids);
    let end_lba: u64 = fat32.data_start_lba + fat32.total_clusters * FAT32_SECTORS_PER_CLUSTER - 1;
    FormatPlan { writes, report, ids, start_lba: fat32.first_unused_sector_lba, end_lba }
}

/// Plans the Windows-style GPT and FAT32 structures for an already randomized
/// target.
///
/// The layout takes the logical sector size of the device, which has to be 512
/// bytes. A disk is refused whose reserved sectors the boot sector cannot count
/// in its 16 bits, and so are templates that the disk cannot be built from. The
/// plan names the first unused FAT32 sector, where the hidden header
/// should be written, and the inclusive end of the FAT32 data area.
pub fn write_structures(
    device: &IoDevice,
    templates: &Templates,
    random: &IdRandom,
    now_secs: u64,
) -> (result: Result<FormatPlan, HazmatError>)
    requires
        now_secs as int / SECONDS_PER_DAY as int <= LAST_SUPPORTED_DAY,
    ensures
        match result {
            Ok(plan) => {
                &&& refusal(*device, *templates, now_secs as int) is None
                &&& plan_for(plan, *device, *templates, *random, now_secs as int)
            },
            Err(e) => refusal(*device, *templates, now_secs as int) == Some(e),
        },
{
    let Prepared { layout, fat32, ids } = match prepare(device, templates, random, now_secs) {
        Ok(prepared) => prepared,
        Err(e) => {
            return Err(e);
        },
    };
    Ok(plan_with(templates, layout, fat32, ids))
}

/// A disk of 512-byte sectors has a layout where it has more sectors than the
/// start of the partition, the gap and the backup entries take. The backup header
/// is then its last sector, the backup entries are the 32 sectors before it, and
/// the partition ends 4096 sectors before the end of the disk.
pub proof fn layouts_fill_the_disk(device: IoDevice)
    ensures
        match layout(device) {
            Ok(l) => {
                &&& device.virtual_blk_size == 512
                &&& l.disk_sectors * 512 <= device.virtual_usable_size < (l.disk_sectors + 1) * 512
                &&& l.disk_sectors > 36_896
                &&& l.last_lba + 1 == l.disk_sectors
                &&& l.backup_entries_lba + 32 == l.last_lba
                &&& l.last_usable_lba + 1 == l.backup_entries_lba
                &&& l.fat32_end_lba + 1 + 4096 == l.disk_sectors
            },
            Err(e) => {
                &&& e == HazmatError::VirtualBlockSize <==> device.virtual_blk_size != 512
                &&& e == HazmatError::DiskTooSmall <==> device.virtual_blk_size == 512
                    && device.virtual_usable_size < 36_897 * 512
            },
        },
{
}

/// Formatting goes ahead exactly where the device has a layout, the clock shows
/// at least the second of January 2000, the partition has a geometry whose
/// reserved sectors can be counted in 16 bits, and the templates suit it.
pub proof fn formatting_is_refused_for_a_reason(device: IoDevice, t: Templates, now_secs: int)
    requires
        0 <= now_secs,
    ensures
        match refusal(device, t, now_secs) {
            None => {
                &&& layout(device) matches Ok(l) && geometry(l.fat32_end_lba as int) matches Ok(g)
                    && formattable(device, t, l, g) && g.reserved_sectors <= 0xffff
                &&& now_secs >= 10_958 * 86_400
            },
            Some(e) => {
                ||| layout(device) == Err::<DiskLayout, HazmatError>(e)
                ||| layout(device) matches Ok(l) && if e == HazmatError::ClockTooEarly {
                    now_secs < 10_958 * 86_400
                } else {
                    &&& now_secs >= 10_958 * 86_400
                    &&& match geometry(l.fat32_end_lba as int) {
                        Err(f) => e == f,
                        Ok(g) => if g.reserved_sectors > 0xffff {
                            e == HazmatError::ReservedAreaTooLarge
                        } else {
                            e == HazmatError::UnsuitableTemplates && !formattable(device, t, l, g)
                        },
                    }
                }
            },
        },
{
}

/// The templates suit a disk where the entry array has 128 entries of 128 bytes,
/// the others end before what follows them, and the boot sector is signed and has
/// 512-byte sectors, eight to a cluster, two FATs and no old sector counts.
pub proof fn suitable_templates_fit(t: Templates, g: Fat32Geometry)
    ensures
        t.fit(g) && t.bootable() <==> {
            let boot = t.fat32_reserved@;
            &&& t.gpt_entries@.len() == 128 * 128
            &&& 34 * 512 + t.msr_prefix@.len() <= 32_768 * 512
            &&& t.fat_prefix@.len() <= g.sectors_per_fat * 512
            &&& 26 <= t.root_cluster@.len() <= 8 * 512
            &&& boot.len() >= 512
            &&& boot[510] == 0x55 && boot[511] == 0xaa
            &&& boot[11] == 0 && boot[12] == 2 && boot[13] == 8 && boot[16] == 2
            &&& boot[19] == 0 && boot[20] == 0 && boot[22] == 0 && boot[23] == 0
        },
{
    let boot = t.fat32_reserved@;
    if boot.len() >= 512 {
        reveal_with_fuel(crate::utils::le_value, 3);
        assert(field(boot, 11, 2) == boot[11] + 256 * boot[12]);
        assert(field(boot, 19, 2) == boot[19] + 256 * boot[20]);
        assert(field(boot, 22, 2) == boot[22] + 256 * boot[23]);
    }
}

/// The report spells the sectors of the layout in decimal under their labels: of
/// the disk, the partition, the backup table, and the areas of the file system up
/// to the last sector of its data area.
pub proof fn format_reports_spell_the_layout(l: DiskLayout, g: Fat32Geometry, ids: GeneratedIds) -> (
    n: Seq<Seq<char>>)
    requires
        1 <= l.last_lba,
        1 <= g.data_start_lba,
    ensures
        n.len() == 16,
        forall|i: int| 0 <= i < 16 ==> all_decimal(#[trigger] n[i]),
        decimal_value(n[0]) == l.disk_sectors,
        decimal_value(n[1]) == l.disk_sectors * 512,
        decimal_value(n[2]) == 512,
        decimal_value(n[3]) == 32_768,
        decimal_value(n[4]) == g.partition_end_lba,
        decimal_value(n[5]) == g.partition_len,
        decimal_value(n[6]) == l.backup_entries_lba,
        decimal_value(n[7]) == l.last_lba - 1,
        decimal_value(n[8]) == l.last_lba,
        decimal_value(n[9]) == g.reserved_sectors,
        decimal_value(n[10]) == g.sectors_per_fat,
        decimal_value(n[11]) == g.total_clusters,
        decimal_value(n[12]) == 1003,
        decimal_value(n[13]) == g.first_unused_sector_lba,
        decimal_value(n[14]) == g.data_start_lba + 7,
        decimal_value(n[15]) == g.data_start_lba + 8 * g.total_clusters - 1,
        ({
            let rows = structure_report(l, g, ids);
            &&& rows.len() == 17
            &&& rows[0] == report_row("disk"@, n[0] + " sectors ("@ + n[1] + " bytes)"@, 27)
            &&& rows[1] == report_row("virtual block size"@, n[2], 27)
            &&& rows[2] == report_row(
                "FAT32 partition"@,
                "start LBA "@ + n[3] + ", end LBA "@ + n[4] + ", length "@ + n[5] + " sectors"@,
                27,
            )
            &&& rows[3] == report_row("backup GPT entries"@, "LBA "@ + n[6] + ".."@ + n[7], 27)
            &&& rows[4] == report_row("backup GPT header"@, "LBA "@ + n[8], 27)
            &&& rows[5] == report_row("FAT32 reserved sectors"@, n[9], 27)
            &&& rows[6] == report_row("FAT32 sectors/FAT"@, n[10], 27)
            &&& rows[7] == report_row("FAT32 total clusters"@, n[11], 27)
            &&& rows[8] == report_row("first unused FAT32 cluster"@, "cluster "@ + n[12], 27)
            &&& rows[9] == report_row("first unused sector"@, "LBA "@ + n[13], 27)
            &&& rows[10] == report_row("FAT32 data zero end"@, "LBA "@ + n[14], 27)
            &&& rows[11] == report_row("FAT32 data end"@, "LBA "@ + n[15], 27)
        }),
{
    let values: Seq<nat> = seq![
        l.disk_sectors as nat,
        (l.disk_sectors * SECTOR_SIZE) as nat,
        SECTOR_SIZE as nat,
        FAT32_START_LBA as nat,
        g.partition_end_lba as nat,
        g.partition_len as nat,
        l.backup_entries_lba as nat,
        (l.last_lba - 1) as nat,
        l.last_lba as nat,
        g.reserved_sectors as nat,
        g.sectors_per_fat as nat,
        g.total_clusters as nat,
        FIRST_UNUSED_CLUSTER as nat,
        g.first_unused_sector_lba as nat,
        (g.data_start_lba + FAT32_SECTORS_PER_CLUSTER - 1) as nat,
        data_end_lba(g) as nat,
    ];
    let n = Seq::new(16, |i: int| decimal(values[i]));
    assert forall|i: int| 0 <= i < 16 implies all_decimal(#[trigger] n[i]) && decimal_value(n[i])
        == values[i] by {
        decimal_text_spells_the_number(values[i]);
    }
    n
}

/// The report shows each GUID and the timestamp of the label under its own label,
/// and the volume ID as eight hexadecimal digits, the most significant first.
pub proof fn format_reports_show_the_identities(
    l: DiskLayout,
    g: Fat32Geometry,
    ids: GeneratedIds,
) -> (b: Seq<u8>)
    ensures
        b.len() == 4,
        ids.fat_volume_id == 0x100_0000 * b[0] + 0x1_0000 * b[1] + 0x100 * b[2] + b[3],
        ({
            let rows = structure_report(l, g, ids);
            &&& rows.len() == 17
            &&& rows[12] == report_row("GPT disk GUID"@, guid_text(ids.disk_guid.canonical@), 27)
            &&& rows[13] == report_row(
                "MSR partition GUID"@,
                guid_text(ids.msr_guid.canonical@),
                27,
            )
            &&& rows[14] == report_row(
                "Basic Data partition GUID"@,
                guid_text(ids.basic_guid.canonical@),
                27,
            )
            &&& rows[15] == report_row("FAT32 volume ID"@, "0x"@ + hex_bytes(b), 27)
            &&& rows[16] == report_row(
                "volume label timestamp"@,
                timestamp_text(ids.volume_label_time),
                27,
            )
        }),
{
    let b = le_bytes(ids.fat_volume_id as nat, 4).reverse();
    reveal_with_fuel(le_bytes, 5);
    b
}

/// A plan names the sector 1001 clusters into the data area for the hidden header
/// and the last sector of the last whole cluster as its end, reports the layout of
/// the device, and gives the disk identities of its own.
pub proof fn plans_follow_the_layout(
    plan: FormatPlan,
    device: IoDevice,
    t: Templates,
    random: IdRandom,
    now_secs: int,
)
    requires
        plan_for(plan, device, t, random, now_secs),
    ensures
        layout(device) matches Ok(l) && geometry(l.fat32_end_lba as int) matches Ok(g) && {
            &&& formattable(device, t, l, g)
            &&& ids_drawn(plan.ids, random, now_secs)
            &&& plan.start_lba == g.data_start_lba + 8 * 1001
            &&& plan.end_lba + 1 == g.data_start_lba + 8 * g.total_clusters
            &&& texts(plan.report@) == structure_report(l, g, plan.ids)
        },
{
    geometry_partitions_the_disk(layout(device)->Ok_0.fat32_end_lba as int);
}

/// A write puts its bytes at its offset, a zero fill as many zeroes as it says,
/// and several writes are performed one after the other: each changes its own
/// range and nothing else.
pub proof fn writes_are_performed_in_order(
    disk: Seq<u8>,
    writes: Seq<DiskWrite>,
    w: DiskWrite,
    i: int,
)
    requires
        0 <= i < disk.len(),
    ensures
        match w {
            DiskWrite::Bytes { offset, bytes } => w@.start() == offset && w@.contents() == bytes@,
            DiskWrite::Zeroes { offset, len } => {
                &&& w@.start() == offset
                &&& w@.contents().len() == len
                &&& forall|j: int| 0 <= j < len ==> #[trigger] w@.contents()[j] == 0
            },
        },
        disk_after(disk, write_views(Seq::empty())) == disk,
        ({
            let before = disk_after(disk, write_views(writes));
            let after = disk_after(disk, write_views(writes.push(w)));
            &&& after.len() == before.len() == disk.len()
            &&& after[i] == if w@.start() <= i < w@.start() + w@.contents().len() {
                w@.contents()[i - w@.start()]
            } else {
                before[i]
            }
        }),
{
    lemma_disk_after_len(disk, write_views(writes));
    assert(write_views(writes.push(w)).drop_last() =~= write_views(writes));
}

proof fn lemma_disk_after_len(disk: Seq<u8>, writes: Seq<WriteView>)
    ensures
        disk_after(disk, writes).len() == disk.len(),
    decreases writes.len(),
{
    if writes.len() > 0 {
        lemma_disk_after_len(disk, writes.drop_last());
    }
}

} // verus!
