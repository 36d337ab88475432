//! The hidden volume: where its header is put, how it is found again, and what
//! is exposed of it.

use vstd::prelude::*;
use vstd::string::*;

use crate::cipher::{decrypted, encrypted, BlockCipher, CipherKeys};
use crate::error::HazmatError;
use crate::hazmat::{
    create_header, header_bytes, header_in, headers_are_told_by_the_signature, headers_read_back,
    payload_header, verify_header, Header, HEADER_SIZE,
};
use crate::io::{Direction, IoDevice};
use crate::msfat32::boot::{
    boot_layout, first_unused_cluster_lba, header_lba, lemma_header_lba_bound,
};
use crate::msfat32::geometry::geometry_partitions_the_disk;
use crate::msfat32::ids::{IdRandom, LAST_SUPPORTED_DAY, SECONDS_PER_DAY};
use crate::msfat32::plan::{
    layout, lba_offset, plan_for, refusal, write_structures, DiskWrite, FormatPlan, Templates,
    WriteView,
};
use crate::sanitize::{SanitizeDisk, SanitizePlan};
use crate::shadow::BlkDeviceOps;
use crate::sizes::{byte_size, byte_size_text};
use crate::text::{
    all_decimal, decimal, decimal_text, decimal_text_spells_the_number, decimal_value,
};
use crate::transfer::Transfer;
use crate::utils::{copy_at, le_value, lemma_le_bytes_len};

verus! {

/// A sector of `size` bytes that holds a header, and zeroes behind it.
pub open spec fn header_sector(h: Header, size: nat) -> Seq<u8> {
    header_bytes(h) + Seq::new((size - HEADER_SIZE) as nat, |i: int| 0u8)
}

/// Encrypts the header of the sectors from `start_lba` to `end_lba` and asks to
/// write it in the first of them.
pub fn inserting_hazmat_structures(
    device: &IoDevice,
    block_cipher: &BlockCipher,
    start_lba: u64,
    end_lba: u64,
) -> (result: Result<DiskWrite, HazmatError>)
    requires
        HEADER_SIZE <= device.virtual_blk_size <= usize::MAX,
        device.virtual_blk_size % 8 == 0,
        start_lba < u64::MAX,
    ensures
        match result {
            Ok(w) => start_lba * device.virtual_blk_size <= i64::MAX && w@ == (WriteView::Bytes {
                offset: start_lba * device.virtual_blk_size,
                bytes: encrypted(
                    block_cipher@,
                    start_lba,
                    header_sector(
                        payload_header(start_lba as int, end_lba as int),
                        device.virtual_blk_size as nat,
                    ),
                ),
            }),
            Err(e) => start_lba * device.virtual_blk_size > i64::MAX && e == (
            HazmatError::HeaderLbaTooLarge { lba: start_lba }),
        },
{
    let header = create_header(start_lba, end_lba);
    let size: usize = device.virtual_blk_size as usize;
    let mut block: Vec<u8> = vec![0u8; size];
    proof {
        headers_read_back(start_lba, end_lba, Seq::empty());
    }
    copy_at(block.as_mut_slice(), 0, header.as_slice());
    proof {
        assert(block@ =~= header_sector(
            payload_header(start_lba as int, end_lba as int),
            size as nat,
        ));
    }
    block_cipher.encrypt_sector(start_lba, block.as_mut_slice());
    match lba_offset(device.virtual_blk_size, start_lba) {
        Some(offset) => Ok(DiskWrite::Bytes { offset, bytes: block }),
        None => Err(HazmatError::HeaderLbaTooLarge { lba: start_lba }),
    }
}

/// Locates the hidden header by the boot sector of the cover file system, and
/// begins to read its sector.
pub fn header_request(device: &IoDevice, boot: &[u8; 512]) -> (result: Result<
    (u64, Transfer),
    HazmatError,
>)
    ensures
        if device.virtual_blk_size > usize::MAX {
            result == Err::<(u64, Transfer), HazmatError>(HazmatError::CountOutOfRange)
        } else {
            match boot_layout(boot@, device.virtual_blk_size as int) {
                Ok(layout) => {
                    &&& result matches Ok((lba, transfer))
                    &&& lba == header_lba(layout)
                    &&& transfer == (Transfer {
                        direction: Direction::Read,
                        offset: Some((lba * device.virtual_blk_size) as i64),
                        len: device.virtual_blk_size as usize,
                        done: 0,
                    })
                },
                Err(e) => result == Err::<(u64, Transfer), HazmatError>(e),
            }
        },
{
    if device.virtual_blk_size > usize::MAX as u64 {
        return Err(HazmatError::CountOutOfRange);
    }
    let size: usize = device.virtual_blk_size as usize;
    let lba: u64 = match first_unused_cluster_lba(device, boot) {
        Ok(lba) => lba,
        Err(e) => {
            return Err(e);
        },
    };
    proof {
        lemma_header_lba_bound(boot@, device.virtual_blk_size as int);
    }
    match lba_offset(device.virtual_blk_size, lba) {
        Some(offset) => Ok((lba, device.read_exact_at(offset, size))),
        None => Err(HazmatError::HeaderLbaTooLarge { lba }),
    }
}

/// Decrypts and validates the sector that `header_request` asked for.
pub fn read_header(block_cipher: &BlockCipher, header_lba: u64, buffer: &mut [u8]) -> (result:
    Result<Header, HazmatError>)
    requires
        old(buffer)@.len() % 8 == 0,
    ensures
        final(buffer)@ == decrypted(block_cipher@, header_lba, old(buffer)@),
        result == found_header(block_cipher@, header_lba, old(buffer)@),
{
    block_cipher.decrypt_sector(header_lba, buffer);
    match verify_header(buffer) {
        Ok(Some(header)) => Ok(header),
        Ok(None) => Err(HazmatError::HeaderNotFound { lba: header_lba }),
        Err(e) => Err(e),
    }
}

/// What the encrypted sector `s` at `lba` holds of a header.
pub open spec fn found_header(k: CipherKeys, lba: u64, s: Seq<u8>) -> Result<Header, HazmatError> {
    if s.len() < HEADER_SIZE {
        Err(HazmatError::HeaderTooShort { len: s.len() as usize })
    } else {
        match header_in(decrypted(k, lba, s)) {
            Some(header) => Ok(header),
            None => Err(HazmatError::HeaderNotFound { lba }),
        }
    }
}

/// The size of the payload of a header in bytes, or why it has none.
pub open spec fn payload_bytes(header: Header, blk_size: int) -> Result<int, HazmatError> {
    let sectors = header.ending_lba - header.starting_lba + 1;
    if sectors < 1 || sectors > u64::MAX || sectors * blk_size > u64::MAX {
        Err(HazmatError::PayloadSizeOverflow)
    } else {
        Ok(sectors * blk_size)
    }
}

/// Computes the size of the payload of a header.
pub fn payload_size(header: &Header, blk_size: u64) -> (result: Result<u64, HazmatError>)
    ensures
        match payload_bytes(*header, blk_size as int) {
            Ok(size) => result matches Ok(r) && r == size,
            Err(e) => result == Err::<u64, HazmatError>(e),
        },
{
    if header.ending_lba < header.starting_lba {
        return Err(HazmatError::PayloadSizeOverflow);
    }
    match (header.ending_lba - header.starting_lba).checked_add(1) {
        Some(sectors) => match sectors.checked_mul(blk_size) {
            Some(size) => Ok(size),
            None => Err(HazmatError::PayloadSizeOverflow),
        },
        None => Err(HazmatError::PayloadSizeOverflow),
    }
}

/// The text that shows the payload of a header, with its size written as
/// `size`.
pub open spec fn payload_line(header: Header, size: Seq<char>) -> Seq<char> {
    "hazmat payload range: "@ + decimal(header.starting_lba as nat) + ".."@ + decimal(
        header.ending_lba as nat,
    ) + " ("@ + size + ")"@
}

/// Writes the text that shows the payload of a header, with its size written
/// as `size`.
pub fn payload_line_with(header: &Header, size: &str) -> (line: String)
    ensures
        line@ == payload_line(*header, size@),
{
    let mut line = String::from_str("hazmat payload range: ");
    line.append(decimal_text(header.starting_lba).as_str());
    line.append("..");
    line.append(decimal_text(header.ending_lba).as_str());
    line.append(" (");
    line.append(size);
    line.append(")");
    line
}

/// Writes the text that shows the payload of a header.
pub fn payload_text(header: &Header, hazmat_size: u64) -> (line: String)
    ensures
        line@ == payload_line(*header, byte_size_text(hazmat_size)),
{
    payload_line_with(header, byte_size(hazmat_size).as_str())
}

/// Exposes the encrypted payload range of a verified header.
pub fn expose(io_device: IoDevice, block_cipher: BlockCipher, header: &Header) -> (result: Result<
    BlkDeviceOps,
    HazmatError,
>)
    ensures
        match payload_bytes(*header, io_device.virtual_blk_size as int) {
            Ok(size) => {
                &&& result matches Ok(ops)
                &&& ops.io_device == io_device
                &&& ops.block_cipher == block_cipher
                &&& ops.shadow_start_lba == header.starting_lba
                &&& ops.shadow_size == size
                &&& io_device.wf() ==> ops.wf()
            },
            Err(e) => result matches Err(r) && r == e,
        },
{
    match payload_size(header, io_device.virtual_blk_size) {
        Ok(shadow_size) => {
            proof {
                if io_device.wf() {
                    vstd::arithmetic::div_mod::lemma_mod_multiples_basic(
                        header.ending_lba - header.starting_lba + 1,
                        io_device.virtual_blk_size as int,
                    );
                }
            }
            Ok(
                BlkDeviceOps {
                    io_device,
                    block_cipher,
                    shadow_start_lba: header.starting_lba,
                    shadow_size,
                },
            )
        },
        Err(e) => Err(e),
    }
}

/// An opened volume.
pub struct Volume {
    /// Serves the requests of the exposed device.
    pub ops: BlkDeviceOps,
    /// The line that shows the payload.
    pub line: String,
}

/// Opens a volume, given the sector that `header_request` asked for: verifies
/// the hidden header and exposes the encrypted payload range.
pub fn open(
    io_device: IoDevice,
    block_cipher: BlockCipher,
    header_lba: u64,
    mut buffer: Vec<u8>,
) -> (result: Result<Volume, HazmatError>)
    requires
        buffer@.len() % 8 == 0,
    ensures
        match found_header(block_cipher@, header_lba, buffer@) {
            Err(e) => result matches Err(r) && r == e,
            Ok(header) => match payload_bytes(header, io_device.virtual_blk_size as int) {
                Err(e) => result matches Err(r) && r == e,
                Ok(size) => {
                    &&& result matches Ok(volume)
                    &&& volume.ops.io_device == io_device
                    &&& volume.ops.block_cipher == block_cipher
                    &&& volume.ops.shadow_start_lba == header.starting_lba
                    &&& volume.ops.shadow_size == size
                    &&& volume.line@ == payload_line(header, byte_size_text(size as u64))
                    &&& io_device.wf() ==> volume.ops.wf()
                },
            },
        },
{
    let header: Header = match read_header(&block_cipher, header_lba, buffer.as_mut_slice()) {
        Ok(header) => header,
        Err(e) => {
            return Err(e);
        },
    };
    match expose(io_device, block_cipher, &header) {
        Ok(ops) => {
            let line = payload_text(&header, ops.shadow_size);
            Ok(Volume { ops, line })
        },
        Err(e) => Err(e),
    }
}

/// The text that refuses a device, with its size and the least size written as
/// given.
pub open spec fn too_small_line(size: Seq<char>, minimum: Seq<char>) -> Seq<char> {
    "the device size is "@ + size + " while the minimum size needed is "@ + minimum
}

/// Writes the text that refuses a device, with its size and the least size
/// written as given.
pub fn too_small_line_with(size: &str, minimum: &str) -> (line: String)
    ensures
        line@ == too_small_line(size@, minimum@),
{
    let mut line = String::from_str("the device size is ");
    line.append(size);
    line.append(" while the minimum size needed is ");
    line.append(minimum);
    line
}

/// Tells whether a device is too small to be formatted, and how to say so.
pub fn size_refusal(device: &IoDevice, minimum_size: u64) -> (refusal: Option<String>)
    ensures
        match refusal {
            Some(line) => device.total_size < minimum_size && line@ == too_small_line(
                byte_size_text(device.total_size),
                byte_size_text(minimum_size),
            ),
            None => device.total_size >= minimum_size,
        },
{
    if device.total_size < minimum_size {
        let size = byte_size(device.total_size);
        let minimum = byte_size(minimum_size);
        Some(too_small_line_with(size.as_str(), minimum.as_str()))
    } else {
        None
    }
}

/// Everything that formatting writes on a target filled with random bytes.
#[derive(Debug)]
pub struct VolumePlan {
    /// The structures of the cover disk.
    pub structures: FormatPlan,
    /// The line that shows where the volume is put.
    pub line: String,
    /// The hidden header, to be written behind the structures.
    pub header: DiskWrite,
}

/// The line that shows where a volume is put.
pub open spec fn placement_line(start_lba: u64, end_lba: u64) -> Seq<char> {
    "inserting hazmat layout for "@ + decimal(start_lba as nat) + ".."@ + decimal(end_lba as nat)
}

/// `line` and `write` show and put in the hidden header of a disk that is
/// formatted with `structures`.
pub open spec fn header_for(
    line: Seq<char>,
    write: WriteView,
    structures: FormatPlan,
    k: CipherKeys,
) -> bool {
    let (start, end) = (structures.start_lba, structures.end_lba);
    let header = payload_header(start as int, end as int);
    &&& line == placement_line(start, end)
    &&& write == (WriteView::Bytes {
        offset: start * 512,
        bytes: encrypted(k, start, header_sector(header, 512)),
    })
}

/// Plans the cover FAT32 structures and then the project-specific structures
/// for a target that was filled with random bytes.
#[verifier::rlimit(30)]
pub fn format(
    device: &IoDevice,
    block_cipher: &BlockCipher,
    templates: &Templates,
    random: &IdRandom,
    now_secs: u64,
) -> (result: Result<VolumePlan, HazmatError>)
    requires
        now_secs as int / SECONDS_PER_DAY as int <= LAST_SUPPORTED_DAY,
    ensures
        match result {
            Ok(plan) => {
                &&& refusal(*device, *templates, now_secs as int) is None
                &&& plan_for(plan.structures, *device, *templates, *random, now_secs as int)
                &&& header_for(plan.line@, plan.header@, plan.structures, block_cipher@)
            },
            Err(e) => refusal(*device, *templates, now_secs as int) == Some(e),
        },
{
    let structures = match write_structures(device, templates, random, now_secs) {
        Ok(structures) => structures,
        Err(e) => {
            return Err(e);
        },
    };
    let (start_lba, end_lba) = (structures.start_lba, structures.end_lba);
    proof {
        geometry_partitions_the_disk(layout(*device)->Ok_0.fat32_end_lba as int);
    }
    let mut line = String::from_str("inserting hazmat layout for ");
    line.append(decimal_text(start_lba).as_str());
    line.append("..");
    line.append(decimal_text(end_lba).as_str());
    match inserting_hazmat_structures(device, block_cipher, start_lba, end_lba) {
        Ok(header) => Ok(VolumePlan { structures, line, header }),
        Err(e) => Err(e),
    }
}

/// One step of formatting a target.
#[derive(Debug)]
pub enum FormatStep {
    /// Fill the target with random bytes.
    Sanitize(SanitizePlan),
    /// Write the structures of the cover disk, and flush them.
    Structures(FormatPlan),
    /// Write the hidden header.
    Header {
        /// The line that shows where the volume is put.
        line: String,
        /// The header.
        write: DiskWrite,
    },
    /// Give up.
    Refuse(HazmatError),
}

/// The steps of formatting a target, to be performed in order.
#[derive(Debug)]
pub struct FormatRun {
    /// Says that the target is too small, where there is nothing to do.
    pub notice: Option<String>,
    /// The steps.
    pub steps: Vec<FormatStep>,
    /// Steps performed or given up.
    pub done: usize,
}

/// `steps` format a device: fill it with random bytes, write the structures,
/// and then the header for them. A step that cannot be planned is given up at
/// its place, and nothing follows it.
pub open spec fn steps_for(
    steps: Seq<FormatStep>,
    device: IoDevice,
    k: CipherKeys,
    t: Templates,
    random: IdRandom,
    now_secs: int,
) -> bool {
    match device.planned() {
        Err(e) => steps == seq![FormatStep::Refuse(e)],
        Ok(fill) => match refusal(device, t, now_secs) {
            Some(e) => steps == seq![FormatStep::Sanitize(fill), FormatStep::Refuse(e)],
            None => {
                &&& steps.len() == 3
                &&& steps[0] == FormatStep::Sanitize(fill)
                &&& steps[1] matches FormatStep::Structures(structures)
                &&& plan_for(structures, device, t, random, now_secs)
                &&& steps[2] matches FormatStep::Header { line, write }
                &&& header_for(line@, write@, structures, k)
            },
        },
    }
}

/// Plans to format a device by randomizing it, writing the cover FAT32
/// structures, and then inserting project-specific structures. Below the
/// minimum size nothing is done.
pub fn format_device(
    device: &IoDevice,
    minimum_size: u64,
    block_cipher: &BlockCipher,
    templates: &Templates,
    random: &IdRandom,
    now_secs: u64,
) -> (run: FormatRun)
    requires
        device.wf(),
        now_secs as int / SECONDS_PER_DAY as int <= LAST_SUPPORTED_DAY,
    ensures
        run.done == 0,
        if device.total_size < minimum_size {
            &&& run.notice matches Some(line)
            &&& line@ == too_small_line(
                byte_size_text(device.total_size),
                byte_size_text(minimum_size),
            )
            &&& run.steps@.len() == 0
        } else {
            &&& run.notice is None
            &&& steps_for(
                run.steps@,
                *device,
                block_cipher@,
                *templates,
                *random,
                now_secs as int,
            )
        },
{
    let notice = size_refusal(device, minimum_size);
    let mut steps: Vec<FormatStep> = Vec::new();
    if notice.is_some() {
        return FormatRun { notice, steps, done: 0 };
    }
    match device.sanitize_disk() {
        Ok(fill) => {
            steps.push(FormatStep::Sanitize(fill));
        },
        Err(e) => {
            steps.push(FormatStep::Refuse(e));
            proof {
                assert(steps@ =~= seq![FormatStep::Refuse(e)]);
            }
            return FormatRun { notice, steps, done: 0 };
        },
    }
    match format(device, block_cipher, templates, random, now_secs) {
        Ok(VolumePlan { structures, line, header }) => {
            steps.push(FormatStep::Structures(structures));
            steps.push(FormatStep::Header { line, write: header });
        },
        Err(e) => {
            steps.push(FormatStep::Refuse(e));
            proof {
                assert(steps@ =~= seq![steps@[0], FormatStep::Refuse(e)]);
            }
        },
    }
    FormatRun { notice, steps, done: 0 }
}

impl FormatRun {
    /// No more steps are done than there are.
    pub open spec fn wf(self) -> bool {
        self.done <= self.steps@.len()
    }

    /// The run after its next step came out as `outcome`: a step that failed
    /// leaves nothing to do.
    pub open spec fn stepped(self, outcome: Result<(), HazmatError>) -> FormatRun {
        FormatRun {
            done: match outcome {
                Ok(()) => (self.done + 1) as usize,
                Err(_) => self.steps@.len() as usize,
            },
            ..self
        }
    }

    /// The run after steps that came out as `outcomes`.
    pub open spec fn run(self, outcomes: Seq<Result<(), HazmatError>>) -> FormatRun
        decreases outcomes.len(),
    {
        if outcomes.len() == 0 {
            self
        } else {
            self.run(outcomes.drop_last()).stepped(outcomes.last())
        }
    }

    /// Whether steps can have come out as `outcomes`: each was there to be
    /// performed.
    pub open spec fn can_run(self, outcomes: Seq<Result<(), HazmatError>>) -> bool
        decreases outcomes.len(),
    {
        outcomes.len() == 0 || {
            let before = self.run(outcomes.drop_last());
            self.can_run(outcomes.drop_last()) && before.done < self.steps@.len()
        }
    }

    /// The next step to perform, `None` when there is nothing left to do, or
    /// why the run is given up.
    pub fn next_step(&self) -> (result: Result<Option<&FormatStep>, HazmatError>)
        requires
            self.wf(),
        ensures
            match result {
                Ok(None) => self.done == self.steps@.len(),
                Ok(Some(step)) => self.done < self.steps@.len() && *step
                    == self.steps@[self.done as int] && !(step is Refuse),
                Err(e) => self.done < self.steps@.len() && self.steps@[self.done as int]
                    == FormatStep::Refuse(e),
            },
    {
        if self.done == self.steps.len() {
            return Ok(None);
        }
        match &self.steps[self.done] {
            FormatStep::Refuse(e) => Err(*e),
            step => Ok(Some(step)),
        }
    }

    /// Takes note of how the step that `next_step` asked for came out. A
    /// failure is handed back, and the later steps are not run.
    pub fn complete(&mut self, outcome: Result<(), HazmatError>) -> (result: Result<
        (),
        HazmatError,
    >)
        requires
            old(self).wf(),
            old(self).done < old(self).steps@.len(),
        ensures
            final(self).wf(),
            *final(self) == old(self).stepped(outcome),
            result == outcome,
    {
        proof {
            assert(self.steps.len() == self.steps@.len());
        }
        match outcome {
            Ok(()) => {
                self.done = self.done + 1;
            },
            Err(_) => {
                self.done = self.steps.len();
            },
        }
        outcome
    }
}

/// The steps of a run come in their order, each only after all before it
/// succeeded, and after a failure there is nothing left to do.
pub proof fn format_steps_run_in_order(run: FormatRun, outcomes: Seq<Result<(), HazmatError>>)
    requires
        run.done == 0,
        run.can_run(outcomes),
    ensures
        run.run(outcomes).wf(),
        run.run(outcomes).steps == run.steps,
        outcomes.len() <= run.steps@.len(),
        forall|i: int| 0 <= i < outcomes.len() - 1 ==> (#[trigger] outcomes[i]) is Ok,
        if outcomes.len() > 0 && outcomes.last() is Err {
            run.run(outcomes).done == run.steps@.len()
        } else {
            run.run(outcomes).done == outcomes.len()
        },
    decreases outcomes.len(),
{
    assert(run.steps.len() == run.steps@.len());
    if outcomes.len() > 0 {
        let before = outcomes.drop_last();
        format_steps_run_in_order(run, before);
        assert forall|i: int| 0 <= i < outcomes.len() - 1 implies (#[trigger] outcomes[i]) is Ok by {
            assert(before[i] == outcomes[i]);
            if i == before.len() - 1 {
                assert(before.last() == outcomes[i]);
            }
        }
    }
}

/// A header sector starts with the bytes of the header and is filled up with
/// zeroes.
pub proof fn header_sectors_end_in_zeroes(h: Header, size: nat)
    requires
        32 <= size,
    ensures
        header_sector(h, size).len() == size,
        header_sector(h, size).take(32) == header_bytes(h),
        forall|i: int| 32 <= i < size ==> #[trigger] header_sector(h, size)[i] == 0,
{
    lemma_le_bytes_len(h.signature as nat, 16);
    lemma_le_bytes_len(h.starting_lba as nat, 8);
    lemma_le_bytes_len(h.ending_lba as nat, 8);
    assert(header_sector(h, size).take(32) =~= header_bytes(h));
}

/// The payload of a header reaches from the first byte of its first sector to
/// the last byte of its last sector, and is refused only where there is none or
/// where it cannot be counted.
pub proof fn payloads_reach_from_first_to_last_sector(h: Header, blk_size: int)
    requires
        0 < blk_size,
    ensures
        match payload_bytes(h, blk_size) {
            Ok(size) => {
                &&& h.starting_lba <= h.ending_lba
                &&& size <= u64::MAX
                &&& h.starting_lba * blk_size + size == (h.ending_lba + 1) * blk_size
            },
            Err(e) => {
                &&& e == HazmatError::PayloadSizeOverflow
                &&& h.ending_lba < h.starting_lba || (h.ending_lba + 1) * blk_size - h.starting_lba
                    * blk_size > u64::MAX
            },
        },
{
    let (a, b) = (h.starting_lba as int, h.ending_lba as int);
    assert((b - a + 1) * blk_size == (b + 1) * blk_size - a * blk_size) by (nonlinear_arith);
    let n = b - a + 1;
    if n > u64::MAX {
        assert(n <= n * blk_size) by (nonlinear_arith)
            requires
                0 <= n,
                1 <= blk_size,
        ;
    }
}

/// An encrypted sector yields a header exactly where, decrypted for its own
/// number, it starts with the signature.
pub proof fn headers_are_found_by_decrypting(k: CipherKeys, lba: u64, s: Seq<u8>)
    requires
        s.len() >= 32,
    ensures
        ({
            let plain = decrypted(k, lba, s);
            match found_header(k, lba, s) {
                Ok(h) => {
                    &&& le_value(plain.subrange(0, 16)) == 0xde61af8ddd996602f4148ac83b9e506f
                    &&& h.starting_lba == le_value(plain.subrange(16, 24))
                    &&& h.ending_lba == le_value(plain.subrange(24, 32))
                },
                Err(e) => {
                    &&& e == HazmatError::HeaderNotFound { lba }
                    &&& le_value(plain.subrange(0, 16)) != 0xde61af8ddd996602f4148ac83b9e506f
                },
            }
        }),
{
    headers_are_told_by_the_signature(decrypted(k, lba, s));
}

/// The lines on a volume name its sectors in decimal.
pub proof fn lines_name_the_sectors(header: Header, size: Seq<char>, start: u64, end: u64) -> (
    numbers: (Seq<char>, Seq<char>, Seq<char>, Seq<char>))
    ensures
        all_decimal(numbers.0) && decimal_value(numbers.0) == header.starting_lba,
        all_decimal(numbers.1) && decimal_value(numbers.1) == header.ending_lba,
        payload_line(header, size) == "hazmat payload range: "@ + numbers.0 + ".."@ + numbers.1
            + " ("@ + size + ")"@,
        all_decimal(numbers.2) && decimal_value(numbers.2) == start,
        all_decimal(numbers.3) && decimal_value(numbers.3) == end,
        placement_line(start, end) == "inserting hazmat layout for "@ + numbers.2 + ".."@
            + numbers.3,
{
    decimal_text_spells_the_number(header.starting_lba as nat);
    decimal_text_spells_the_number(header.ending_lba as nat);
    decimal_text_spells_the_number(start as nat);
    decimal_text_spells_the_number(end as nat);
    (
        decimal(header.starting_lba as nat),
        decimal(header.ending_lba as nat),
        decimal(start as nat),
        decimal(end as nat),
    )
}

/// A sector that cannot hold a header yields none, whatever is in it, and the
/// error names its length.
pub proof fn short_sectors_hold_no_header(k: CipherKeys, lba: u64, s: Seq<u8>)
    requires
        s.len() < 32,
    ensures
        found_header(k, lba, s) matches Err(HazmatError::HeaderTooShort { len }) && len == s.len(),
{
}

/// A device that is refused for its size is told its own size before the least
/// one.
pub proof fn refusals_show_both_sizes(size: Seq<char>, minimum: Seq<char>)
    ensures
        ({
            let line = too_small_line(size, minimum);
            let (a, b) = ("the device size is "@, " while the minimum size needed is "@);
            &&& line.len() == a.len() + size.len() + b.len() + minimum.len()
            &&& line.take(a.len() as int) == a
            &&& line.subrange(a.len() as int, (a.len() + size.len()) as int) == size
            &&& line.subrange(
                (a.len() + size.len()) as int,
                (a.len() + size.len() + b.len()) as int,
            ) == b
            &&& line.skip((a.len() + size.len() + b.len()) as int) == minimum
        }),
{
    let line = too_small_line(size, minimum);
    let (a, b) = ("the device size is "@, " while the minimum size needed is "@);
    assert(line.take(a.len() as int) =~= a);
    assert(line.subrange(a.len() as int, (a.len() + size.len()) as int) =~= size);
    assert(line.subrange(
        (a.len() + size.len()) as int,
        (a.len() + size.len() + b.len()) as int,
    ) =~= b);
    assert(line.skip((a.len() + size.len() + b.len()) as int) =~= minimum);
}

} // verus!
