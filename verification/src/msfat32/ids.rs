//! Identity-bearing values, which differ between formatted disks.

use vstd::prelude::*;
use vstd::string::*;

use crate::error::HazmatError;
use crate::msfat32::calendar::{
    civil_from_unix_days, falls_on, lemma_year_length, lemma_years_ordered, unix_days,
};
use crate::text::{
    decimal, decimal_padded, decimal_padded_text, decimal_value, hex_bytes, hex_text,
    lemma_hex_len, padded_text_spells_the_number,
};
use crate::utils::{le_value, read_le_u32, read_le_u64};

verus! {

/// Seconds in a day.
pub const SECONDS_PER_DAY: u64 = 86_400;

/// Days from 1970-01-01 to 2000-01-01.
pub const UNIX_DAYS_TO_2000_01_01: u64 = 10_957;

/// Days from 1970-01-01 to the last day whose year fits in 32 bits.
pub const LAST_SUPPORTED_DAY: u64 = 1_568_703_873_081;

/// A GUID in canonical byte order.
#[derive(Clone, Copy, Debug)]
pub struct Guid {
    /// The sixteen bytes, in the order in which they are written out.
    pub canonical: [u8; 16],
}

/// Random bytes with the version and variant fields of an RFC 4122 version 4
/// GUID put in.
pub open spec fn guid_v4(random: Seq<u8>) -> Seq<u8> {
    random.update(6, (random[6] & 0x0f) | 0x40).update(8, (random[8] & 0x3f) | 0x80)
}

/// On-disk order of a GUID: its first three fields are little-endian.
pub open spec fn guid_on_disk(b: Seq<u8>) -> Seq<u8> {
    seq![
        b[3],
        b[2],
        b[1],
        b[0],
        b[5],
        b[4],
        b[7],
        b[6],
        b[8],
        b[9],
        b[10],
        b[11],
        b[12],
        b[13],
        b[14],
        b[15],
    ]
}

/// The text of a GUID: five groups of hexadecimal digits.
pub open spec fn guid_text(b: Seq<u8>) -> Seq<char> {
    hex_bytes(b.subrange(0, 4)) + "-"@ + hex_bytes(b.subrange(4, 6)) + "-"@ + hex_bytes(
        b.subrange(6, 8),
    ) + "-"@ + hex_bytes(b.subrange(8, 10)) + "-"@ + hex_bytes(b.subrange(10, 16))
}

impl Guid {
    /// Makes an RFC 4122 version 4 GUID from random bytes.
    pub fn new_v4(random: [u8; 16]) -> (guid: Guid)
        ensures
            guid.canonical@ == guid_v4(random@),
            guid.canonical@[6] >> 4 == 4,
            guid.canonical@[8] >> 6 == 2,
    {
        let mut canonical: [u8; 16] = random;
        let version: u8 = canonical[6];
        let variant: u8 = canonical[8];
        canonical[6] = (version & 0x0f) | 0x40;
        canonical[8] = (variant & 0x3f) | 0x80;
        proof {
            assert(((version & 0x0f) | 0x40) >> 4 == 4) by (bit_vector);
            assert(((variant & 0x3f) | 0x80) >> 6 == 2) by (bit_vector);
        }
        Guid { canonical }
    }

    /// The bytes that GPT stores for this GUID.
    pub fn gpt_bytes(self) -> (bytes: [u8; 16])
        ensures
            bytes@ == guid_on_disk(self.canonical@),
    {
        let b: [u8; 16] = self.canonical;
        let bytes: [u8; 16] = [
            b[3],
            b[2],
            b[1],
            b[0],
            b[5],
            b[4],
            b[7],
            b[6],
            b[8],
            b[9],
            b[10],
            b[11],
            b[12],
            b[13],
            b[14],
            b[15],
        ];
        proof {
            assert(bytes@ =~= guid_on_disk(self.canonical@));
        }
        bytes
    }

    /// The canonical text of the GUID, as reports show it.
    pub fn to_text(&self) -> (text: String)
        ensures
            text@ == guid_text(self.canonical@),
    {
        let b: &[u8] = &self.canonical;
        let mut text = hex_text(b, 0, 4);
        text.append("-");
        text.append(hex_text(b, 4, 6).as_str());
        text.append("-");
        text.append(hex_text(b, 6, 8).as_str());
        text.append("-");
        text.append(hex_text(b, 8, 10).as_str());
        text.append("-");
        text.append(hex_text(b, 10, 16).as_str());
        text
    }
}

/// On-disk order loses nothing of a GUID.
pub proof fn guid_on_disk_is_injective(a: Seq<u8>, b: Seq<u8>)
    requires
        a.len() == 16,
        b.len() == 16,
        guid_on_disk(a) == guid_on_disk(b),
    ensures
        a == b,
{
    assert forall|i: int| 0 <= i < 16 implies a[i] == b[i] by {
        let da = guid_on_disk(a);
        let db = guid_on_disk(b);
        assert(forall|k: int| 0 <= k < 16 ==> da[k] == db[k]);
        assert(da[0] == a[3] && da[1] == a[2] && da[2] == a[1] && da[3] == a[0]);
        assert(da[4] == a[5] && da[5] == a[4] && da[6] == a[7] && da[7] == a[6]);
        assert(db[0] == b[3] && db[1] == b[2] && db[2] == b[1] && db[3] == b[0]);
        assert(db[4] == b[5] && db[5] == b[4] && db[6] == b[7] && db[7] == b[6]);
        if i >= 8 {
            assert(da[i] == a[i] && db[i] == b[i]);
        }
    }
    assert(a =~= b);
}

/// Reads eight random bytes as a little-endian number.
pub fn random_u64(bytes: [u8; 8]) -> (value: u64)
    ensures
        value == le_value(bytes@),
{
    proof {
        assert(bytes@.subrange(0, 8) =~= bytes@);
    }
    read_le_u64(&bytes, 0)
}

/// A time of day and date, decoded and as FAT packs them.
#[derive(Clone, Copy, Debug, PartialEq, Eq, Structural)]
pub struct FatTimestamp {
    /// Gregorian year.
    pub year: u32,
    /// Month, from 1.
    pub month: u32,
    /// Day of the month, from 1.
    pub day: u32,
    /// Hour of the day.
    pub hour: u32,
    /// Minute of the hour.
    pub minute: u32,
    /// Second of the minute, even.
    pub second: u32,
    /// Packed date.
    pub date: u16,
    /// Packed time.
    pub time: u16,
    /// Hundredths of a second past `second`, below 200.
    pub tenth: u8,
}

/// A FAT date: seven bits of years since 1980, four of month, five of day.
pub open spec fn packed_date(year: int, month: int, day: int) -> int {
    ((year - 1980) % 128) * 512 + month * 32 + day
}

/// A FAT time: five bits of hour, six of minute, five of pairs of seconds.
pub open spec fn packed_time(hour: int, minute: int, second: int) -> int {
    hour * 2048 + minute * 32 + second / 2
}

/// The day before the day of `now_secs`, or the first day of 1970.
pub open spec fn latest_day(now_secs: int) -> int {
    let now_days = now_secs / SECONDS_PER_DAY as int;
    if now_days > 0 {
        now_days - 1
    } else {
        0
    }
}

/// The day that `draw` picks between 2000-01-01 and `latest`.
pub open spec fn drawn_day(latest: int, draw: int) -> int {
    UNIX_DAYS_TO_2000_01_01 + draw % (latest - UNIX_DAYS_TO_2000_01_01 + 1)
}

/// `t` is the timestamp that three random numbers pick between 2000-01-01 and
/// the end of day `latest`.
pub open spec fn is_drawn_timestamp(
    t: FatTimestamp,
    latest: int,
    day_draw: int,
    second_draw: int,
    tenth_draw: int,
) -> bool {
    let seconds = second_draw % SECONDS_PER_DAY as int;
    &&& falls_on(t.year as int, t.month as int, t.day as int, drawn_day(latest, day_draw))
    &&& t.hour == seconds / 3600
    &&& t.minute == (seconds % 3600) / 60
    &&& t.second == (seconds % 60) / 2 * 2
    &&& t.tenth == tenth_draw % 200
    &&& t.date == packed_date(t.year as int, t.month as int, t.day as int)
    &&& t.time == packed_time(t.hour as int, t.minute as int, t.second as int)
}

/// The text of a timestamp, `YYYY-MM-DD hh:mm:ss`.
pub open spec fn timestamp_text(t: FatTimestamp) -> Seq<char> {
    decimal_padded(t.year as nat, 4) + "-"@ + decimal_padded(t.month as nat, 2) + "-"@
        + decimal_padded(t.day as nat, 2) + " "@ + decimal_padded(t.hour as nat, 2) + ":"@
        + decimal_padded(t.minute as nat, 2) + ":"@ + decimal_padded(t.second as nat, 2)
}

proof fn lemma_year_range(y: int, m: int, d: int, days: int)
    requires
        falls_on(y, m, d, days),
        UNIX_DAYS_TO_2000_01_01 <= days <= LAST_SUPPORTED_DAY,
    ensures
        2000 <= y <= u32::MAX,
        1 <= m <= 12,
        1 <= d <= 31,
{
    lemma_year_length(y);
    if y < 2000 {
        lemma_years_ordered(y + 1, 2000);
    }
    if y > u32::MAX {
        lemma_years_ordered(u32::MAX + 1, y);
    }
}

/// A drawn timestamp lies between 2000-01-01 and the latest day it may show.
pub proof fn drawn_timestamps_are_in_range(
    t: FatTimestamp,
    latest: int,
    day_draw: int,
    second_draw: int,
    tenth_draw: int,
)
    requires
        latest >= UNIX_DAYS_TO_2000_01_01,
        is_drawn_timestamp(t, latest, day_draw, second_draw, tenth_draw),
    ensures
        unix_days(2000, 1, 1) <= unix_days(t.year as int, t.month as int, t.day as int) <= latest,
        t.hour < 24,
        t.minute < 60,
        t.second < 60,
        t.second % 2 == 0,
        t.tenth < 200,
{
    let span = latest - UNIX_DAYS_TO_2000_01_01 + 1;
    vstd::arithmetic::div_mod::lemma_mod_bound(day_draw, span);
}

impl FatTimestamp {
    /// Makes a FAT timestamp between 2000-01-01 and the day before the day of
    /// `now_secs`, out of three random numbers. Leaving out the present day
    /// keeps images from sharing an obvious fresh formatting timestamp.
    pub fn random_before_today(
        now_secs: u64,
        day_draw: u64,
        second_draw: u64,
        tenth_draw: u64,
    ) -> (result: Result<FatTimestamp, HazmatError>)
        requires
            now_secs as int / SECONDS_PER_DAY as int <= LAST_SUPPORTED_DAY,
        ensures
            match result {
                Ok(t) => latest_day(now_secs as int) >= UNIX_DAYS_TO_2000_01_01
                    && is_drawn_timestamp(
                    t,
                    latest_day(now_secs as int),
                    day_draw as int,
                    second_draw as int,
                    tenth_draw as int,
                ),
                Err(e) => e == HazmatError::ClockTooEarly && latest_day(now_secs as int)
                    < UNIX_DAYS_TO_2000_01_01,
            },
    {
        let now_days: u64 = now_secs / SECONDS_PER_DAY;
        let latest: u64 = now_days.saturating_sub(1);
        if latest < UNIX_DAYS_TO_2000_01_01 {
            return Err(HazmatError::ClockTooEarly);
        }
        let day_span: u64 = latest - UNIX_DAYS_TO_2000_01_01 + 1;
        let day_index: u64 = UNIX_DAYS_TO_2000_01_01 + (day_draw % day_span);
        let seconds: u64 = second_draw % SECONDS_PER_DAY;
        let (year, month, day) = civil_from_unix_days(day_index as i64);
        proof {
            let y = choose|y: int| #[trigger]
                falls_on(y, month as int, day as int, day_index as int) && year == y as u32;
            lemma_year_range(y, month as int, day as int, day_index as int);
        }
        let hour: u32 = (seconds / 3600) as u32;
        let minute: u32 = ((seconds % 3600) / 60) as u32;
        let second: u32 = ((seconds % 60) & !1u64) as u32;
        let tenth: u8 = (tenth_draw % 200) as u8;
        let fat_year: u32 = year - 1980;
        let date: u16 = ((fat_year as u16) << 9u32) | ((month as u16) << 5u32) | day as u16;
        let time: u16 = ((hour as u16) << 11u32) | ((minute as u16) << 5u32) | (second as u16 / 2);
        proof {
            let s = (seconds % 60) as u64;
            assert(s < 60 ==> (s & !1u64) == s / 2 * 2) by (bit_vector);
            assert(month <= 12 && day <= 31 ==> ((fat_year as u16) << 9u32) | ((month as u16)
                << 5u32) | day as u16 == (fat_year % 128) * 512 + month * 32 + day) by (bit_vector);
            assert(hour < 24 && minute < 60 && second < 60 ==> ((hour as u16) << 11u32) | ((
            minute as u16) << 5u32) | (second as u16 / 2) == hour * 2048 + minute * 32 + second / 2)
                by (bit_vector);
        }
        Ok(FatTimestamp { year, month, day, hour, minute, second, date, time, tenth })
    }

    /// The decoded timestamp, as reports show it.
    pub fn to_text(&self) -> (text: String)
        ensures
            text@ == timestamp_text(*self),
    {
        let mut text = decimal_padded_text(self.year as u64, 4);
        text.append("-");
        text.append(decimal_padded_text(self.month as u64, 2).as_str());
        text.append("-");
        text.append(decimal_padded_text(self.day as u64, 2).as_str());
        text.append(" ");
        text.append(decimal_padded_text(self.hour as u64, 2).as_str());
        text.append(":");
        text.append(decimal_padded_text(self.minute as u64, 2).as_str());
        text.append(":");
        text.append(decimal_padded_text(self.second as u64, 2).as_str());
        text
    }
}

/// Random bytes for one formatted disk, in the order in which they are drawn.
#[derive(Clone, Copy, Debug)]
pub struct IdRandom {
    /// For the FAT volume ID.
    pub volume_id: [u8; 4],
    /// For the GUID of the disk.
    pub disk: [u8; 16],
    /// For the GUID of the reserved partition.
    pub msr: [u8; 16],
    /// For the GUID of the FAT32 partition.
    pub basic: [u8; 16],
    /// For the day of the volume label.
    pub day: [u8; 8],
    /// For the second of the volume label.
    pub second: [u8; 8],
    /// For the hundredths of the volume label.
    pub tenth: [u8; 8],
}

/// The identities of one formatted disk.
#[derive(Clone, Copy, Debug)]
pub struct GeneratedIds {
    /// GUID of the disk.
    pub disk_guid: Guid,
    /// GUID of the reserved partition.
    pub msr_guid: Guid,
    /// GUID of the FAT32 partition.
    pub basic_guid: Guid,
    /// Volume ID in the boot sector.
    pub fat_volume_id: u32,
    /// Timestamp of the volume label.
    pub volume_label_time: FatTimestamp,
}

/// `ids` are the identities that `random` and the time of formatting give.
pub open spec fn ids_drawn(ids: GeneratedIds, random: IdRandom, now_secs: int) -> bool {
    &&& ids.disk_guid.canonical@ == guid_v4(random.disk@)
    &&& ids.msr_guid.canonical@ == guid_v4(random.msr@)
    &&& ids.basic_guid.canonical@ == guid_v4(random.basic@)
    &&& ids.fat_volume_id == le_value(random.volume_id@)
    &&& is_drawn_timestamp(
        ids.volume_label_time,
        latest_day(now_secs),
        le_value(random.day@) as int,
        le_value(random.second@) as int,
        le_value(random.tenth@) as int,
    )
}

impl GeneratedIds {
    /// Makes the identities of a disk that is formatted at `now_secs`.
    pub fn new(random: &IdRandom, now_secs: u64) -> (result: Result<GeneratedIds, HazmatError>)
        requires
            now_secs as int / SECONDS_PER_DAY as int <= LAST_SUPPORTED_DAY,
        ensures
            match result {
                Ok(ids) => latest_day(now_secs as int) >= UNIX_DAYS_TO_2000_01_01 && ids_drawn(
                    ids,
                    *random,
                    now_secs as int,
                ),
                Err(e) => e == HazmatError::ClockTooEarly && latest_day(now_secs as int)
                    < UNIX_DAYS_TO_2000_01_01,
            },
    {
        proof {
            assert(random.volume_id@.subrange(0, 4) =~= random.volume_id@);
        }
        let fat_volume_id: u32 = read_le_u32(&random.volume_id, 0);
        let disk_guid = Guid::new_v4(random.disk);
        let msr_guid = Guid::new_v4(random.msr);
        let basic_guid = Guid::new_v4(random.basic);
        let stamp = FatTimestamp::random_before_today(
            now_secs,
            random_u64(random.day),
            random_u64(random.second),
            random_u64(random.tenth),
        );
        match stamp {
            Ok(volume_label_time) => Ok(
                GeneratedIds { disk_guid, msr_guid, basic_guid, fat_volume_id, volume_label_time },
            ),
            Err(e) => Err(e),
        }
    }
}

/// A version 4 GUID is its random bytes but for the six bits that tell its
/// version and its variant.
pub proof fn guids_keep_their_random_bits(random: Seq<u8>)
    requires
        random.len() == 16,
    ensures
        ({
            let g = guid_v4(random);
            &&& g.len() == 16
            &&& g[6] / 16 == 4 && g[6] % 16 == random[6] % 16
            &&& g[8] / 64 == 2 && g[8] % 64 == random[8] % 64
            &&& forall|i: int| 0 <= i < 16 && i != 6 && i != 8 ==> #[trigger] g[i] == random[i]
        }),
{
    let (a, b) = (random[6], random[8]);
    assert(((a & 0x0f) | 0x40) / 16 == 4 && ((a & 0x0f) | 0x40) % 16 == a % 16) by (bit_vector);
    assert(((b & 0x3f) | 0x80) / 64 == 2 && ((b & 0x3f) | 0x80) % 64 == b % 64) by (bit_vector);
}

/// On disk a GUID holds its first three fields as little-endian numbers and the
/// other eight bytes as they are.
pub proof fn guid_fields_are_little_endian_on_disk(b: Seq<u8>)
    requires
        b.len() == 16,
    ensures
        ({
            let d = guid_on_disk(b);
            &&& d.len() == 16
            &&& le_value(d.subrange(0, 4)) == 0x100_0000 * b[0] + 0x1_0000 * b[1] + 0x100 * b[2]
                + b[3]
            &&& le_value(d.subrange(4, 6)) == 0x100 * b[4] + b[5]
            &&& le_value(d.subrange(6, 8)) == 0x100 * b[6] + b[7]
            &&& d.subrange(8, 16) == b.subrange(8, 16)
        }),
{
    let d = guid_on_disk(b);
    lemma_le_value_4(d.subrange(0, 4));
    lemma_le_value_2(d.subrange(4, 6));
    lemma_le_value_2(d.subrange(6, 8));
    assert(d.subrange(8, 16) =~= b.subrange(8, 16));
}

proof fn lemma_le_value_2(s: Seq<u8>)
    requires
        s.len() == 2,
    ensures
        le_value(s) == s[0] + 0x100 * s[1],
{
    reveal_with_fuel(le_value, 3);
}

proof fn lemma_le_value_4(s: Seq<u8>)
    requires
        s.len() == 4,
    ensures
        le_value(s) == s[0] + 0x100 * s[1] + 0x1_0000 * s[2] + 0x100_0000 * s[3],
{
    reveal_with_fuel(le_value, 5);
}

/// The text of a GUID has its hexadecimal digits in groups of eight, four, four,
/// four and twelve, with a hyphen between two groups.
pub proof fn guid_text_spells_the_bytes(b: Seq<u8>)
    requires
        b.len() == 16,
    ensures
        ({
            let t = guid_text(b);
            &&& t.len() == 36
            &&& t[8] == '-' && t[13] == '-' && t[18] == '-' && t[23] == '-'
            &&& t.subrange(0, 8) == hex_bytes(b.subrange(0, 4))
            &&& t.subrange(9, 13) == hex_bytes(b.subrange(4, 6))
            &&& t.subrange(14, 18) == hex_bytes(b.subrange(6, 8))
            &&& t.subrange(19, 23) == hex_bytes(b.subrange(8, 10))
            &&& t.subrange(24, 36) == hex_bytes(b.subrange(10, 16))
        }),
{
    reveal_strlit("-");
    lemma_hex_len(b.subrange(0, 4));
    lemma_hex_len(b.subrange(4, 6));
    lemma_hex_len(b.subrange(6, 8));
    lemma_hex_len(b.subrange(8, 10));
    lemma_hex_len(b.subrange(10, 16));
    let t = guid_text(b);
    assert(t.subrange(0, 8) =~= hex_bytes(b.subrange(0, 4)));
    assert(t.subrange(9, 13) =~= hex_bytes(b.subrange(4, 6)));
    assert(t.subrange(14, 18) =~= hex_bytes(b.subrange(6, 8)));
    assert(t.subrange(19, 23) =~= hex_bytes(b.subrange(8, 10)));
    assert(t.subrange(24, 36) =~= hex_bytes(b.subrange(10, 16)));
}

/// Each identity comes from random bytes of its own: the disk and the two
/// partitions have the bytes drawn for them in their GUIDs, and the volume ID is
/// the four bytes drawn for it.
pub proof fn identities_come_from_their_own_random_bytes(
    ids: GeneratedIds,
    random: IdRandom,
    now_secs: int,
    i: int,
)
    requires
        ids_drawn(ids, random, now_secs),
        0 <= i < 16,
        i != 6,
        i != 8,
    ensures
        ids.disk_guid.canonical@[i] == random.disk@[i],
        ids.msr_guid.canonical@[i] == random.msr@[i],
        ids.basic_guid.canonical@[i] == random.basic@[i],
        ids.fat_volume_id == random.volume_id@[0] + 0x100 * random.volume_id@[1] + 0x1_0000
            * random.volume_id@[2] + 0x100_0000 * random.volume_id@[3],
{
    guids_keep_their_random_bits(random.disk@);
    guids_keep_their_random_bits(random.msr@);
    guids_keep_their_random_bits(random.basic@);
    lemma_le_value_4(random.volume_id@);
}

/// Where the random bytes of the disk and of its two partitions differ in a byte
/// that a GUID keeps whole, so do their GUIDs, as made and as stored.
pub proof fn distinct_random_bytes_give_distinct_guids(a: Seq<u8>, b: Seq<u8>, i: int)
    requires
        a.len() == 16,
        b.len() == 16,
        0 <= i < 16,
        i != 6,
        i != 8,
        a[i] != b[i],
    ensures
        guid_v4(a) != guid_v4(b),
        guid_on_disk(guid_v4(a)) != guid_on_disk(guid_v4(b)),
{
    guids_keep_their_random_bits(a);
    guids_keep_their_random_bits(b);
    assert(guid_v4(a)[i] != guid_v4(b)[i]);
    if guid_on_disk(guid_v4(a)) == guid_on_disk(guid_v4(b)) {
        guid_on_disk_is_injective(guid_v4(a), guid_v4(b));
    }
}

/// A drawn timestamp is a date whose day counts on from 2000-01-01 by the day
/// draw, wrapped into the days up to the latest one, and a time whose seconds are
/// the second draw, wrapped into one day and rounded down to an even number. The
/// packed fields hold the year, month and day and the hour, minute and half
/// second in their bits.
pub proof fn drawn_timestamps_follow_the_draws(
    t: FatTimestamp,
    latest: int,
    day_draw: int,
    second_draw: int,
    tenth_draw: int,
)
    requires
        latest >= 10_957,
        is_drawn_timestamp(t, latest, day_draw, second_draw, tenth_draw),
    ensures
        ({
            let day = unix_days(t.year as int, t.month as int, t.day as int);
            let span = latest - 10_957 + 1;
            let seconds = t.hour * 3600 + t.minute * 60 + t.second;
            &&& 1 <= t.month <= 12 && 1 <= t.day <= 31
            &&& 10_957 <= day <= latest
            &&& (day_draw - (day - 10_957)) % span == 0
            &&& t.hour < 24 && t.minute < 60 && t.second < 60
            &&& t.second % 2 == 0
            &&& 0 <= second_draw % 86_400 - seconds < 2
            &&& t.tenth < 200 && (tenth_draw - t.tenth) % 200 == 0
            &&& t.date % 32 == t.day
            &&& t.date / 32 % 16 == t.month
            &&& t.date / 512 == (t.year - 1980) % 128
            &&& t.time % 32 * 2 == t.second
            &&& t.time / 32 % 64 == t.minute
            &&& t.time / 2048 == t.hour
        }),
{
    let day = unix_days(t.year as int, t.month as int, t.day as int);
    lemma_wrapped_day(latest, day_draw);
    assert(day == drawn_day(latest, day_draw));
    assert(1 <= t.month <= 12 && 1 <= t.day <= 31);
    lemma_packed_date(t.year as int, t.month as int, t.day as int, t.date as int);
    lemma_split_seconds(second_draw % 86_400);
    lemma_packed_time(t.hour as int, t.minute as int, t.second as int, t.time as int);
}

proof fn lemma_wrapped_day(latest: int, draw: int)
    requires
        latest >= 10_957,
    ensures
        10_957 <= drawn_day(latest, draw) <= latest,
        (draw - (drawn_day(latest, draw) - 10_957)) % (latest - 10_957 + 1) == 0,
{
    let span = latest - 10_957 + 1;
    let rest = draw % span;
    vstd::arithmetic::div_mod::lemma_mod_bound(draw, span);
    vstd::arithmetic::div_mod::lemma_fundamental_div_mod(draw, span);
    vstd::arithmetic::div_mod::lemma_mod_multiples_basic(draw / span, span);
    let q = draw / span;
    assert(draw - rest == q * span) by (nonlinear_arith)
        requires
            draw == span * q + rest,
    ;
}

proof fn lemma_packed_date(year: int, month: int, day: int, date: int)
    requires
        1 <= month <= 12,
        1 <= day <= 31,
        date == packed_date(year, month, day),
    ensures
        date % 32 == day,
        date / 32 % 16 == month,
        date / 512 == (year - 1980) % 128,
{
    let years = (year - 1980) % 128;
    assert(date == years * 512 + month * 32 + day);
    assert(date / 32 == years * 16 + month);
}

proof fn lemma_split_seconds(seconds: int)
    requires
        0 <= seconds < 86_400,
    ensures
        0 <= seconds / 3600 < 24,
        0 <= (seconds % 3600) / 60 < 60,
        0 <= (seconds % 60) / 2 * 2 < 60,
        0 <= seconds - (seconds / 3600 * 3600 + (seconds % 3600) / 60 * 60 + (seconds % 60) / 2 * 2)
            < 2,
{
}

proof fn lemma_packed_time(hour: int, minute: int, second: int, time: int)
    requires
        0 <= hour < 24,
        0 <= minute < 60,
        0 <= second < 60,
        second % 2 == 0,
        time == packed_time(hour, minute, second),
    ensures
        time % 32 * 2 == second,
        time / 32 % 64 == minute,
        time / 2048 == hour,
{
    assert(time / 32 == hour * 64 + minute);
}

/// The text of a timestamp of a four-digit year spells its six numbers, each
/// with as many digits as it has room for.
pub proof fn timestamp_text_spells_the_numbers(t: FatTimestamp)
    requires
        t.year <= 9999,
        t.month <= 99,
        t.day <= 99,
        t.hour <= 99,
        t.minute <= 99,
        t.second <= 99,
    ensures
        ({
            let s = timestamp_text(t);
            &&& s.len() == 19
            &&& s[4] == '-' && s[7] == '-' && s[10] == ' ' && s[13] == ':' && s[16] == ':'
            &&& decimal_value(s.subrange(0, 4)) == t.year
            &&& decimal_value(s.subrange(5, 7)) == t.month
            &&& decimal_value(s.subrange(8, 10)) == t.day
            &&& decimal_value(s.subrange(11, 13)) == t.hour
            &&& decimal_value(s.subrange(14, 16)) == t.minute
            &&& decimal_value(s.subrange(17, 19)) == t.second
        }),
{
    reveal_strlit("-");
    reveal_strlit(" ");
    reveal_strlit(":");
    reveal_with_fuel(decimal, 4);
    padded_text_spells_the_number(t.year as nat, 4);
    padded_text_spells_the_number(t.month as nat, 2);
    padded_text_spells_the_number(t.day as nat, 2);
    padded_text_spells_the_number(t.hour as nat, 2);
    padded_text_spells_the_number(t.minute as nat, 2);
    padded_text_spells_the_number(t.second as nat, 2);
    let s = timestamp_text(t);
    assert(s.subrange(0, 4) =~= decimal_padded(t.year as nat, 4));
    assert(s.subrange(5, 7) =~= decimal_padded(t.month as nat, 2));
    assert(s.subrange(8, 10) =~= decimal_padded(t.day as nat, 2));
    assert(s.subrange(11, 13) =~= decimal_padded(t.hour as nat, 2));
    assert(s.subrange(14, 16) =~= decimal_padded(t.minute as nat, 2));
    assert(s.subrange(17, 19) =~= decimal_padded(t.second as nat, 2));
}

/// The latest day is the one before the day of the clock.
pub proof fn latest_day_is_yesterday(now_secs: int)
    requires
        0 <= now_secs,
    ensures
        now_secs >= 86_400 ==> (latest_day(now_secs) + 1) * 86_400 <= now_secs < (latest_day(
            now_secs,
        ) + 2) * 86_400,
        now_secs < 86_400 ==> latest_day(now_secs) == 0,
{
}

/// The label of a formatted disk is dated from the year 2000 on and before the day
/// of formatting, by its own random bytes.
pub proof fn labels_are_dated_before_today(ids: GeneratedIds, random: IdRandom, now_secs: int)
    requires
        ids_drawn(ids, random, now_secs),
        now_secs >= 10_958 * 86_400,
    ensures
        ({
            let t = ids.volume_label_time;
            let day = unix_days(t.year as int, t.month as int, t.day as int);
            let seconds = t.hour * 3600 + t.minute * 60 + t.second;
            &&& unix_days(2000, 1, 1) <= day
            &&& (day + 1) * 86_400 <= now_secs
            &&& (le_value(random.day@) - (day - 10_957)) % (now_secs / 86_400 - 10_957) == 0
            &&& 0 <= le_value(random.second@) as int % 86_400 - seconds < 2
            &&& (le_value(random.tenth@) - t.tenth) % 200 == 0
        }),
{
    let latest = latest_day(now_secs);
    latest_day_is_yesterday(now_secs);
    drawn_timestamps_follow_the_draws(
        ids.volume_label_time,
        latest,
        le_value(random.day@) as int,
        le_value(random.second@) as int,
        le_value(random.tenth@) as int,
    );
    assert(latest - 10_957 + 1 == now_secs / 86_400 - 10_957);
    assert(unix_days(2000, 1, 1) == 10_957);
}

} // verus!
