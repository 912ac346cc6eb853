use vstd::prelude::*;
use vstd::slice::slice_subrange;
use vstd::string::StringExecFns;
use vstd::utf8::{encode_utf8, is_ascii_chars};
use crate::utils::{le_u16, le_u32, read_le_u16, read_le_u32};
use super::names::{
    field_text, fragments_at, long_name_text, long_name_units, read_field, read_long_name,
    split_at_dot, split_name, text_of, text_or_invalid, trim_spaces, trimmed_len, utf16_text,
};
use crate::utils::first_match;
use super::ata::{ATABus, BusDrive, Phase, Transfer, TransferKind};
use super::{
    Directory, File, FileView, LoadChildResult, StorageEntry, StorageFormat, TimeStamp, SECTOR_SIZE,
};

verus! {

/// Attribute bits of a directory record.
pub const ATTR_READ_ONLY: u8 = 0x01;
pub const ATTR_HIDDEN: u8 = 0x02;
pub const ATTR_SYSTEM: u8 = 0x04;
pub const ATTR_VOLUME_ID: u8 = 0x08;
pub const ATTR_DIRECTORY: u8 = 0x10;
pub const ATTR_ARCHIVE: u8 = 0x20;
pub const ATTR_DEVICE: u8 = 0x40;
pub const ATTR_RESERVED: u8 = 0x80;
/// The attribute byte that marks a long-filename continuation record.
pub const ATTR_LONG_FILE_NAME: u8 = 0x0F;

/// First byte of a record that ends the directory.
pub const RECORD_END: u8 = 0x00;
/// First byte of a record whose file was deleted.
pub const RECORD_DELETED: u8 = 0xE5;
/// Bytes in one directory record.
pub const RECORD_SIZE: usize = 32;

/// The attribute byte of a directory record as a set of flags.
#[derive(Debug, Clone, Copy, PartialEq, Eq, Structural)]
pub struct FatAttributes {
    pub bits: u8,
}

impl FatAttributes {
    /// The set with exactly the bits of `bits`, known or not.
    pub fn from_bits_retain(bits: u8) -> (flags: Self)
        ensures
            flags.bits == bits,
    {
        FatAttributes { bits }
    }

    /// Whether the two sets share a flag.
    pub fn intersects(&self, mask: u8) -> (shared: bool)
        ensures
            shared == (self.bits & mask != 0),
    {
        self.bits & mask != 0
    }
}

/// One 32-byte directory record, field by field.
#[derive(Debug, Clone, Copy)]
pub struct DirEntry {
    pub _name: [u8; 8],
    pub _ext: [u8; 3],
    pub attributes: u8,
    pub _reserved: u8,
    pub _creation_time: u8,
    pub creation_time: u16,
    pub creation_date: u16,
    pub accessed_date: u16,
    pub _zero: u16,
    pub modification_time: u16,
    pub modification_date: u16,
    pub start_cluster: u16,
    pub file_size: u32,
}

impl DirEntry {
    /// The record that the 32 bytes of `record` encode.
    pub open spec fn decode(record: Seq<u8>) -> DirEntry {
        DirEntry {
            _name: [
                record[0],
                record[1],
                record[2],
                record[3],
                record[4],
                record[5],
                record[6],
                record[7],
            ],
            _ext: [record[8], record[9], record[10]],
            attributes: record[11],
            _reserved: record[12],
            _creation_time: record[13],
            creation_time: le_u16(record, 14) as u16,
            creation_date: le_u16(record, 16) as u16,
            accessed_date: le_u16(record, 18) as u16,
            _zero: le_u16(record, 20) as u16,
            modification_time: le_u16(record, 22) as u16,
            modification_date: le_u16(record, 24) as u16,
            start_cluster: le_u16(record, 26) as u16,
            file_size: le_u32(record, 28) as u32,
        }
    }

    /// Reads the record that starts at `at` in `bytes`.
    pub fn from_bytes(bytes: &[u8], at: usize) -> (entry: DirEntry)
        requires
            at + 32 <= bytes.len(),
        ensures
            entry == Self::decode(bytes@.subrange(at as int, at + 32)),
    {
        let record = slice_subrange(bytes, at, at + 32);
        DirEntry {
            _name: [
                record[0],
                record[1],
                record[2],
                record[3],
                record[4],
                record[5],
                record[6],
                record[7],
            ],
            _ext: [record[8], record[9], record[10]],
            attributes: record[11],
            _reserved: record[12],
            _creation_time: record[13],
            creation_time: read_le_u16(record, 14),
            creation_date: read_le_u16(record, 16),
            accessed_date: read_le_u16(record, 18),
            _zero: read_le_u16(record, 20),
            modification_time: read_le_u16(record, 22),
            modification_date: read_le_u16(record, 24),
            start_cluster: read_le_u16(record, 26),
            file_size: read_le_u32(record, 28),
        }
    }

    /// The creation time: hour in the top 5 bits of the time word, minute in
    /// the next 6, half the seconds in the low 5; years since 1980 in the top
    /// 7 bits of the date word, month in the next 4, day in the low 5.
    pub open spec fn spec_timestamp(&self) -> TimeStamp {
        TimeStamp {
            hour: (self.creation_time / 2048) as u8,
            minute: (self.creation_time / 32 % 64) as u8,
            second: (self.creation_time % 32 * 2) as u8,
            year: (self.creation_date / 512 + 1980) as u16,
            month: (self.creation_date / 32 % 16) as u8,
            day: (self.creation_date % 32) as u8,
        }
    }

    /// Unpacks the creation time.
    pub fn timestamp(&self) -> (stamp: TimeStamp)
        ensures
            stamp == self.spec_timestamp(),
    {
        let time: u16 = self.creation_time;
        let date: u16 = self.creation_date;
        assert((time >> 11) & 0b11111 == time / 2048) by (bit_vector);
        assert((time >> 5) & 0b111111 == time / 32 % 64) by (bit_vector);
        assert(time & 0b11111 == time % 32) by (bit_vector);
        assert((date >> 9) & 0b1111111 == date / 512) by (bit_vector);
        assert((date >> 5) & 0b1111 == date / 32 % 16) by (bit_vector);
        assert(date & 0b11111 == date % 32) by (bit_vector);
        let hour: u8 = ((time >> 11) & 0b11111) as u8;
        let minute: u8 = ((time >> 5) & 0b111111) as u8;
        let second: u8 = ((time & 0b11111) * 2) as u8;
        let year: u16 = ((date >> 9) & 0b1111111) + 1980;
        let month: u8 = ((date >> 5) & 0b1111) as u8;
        let day: u8 = (date & 0b11111) as u8;
        TimeStamp { second, minute, hour, day, month, year }
    }

    /// Whether the record names a directory.
    pub open spec fn spec_is_directory(&self) -> bool {
        self.attributes & ATTR_DIRECTORY != 0
    }
}

/// The volume's geometry, as the first sector of the device records it.
#[derive(Debug, Clone, Copy)]
pub struct BootSector {
    pub _jump: [u8; 3],
    pub _oem_name: [u8; 8],
    pub bytes_per_sector: u16,
    pub sectors_per_cluster: u8,
    pub reserved_sectors: u16,
    pub fat_count: u8,
    pub root_dir_entries: u16,
    pub total_sectors_short: u16,
    pub _media: u8,
    pub fat_size_sectors: u16,
}

impl BootSector {
    /// The geometry that the first 24 bytes of `sector` encode.
    pub open spec fn decode(sector: Seq<u8>) -> BootSector {
        BootSector {
            _jump: [sector[0], sector[1], sector[2]],
            _oem_name: [
                sector[3],
                sector[4],
                sector[5],
                sector[6],
                sector[7],
                sector[8],
                sector[9],
                sector[10],
            ],
            bytes_per_sector: le_u16(sector, 11) as u16,
            sectors_per_cluster: sector[13],
            reserved_sectors: le_u16(sector, 14) as u16,
            fat_count: sector[16],
            root_dir_entries: le_u16(sector, 17) as u16,
            total_sectors_short: le_u16(sector, 19) as u16,
            _media: sector[21],
            fat_size_sectors: le_u16(sector, 22) as u16,
        }
    }

    /// Reads the geometry from the first sector of a volume.
    pub fn from_bytes(sector: &[u8]) -> (boot: BootSector)
        requires
            sector.len() >= 24,
        ensures
            boot == Self::decode(sector@),
    {
        BootSector {
            _jump: [sector[0], sector[1], sector[2]],
            _oem_name: [
                sector[3],
                sector[4],
                sector[5],
                sector[6],
                sector[7],
                sector[8],
                sector[9],
                sector[10],
            ],
            bytes_per_sector: read_le_u16(sector, 11),
            sectors_per_cluster: sector[13],
            reserved_sectors: read_le_u16(sector, 14),
            fat_count: sector[16],
            root_dir_entries: read_le_u16(sector, 17),
            total_sectors_short: read_le_u16(sector, 19),
            _media: sector[21],
            fat_size_sectors: read_le_u16(sector, 22),
        }
    }

    /// First sector of the root directory: behind the reserved sectors and
    /// every copy of the allocation table.
    pub open spec fn root_dir_sector(&self) -> int {
        self.reserved_sectors + self.fat_count * self.fat_size_sectors
    }

    /// Sectors that the root directory takes: its records are 32 bytes each,
    /// and a sector that they only partly fill counts whole.
    pub open spec fn root_dir_sectors(&self) -> int {
        (self.root_dir_entries * 32 + (self.bytes_per_sector - 1)) / (self.bytes_per_sector as int)
    }

    /// First sector of the data region, where cluster 2 begins.
    pub open spec fn data_start(&self) -> int {
        self.root_dir_sector() + self.root_dir_sectors()
    }

    /// First sector of `cluster`.
    pub open spec fn spec_cluster_to_sector(&self, cluster: int) -> int {
        self.data_start() + (cluster - 2) * self.sectors_per_cluster
    }

    /// The root directory's first sector and its length in sectors.
    pub fn calculate_root_dir_offset(&self) -> (span: (usize, usize))
        requires
            self.bytes_per_sector > 0,
        ensures
            span.0 == self.root_dir_sector(),
            span.1 == self.root_dir_sectors(),
    {
        assert(self.fat_count * self.fat_size_sectors <= 255 * 65535) by (nonlinear_arith);
        let fat_sectors: u32 = self.fat_count as u32 * self.fat_size_sectors as u32;
        let root_dir_sector: u32 = self.reserved_sectors as u32 + fat_sectors;
        let root_dir_sectors: u32 = ((self.root_dir_entries as u32 * 32) + (self.bytes_per_sector
            as u32 - 1)) / self.bytes_per_sector as u32;
        (root_dir_sector as usize, root_dir_sectors as usize)
    }

    /// The first sector of `cluster`. Clusters 0 and 1 have none.
    pub fn cluster_to_sector(&self, cluster: u16) -> (sector: usize)
        requires
            self.bytes_per_sector > 0,
            cluster >= 2,
        ensures
            sector == self.spec_cluster_to_sector(cluster as int),
    {
        let (root_dir_sector, root_dir_sectors) = self.calculate_root_dir_offset();
        assert(root_dir_sectors <= 0x20_0000) by (nonlinear_arith)
            requires
                root_dir_sectors == (self.root_dir_entries * 32 + (self.bytes_per_sector - 1)) / (
                self.bytes_per_sector as int),
                self.bytes_per_sector > 0,
        ;
        assert(self.fat_count * self.fat_size_sectors <= 255 * 65535) by (nonlinear_arith);
        assert((cluster - 2) * self.sectors_per_cluster <= 65533 * 255) by (nonlinear_arith);
        let data_start: usize = root_dir_sector + root_dir_sectors;
        data_start + (cluster as usize - 2) * self.sectors_per_cluster as usize
    }
}

/// Clusters from 2 upwards begin `sectors_per_cluster` sectors apart, each
/// later cluster at a later sector, so no two of them share a first sector
/// on a volume whose clusters are not empty.
pub proof fn lemma_cluster_to_sector_monotonic(boot: BootSector, first: int, second: int)
    requires
        2 <= first < second,
    ensures
        boot.spec_cluster_to_sector(second) - boot.spec_cluster_to_sector(first) == (second
            - first) * boot.sectors_per_cluster,
        boot.sectors_per_cluster > 0 ==> boot.spec_cluster_to_sector(first)
            < boot.spec_cluster_to_sector(second),
        boot.spec_cluster_to_sector(first) >= boot.data_start(),
{
    assert((second - 2) * boot.sectors_per_cluster - (first - 2) * boot.sectors_per_cluster == (
    second - first) * boot.sectors_per_cluster) by (nonlinear_arith);
    assert(boot.sectors_per_cluster > 0 ==> (second - first) * boot.sectors_per_cluster > 0)
        by (nonlinear_arith)
        requires
            second - first > 0,
    ;
    assert((first - 2) * boot.sectors_per_cluster >= 0) by (nonlinear_arith)
        requires
            first >= 2,
    ;
}

/// A file name as base and extension, with `"."` between them where there
/// is an extension.
pub open spec fn full_name(name: Seq<char>, ext: Option<Seq<char>>) -> Seq<char> {
    match ext {
        Some(ext) => name + "."@ + ext,
        None => name,
    }
}

/// Joins base and extension.
fn join_name(name: &String, ext: &Option<String>) -> (full: String)
    ensures
        full@ == full_name(name@, text_of(*ext)),
{
    match ext {
        Some(ext) => {
            let mut full = name.clone();
            full.append(".");
            full.append(ext.as_str());
            full
        },
        None => name.clone(),
    }
}

/// A short name: up to eight bytes of base and up to three of extension.
#[derive(Debug, Clone)]
pub struct Format83(pub String, pub Option<String>);

/// The base and extension that the first 11 bytes of `record` spell: each
/// field without its trailing spaces, and no extension where nothing of it
/// remains.
pub open spec fn short_name(record: Seq<u8>) -> (Seq<char>, Option<Seq<char>>) {
    (
        field_text(record.subrange(0, 8)),
        if trim_spaces(record.subrange(8, 11)).len() == 0 {
            None
        } else {
            Some(field_text(record.subrange(8, 11)))
        },
    )
}

impl Format83 {
    /// The short name of base `name` and extension `ext`.
    pub fn new(name: String, ext: Option<String>) -> (format: Self)
        ensures
            format.0 == name,
            format.1 == ext,
    {
        Self(name, ext)
    }

    /// Reads the short name that the first 11 bytes of a record spell.
    pub fn from_bytes(bytes: &[u8]) -> (format: Self)
        requires
            bytes.len() >= 11,
        ensures
            (format.0@, text_of(format.1)) == short_name(bytes@),
    {
        let name = read_field(bytes, 0, 8);
        let ext = if trimmed_len(bytes, 8, 11) == 0 {
            None
        } else {
            Some(read_field(bytes, 8, 11))
        };
        Format83(name, ext)
    }

    /// The name as it is shown: `BASE.EXT`, or `BASE/` where it has no
    /// extension.
    pub open spec fn spec_text(&self) -> Seq<char> {
        match self.1 {
            Some(ext) => self.0@ + "."@ + ext@,
            None => self.0@ + "/"@,
        }
    }

    /// Writes the name as it is shown.
    pub fn to_text(&self) -> (text: String)
        ensures
            text@ == self.spec_text(),
    {
        let mut text = self.0.clone();
        match &self.1 {
            Some(ext) => {
                text.append(".");
                text.append(ext.as_str());
            },
            None => {
                text.append("/");
            },
        }
        text
    }
}

/// A directory record together with the name that it goes by.
#[derive(Debug, Clone)]
pub struct ParsedDirEntry {
    pub name: String,
    pub ext: Option<String>,
    pub entry: DirEntry,
}

/// What a parsed entry holds, its strings as text.
pub struct EntryView {
    pub name: Seq<char>,
    pub ext: Option<Seq<char>>,
    pub entry: DirEntry,
}

impl EntryView {
    /// The whole name: base, and extension where there is one.
    pub open spec fn full_name(&self) -> Seq<char> {
        full_name(self.name, self.ext)
    }
}

impl View for ParsedDirEntry {
    type V = EntryView;

    open spec fn view(&self) -> EntryView {
        EntryView { name: self.name@, ext: text_of(self.ext), entry: self.entry }
    }
}

impl ParsedDirEntry {
    /// The whole name: base, and extension where there is one.
    pub fn name(&self) -> (full: String)
        ensures
            full@ == self@.full_name(),
    {
        join_name(&self.name, &self.ext)
    }
}

impl StorageEntry for ParsedDirEntry {
    open spec fn spec_key(&self) -> Seq<char> {
        self@.full_name()
    }

    fn key(&self) -> (name: String) {
        self.name()
    }
}

/// The views of `entries`, one for one.
pub open spec fn entries_view(entries: Seq<ParsedDirEntry>) -> Seq<EntryView> {
    Seq::new(entries.len(), |i: int| entries[i]@)
}

/// Record `index` of a directory buffer.
pub open spec fn record_at(bytes: Seq<u8>, index: int) -> Seq<u8> {
    bytes.subrange(32 * index, 32 * index + 32)
}

/// The name of the entry that `record` closes, `pending` being the
/// continuation records met since the entry before it. The two entries that
/// begin with a dot have their names as they stand; continuation records
/// spell the name where there are any; else the record's own short name
/// holds.
pub open spec fn record_name(record: Seq<u8>, pending: Seq<Seq<u8>>) -> (
    Seq<char>,
    Option<Seq<char>>,
) {
    if record[0] == 0x2E {
        if record[1] == 0x2E {
            (".."@, None)
        } else {
            ("."@, None)
        }
    } else if pending.len() > 0 {
        split_at_dot(text_or_invalid(utf16_text(long_name_units(pending))))
    } else {
        short_name(record)
    }
}

/// The entry that `record` closes.
pub open spec fn parsed_entry(record: Seq<u8>, pending: Seq<Seq<u8>>) -> EntryView {
    let (name, ext) = record_name(record, pending);
    EntryView { name, ext, entry: DirEntry::decode(record) }
}

/// The entries of a directory buffer from record `from` on, `pending` being
/// the continuation records met and not yet used. A record that begins with
/// the end marker ends the directory; a deleted record is passed over; a
/// continuation record is kept for the entry that follows it.
pub open spec fn parse_records(bytes: Seq<u8>, from: int, pending: Seq<Seq<u8>>) -> Seq<EntryView>
    decreases bytes.len() / 32 - from,
{
    if from < 0 || from >= bytes.len() / 32 {
        Seq::empty()
    } else {
        let record = record_at(bytes, from);
        if record[0] == RECORD_END {
            Seq::empty()
        } else if record[0] == RECORD_DELETED {
            parse_records(bytes, from + 1, pending)
        } else if record[11] == ATTR_LONG_FILE_NAME {
            parse_records(bytes, from + 1, pending.push(record))
        } else {
            seq![parsed_entry(record, pending)] + parse_records(bytes, from + 1, Seq::empty())
        }
    }
}

/// The entries of a directory buffer.
pub open spec fn parse_directory(bytes: Seq<u8>) -> Seq<EntryView> {
    parse_records(bytes, 0, Seq::empty())
}

/// Names the entry whose record starts at `at`, the continuation records
/// before it starting at `pending`.
fn read_name(bytes: &[u8], at: usize, pending: &Vec<usize>) -> (parts: (String, Option<String>))
    requires
        at + 32 <= bytes.len(),
        forall|i: int| 0 <= i < pending@.len() ==> pending@[i] + 32 <= bytes.len(),
    ensures
        (parts.0@, text_of(parts.1)) == record_name(
            bytes@.subrange(at as int, at + 32),
            fragments_at(bytes@, pending@),
        ),
{
    if bytes[at] == 0x2E {
        if bytes[at + 1] == 0x2E {
            (String::from_str(".."), None)
        } else {
            (String::from_str("."), None)
        }
    } else if pending.len() > 0 {
        let units = read_long_name(bytes, pending);
        let text = long_name_text(units.as_slice());
        split_name(text.as_str())
    } else {
        let format = Format83::from_bytes(slice_subrange(bytes, at, at + 32));
        (format.0, format.1)
    }
}

/// Parses the records of `bytes`, 32 bytes each; bytes behind the last whole
/// record are not looked at.
pub fn parse_bytes(bytes: &[u8]) -> (out: Vec<ParsedDirEntry>)
    ensures
        entries_view(out@) == parse_directory(bytes@),
{
    let mut out: Vec<ParsedDirEntry> = Vec::new();
    let mut pending: Vec<usize> = Vec::new();
    let count: usize = bytes.len() / 32;
    let mut index: usize = 0;
    proof {
        assert(entries_view(out@) =~= Seq::empty());
        assert(fragments_at(bytes@, pending@) =~= Seq::empty());
    }
    while index < count
        invariant
            count == bytes.len() / 32,
            index <= count,
            forall|i: int| 0 <= i < pending@.len() ==> pending@[i] + 32 <= bytes.len(),
            parse_directory(bytes@) == entries_view(out@) + parse_records(
                bytes@,
                index as int,
                fragments_at(bytes@, pending@),
            ),
        ensures
            parse_directory(bytes@) == entries_view(out@),
        decreases count - index,
    {
        let at: usize = index * 32;
        let ghost record = record_at(bytes@, index as int);
        let ghost fragments = fragments_at(bytes@, pending@);
        let ghost before = entries_view(out@);
        assert(record[0] == bytes@[at as int]);
        assert(record[11] == bytes@[at + 11]);
        if bytes[at] == RECORD_END {
            proof {
                assert(before + Seq::<EntryView>::empty() =~= before);
            }
            break ;
        }
        index += 1;
        if bytes[at] == RECORD_DELETED {
            continue ;
        }
        if bytes[at + 11] == ATTR_LONG_FILE_NAME {
            pending.push(at);
            proof {
                assert(fragments_at(bytes@, pending@) =~= fragments.push(record));
            }
            continue ;
        }
        let (name, ext) = read_name(bytes, at, &pending);
        let entry = DirEntry::from_bytes(bytes, at);
        pending.clear();
        out.push(ParsedDirEntry { name, ext, entry });
        proof {
            assert(fragments_at(bytes@, pending@) =~= Seq::empty());
            assert(entries_view(out@) =~= before + seq![parsed_entry(record, fragments)]);
            assert(before + (seq![parsed_entry(record, fragments)] + parse_records(
                bytes@,
                index as int,
                Seq::empty(),
            )) =~= entries_view(out@) + parse_records(bytes@, index as int, Seq::empty()));
        }
    }
    proof {
        if index >= count {
            assert(entries_view(out@) + Seq::<EntryView>::empty() =~= entries_view(out@));
        }
    }
    out
}

/// The entries of the first `count` sectors of `bytes`, each sector parsed
/// by itself: a name never runs from one sector into the next, and an end
/// marker ends only the sector that holds it.
pub open spec fn parse_sectors(bytes: Seq<u8>, count: int) -> Seq<EntryView>
    decreases count,
{
    if count <= 0 {
        Seq::empty()
    } else {
        parse_sectors(bytes, count - 1) + parse_directory(
            bytes.subrange(SECTOR_SIZE * (count - 1), SECTOR_SIZE * count),
        )
    }
}

/// Parses `bytes` sector by sector; bytes behind the last whole sector are
/// not looked at.
pub fn parse_all(bytes: &[u8]) -> (out: Vec<ParsedDirEntry>)
    ensures
        entries_view(out@) == parse_sectors(bytes@, bytes@.len() as int / SECTOR_SIZE as int),
{
    let count: usize = bytes.len() / SECTOR_SIZE;
    let mut out: Vec<ParsedDirEntry> = Vec::new();
    let mut index: usize = 0;
    proof {
        assert(entries_view(out@) =~= Seq::empty());
    }
    while index < count
        invariant
            count == bytes.len() / SECTOR_SIZE,
            index <= count,
            entries_view(out@) == parse_sectors(bytes@, index as int),
        decreases count - index,
    {
        let ghost before = out@;
        let mut entries = parse_bytes(
            slice_subrange(bytes, index * SECTOR_SIZE, (index + 1) * SECTOR_SIZE),
        );
        let ghost added = entries@;
        out.append(&mut entries);
        index += 1;
        proof {
            assert(entries_view(out@) =~= entries_view(before) + entries_view(added));
        }
    }
    out
}

/// A volume on one drive of a controller.
#[derive(Debug, Clone, Copy)]
pub struct FAT16 {
    pub ata: ATABus,
    pub drive: BusDrive,
    pub boot_sector: BootSector,
}

/// Where the sectors of a child of a directory are to be found.
#[derive(Debug, Clone, Copy, PartialEq, Eq, Structural)]
pub enum ChildSpan {
    /// The directory files nothing under the name.
    Missing,
    /// The entry begins at one of the two reserved clusters, or the volume
    /// records sectors of no bytes: it has no place on the device.
    Unmapped,
    /// The entry is a file: nothing has to be read to load it.
    File,
    /// The entry is a directory: its records are in this many sectors, from
    /// this one on.
    Directory(usize, usize),
}

impl FAT16 {
    /// The read of `count` sectors of the volume's drive, from `lba` on.
    pub fn read(&self, lba: usize, count: usize) -> (transfer: Transfer)
        requires
            SECTOR_SIZE * count <= usize::MAX,
        ensures
            transfer == (Transfer {
                bus: self.ata,
                kind: TransferKind::Read,
                which: self.drive,
                lba_start: lba,
                sector_count: count,
                phase: Phase::Start,
                sector: 0,
            }),
            transfer.wf(),
    {
        self.ata.read(self.drive, lba, count)
    }

    /// The entries of one sector of a directory.
    pub fn parse_buffer(&self, buffer: &[u8; SECTOR_SIZE]) -> (out: Vec<ParsedDirEntry>)
        ensures
            entries_view(out@) == parse_directory(buffer@),
    {
        parse_bytes(buffer.as_slice())
    }

    /// The entries of the root directory, whose sectors `sectors` holds.
    pub fn parse_root_dir(&self, sectors: &[u8]) -> (out: Vec<ParsedDirEntry>)
        requires
            self.boot_sector.bytes_per_sector > 0,
            sectors.len() == SECTOR_SIZE * self.boot_sector.root_dir_sectors(),
        ensures
            entries_view(out@) == parse_sectors(sectors@, self.boot_sector.root_dir_sectors()),
    {
        parse_all(sectors)
    }

    /// The entries of a sub-directory, whose cluster `sectors` holds.
    pub fn get_children(&self, sectors: &[u8]) -> (out: Vec<ParsedDirEntry>)
        requires
            sectors.len() == SECTOR_SIZE * self.boot_sector.sectors_per_cluster,
        ensures
            entries_view(out@) == parse_sectors(
                sectors@,
                self.boot_sector.sectors_per_cluster as int,
            ),
    {
        parse_all(sectors)
    }

}

impl FAT16 {
    /// The descriptor of the file that `entry` stands for: its bytes begin
    /// at the first sector of its first cluster.
    pub open spec fn spec_file(&self, entry: EntryView) -> FileView {
        FileView {
            name: entry.name,
            ext: match entry.ext {
                Some(ext) => ext,
                None => Seq::empty(),
            },
            start_sector: self.boot_sector.spec_cluster_to_sector(
                entry.entry.start_cluster as int,
            ) as usize,
            start_cluster: entry.entry.start_cluster,
            size: entry.entry.file_size,
            time_stamp: entry.entry.spec_timestamp(),
        }
    }

    /// What `child` is among `entries`, and where on the device.
    pub open spec fn spec_locate(
        &self,
        entries: Seq<ParsedDirEntry>,
        child: Seq<char>,
    ) -> ChildSpan {
        let at = first_match(entries, child);
        if at >= entries.len() {
            ChildSpan::Missing
        } else if self.boot_sector.bytes_per_sector == 0 || entries[at].entry.start_cluster < 2 {
            ChildSpan::Unmapped
        } else if entries[at].entry.spec_is_directory() {
            ChildSpan::Directory(
                self.boot_sector.spec_cluster_to_sector(
                    entries[at].entry.start_cluster as int,
                ) as usize,
                self.boot_sector.sectors_per_cluster as usize,
            )
        } else {
            ChildSpan::File
        }
    }

    /// Looks `child` up among the entries of `directory` that nobody has
    /// asked for yet, and leaves it there.
    pub fn locate_child(&self, child: &String, directory: &Directory<ParsedDirEntry>) -> (span:
        ChildSpan)
        requires
            directory.wf(),
        ensures
            span == self.spec_locate(directory.unresolved(), child@),
    {
        match directory.peek(child) {
            None => ChildSpan::Missing,
            Some(entry) => {
                if self.boot_sector.bytes_per_sector == 0 || entry.entry.start_cluster < 2 {
                    ChildSpan::Unmapped
                } else if Self::is_directory(entry) {
                    ChildSpan::Directory(
                        self.boot_sector.cluster_to_sector(entry.entry.start_cluster),
                        self.boot_sector.sectors_per_cluster as usize,
                    )
                } else {
                    ChildSpan::File
                }
            },
        }
    }

}

/// A name that a directory files once can be loaded once: with the entry
/// gone, the directory holds the name no more.
pub proof fn lemma_load_child_single_use(
    volume: FAT16,
    entries: Seq<ParsedDirEntry>,
    child: Seq<char>,
)
    requires
        forall|i: int, j: int|
            0 <= i < j < entries.len() ==> !(entries[i].spec_key() == child
                && entries[j].spec_key() == child),
        first_match(entries, child) < entries.len(),
    ensures
        volume.spec_locate(entries.remove(first_match(entries, child)), child)
            == ChildSpan::Missing,
{
    let at = first_match(entries, child);
    let rest = entries.remove(at);
    crate::utils::lemma_first_match_is_first(entries, child);
    assert forall|i: int| 0 <= i < rest.len() implies rest[i].spec_key() != child by {
        if i < at {
            assert(rest[i] == entries[i]);
        } else {
            assert(rest[i] == entries[i + 1]);
        }
    }
    crate::utils::lemma_first_match(rest, child, rest.len() as int);
}

/// Sectors that `size` bytes take, the last one counted whole.
pub open spec fn sectors_of(size: int) -> int {
    (size + SECTOR_SIZE - 1) / (SECTOR_SIZE as int)
}

/// Sector `sector` of a device that holds `image`.
pub open spec fn image_sector(image: Seq<u8>, sector: int) -> Seq<u8> {
    image.subrange(SECTOR_SIZE * sector, SECTOR_SIZE * sector + SECTOR_SIZE)
}

/// The bytes of `file` on a device that holds `image`: as many as its size
/// says, from its first sector on, one sector after the other. No
/// allocation table is asked, so this is the file only on a volume that
/// keeps each file in one piece.
pub open spec fn spec_content(image: Seq<u8>, file: FileView) -> Seq<u8> {
    image.subrange(SECTOR_SIZE * file.start_sector, SECTOR_SIZE * file.start_sector + file.size)
}

/// The place of a read of part of a file: what is left to copy, from which
/// sector and which byte of it, and where in the buffer it goes.
#[derive(Debug, Clone, Copy, PartialEq, Eq, Structural)]
pub struct ReadCursor {
    /// The sector to read next.
    pub sector: usize,
    /// The first byte of that sector to copy.
    pub sector_offset: usize,
    /// Bytes still to copy.
    pub remaining: usize,
    /// Bytes copied so far.
    pub dst_offset: usize,
}

impl ReadCursor {
    pub open spec fn wf(&self) -> bool {
        &&& self.sector_offset < SECTOR_SIZE
        &&& self.dst_offset + self.remaining <= usize::MAX
        &&& self.sector + sectors_of(self.sector_offset + self.remaining) <= usize::MAX
    }

    /// Bytes that the next sector gives: what it holds from the offset on,
    /// or what is left to copy if that is less.
    pub open spec fn copy_len(&self) -> int {
        if SECTOR_SIZE - self.sector_offset <= self.remaining {
            SECTOR_SIZE - self.sector_offset
        } else {
            self.remaining as int
        }
    }

    /// The cursor after the next sector: at the start of the sector behind
    /// it.
    pub open spec fn spec_advance(&self) -> ReadCursor {
        ReadCursor {
            sector: (self.sector + 1) as usize,
            sector_offset: 0,
            remaining: (self.remaining - self.copy_len()) as usize,
            dst_offset: (self.dst_offset + self.copy_len()) as usize,
        }
    }

    /// The buffer after the next sector, which holds `sector`.
    pub open spec fn spec_copy(&self, sector: Seq<u8>, buffer: Seq<u8>) -> Seq<u8> {
        buffer.subrange(0, self.dst_offset as int) + sector.subrange(
            self.sector_offset as int,
            self.sector_offset + self.copy_len(),
        ) + buffer.subrange(self.dst_offset + self.copy_len(), buffer.len() as int)
    }

    /// The sector to read next, if there is anything left to copy.
    pub fn pending(&self) -> (sector: Option<usize>)
        ensures
            sector == if self.remaining > 0 {
                Some(self.sector)
            } else {
                None
            },
    {
        if self.remaining > 0 {
            Some(self.sector)
        } else {
            None
        }
    }

    /// Copies what `sector`, the pending sector, gives into `buffer`, and
    /// moves on to the sector behind it.
    pub fn copy(&mut self, sector: &[u8; SECTOR_SIZE], buffer: &mut [u8])
        requires
            old(self).wf(),
            old(self).remaining > 0,
            old(buffer).len() >= old(self).dst_offset + old(self).remaining,
        ensures
            *final(self) == old(self).spec_advance(),
            final(self).wf(),
            final(buffer)@ == old(self).spec_copy(sector@, old(buffer)@),
    {
        let copy_start: usize = self.sector_offset;
        let copy_len: usize = if SECTOR_SIZE - copy_start <= self.remaining {
            SECTOR_SIZE - copy_start
        } else {
            self.remaining
        };
        let dst: usize = self.dst_offset;
        let mut done: usize = 0;
        while done < copy_len
            invariant
                done <= copy_len,
                copy_start + copy_len <= SECTOR_SIZE,
                dst + copy_len <= buffer.len(),
                buffer.len() == old(buffer).len(),
                forall|i: int| 0 <= i < dst ==> buffer@[i] == old(buffer)@[i],
                forall|i: int|
                    dst <= i < dst + done ==> buffer@[i] == sector@[copy_start + i - dst],
                forall|i: int| dst + done <= i < buffer.len() ==> buffer@[i] == old(buffer)@[i],
            decreases copy_len - done,
        {
            buffer[dst + done] = sector[copy_start + done];
            done += 1;
        }
        proof {
            assert(buffer@ =~= old(self).spec_copy(sector@, old(buffer)@));
            assert(sectors_of(self.sector_offset + self.remaining) >= 1 + sectors_of(
                self.remaining - copy_len,
            ));
        }
        self.remaining -= copy_len;
        self.dst_offset += copy_len;
        self.sector_offset = 0;
        self.sector += 1;
    }
}

/// What a buffer holds after a read is carried through from `cursor` on, on
/// a device that holds `image`.
pub open spec fn spec_read(cursor: ReadCursor, image: Seq<u8>, buffer: Seq<u8>) -> Seq<u8>
    decreases cursor.remaining,
{
    if cursor.remaining == 0 || cursor.sector_offset >= SECTOR_SIZE {
        buffer
    } else {
        spec_read(
            cursor.spec_advance(),
            image,
            cursor.spec_copy(image_sector(image, cursor.sector as int), buffer),
        )
    }
}

impl FAT16 {
    /// Where the bytes of `file` are: its first sector, and how many
    /// sectors hold them.
    pub fn content_span(&self, file: &File) -> (span: (usize, usize))
        ensures
            span.0 == file.start_sector,
            span.1 == sectors_of(file.size as int),
    {
        let count: u64 = (file.size as u64 + SECTOR_SIZE as u64 - 1) / SECTOR_SIZE as u64;
        (file.start_sector, count as usize)
    }
}

/// A read that is carried through fills the buffer with the bytes of the
/// device from `base` on, where `base` is the place of the buffer's first
/// byte on the device.
proof fn lemma_spec_read(cursor: ReadCursor, image: Seq<u8>, buffer: Seq<u8>, base: int)
    requires
        cursor.wf(),
        cursor.remaining > 0 ==> base == SECTOR_SIZE * cursor.sector + cursor.sector_offset
            - cursor.dst_offset,
        base >= 0,
        buffer.len() == cursor.dst_offset + cursor.remaining,
        cursor.remaining > 0 ==> image.len() >= SECTOR_SIZE * (cursor.sector + sectors_of(
            cursor.sector_offset + cursor.remaining,
        )),
        base + cursor.dst_offset <= image.len(),
        buffer.subrange(0, cursor.dst_offset as int) == image.subrange(
            base,
            base + cursor.dst_offset,
        ),
    ensures
        spec_read(cursor, image, buffer) == image.subrange(base, base + buffer.len()),
    decreases cursor.remaining,
{
    if cursor.remaining == 0 {
        assert(buffer =~= buffer.subrange(0, cursor.dst_offset as int));
    } else {
        let sector = image_sector(image, cursor.sector as int);
        let next = cursor.spec_advance();
        let copied = cursor.spec_copy(sector, buffer);
        let n = cursor.copy_len();
        assert(sectors_of(cursor.sector_offset + cursor.remaining) >= 1 + sectors_of(
            cursor.remaining - n,
        ));
        assert(copied.len() == buffer.len());
        assert(copied.subrange(0, next.dst_offset as int) =~= image.subrange(
            base,
            base + next.dst_offset,
        )) by {
            assert forall|i: int| 0 <= i < next.dst_offset implies copied[i] == image[base + i] by {
                if i < cursor.dst_offset {
                    assert(copied[i] == buffer.subrange(0, cursor.dst_offset as int)[i]);
                    assert(image.subrange(base, base + cursor.dst_offset)[i] == image[base + i]);
                } else {
                    assert(copied[i] == sector[cursor.sector_offset + i - cursor.dst_offset]);
                }
            }
        }
        lemma_spec_read(next, image, copied, base);
    }
}

/// The bytes that a read of part of a file puts into a buffer are the
/// bytes that stand at that place in the whole file, wherever the part
/// begins and ends and however many sectors it runs over.
pub proof fn lemma_read_bytes_is_slice_of_content(
    image: Seq<u8>,
    file: FileView,
    offset: usize,
    buffer: Seq<u8>,
)
    requires
        offset + buffer.len() <= file.size,
        file.start_sector + sectors_of(file.size as int) <= usize::MAX,
        SECTOR_SIZE * (file.start_sector + sectors_of(file.size as int)) <= image.len(),
    ensures
        spec_read(
            ReadCursor {
                sector: (file.start_sector + offset / SECTOR_SIZE) as usize,
                sector_offset: offset % SECTOR_SIZE,
                remaining: buffer.len() as usize,
                dst_offset: 0,
            },
            image,
            buffer,
        ) == spec_content(image, file).subrange(offset as int, offset + buffer.len()),
{
    let cursor = ReadCursor {
        sector: (file.start_sector + offset / SECTOR_SIZE) as usize,
        sector_offset: offset % SECTOR_SIZE,
        remaining: buffer.len() as usize,
        dst_offset: 0,
    };
    let base = SECTOR_SIZE * file.start_sector + offset;
    assert(offset / SECTOR_SIZE + sectors_of(offset % SECTOR_SIZE + buffer.len()) <= sectors_of(
        file.size as int,
    ));
    assert(buffer.subrange(0, 0) =~= image.subrange(base, base));
    lemma_spec_read(cursor, image, buffer, base);
    assert(image.subrange(base, base + buffer.len()) =~= spec_content(image, file).subrange(
        offset as int,
        offset + buffer.len(),
    ));
}

/// The bytes that `get_content` makes of the sectors of a file are the
/// bytes of the file.
pub proof fn lemma_get_content_is_content(image: Seq<u8>, file: FileView, sectors: Seq<u8>)
    requires
        SECTOR_SIZE * (file.start_sector + sectors_of(file.size as int)) <= image.len(),
        sectors == image.subrange(
            SECTOR_SIZE * file.start_sector,
            SECTOR_SIZE * (file.start_sector + sectors_of(file.size as int)),
        ),
    ensures
        sectors.len() >= file.size,
        sectors.take(file.size as int) == spec_content(image, file),
{
    assert(SECTOR_SIZE * sectors_of(file.size as int) >= file.size);
    assert(sectors.take(file.size as int) =~= spec_content(image, file));
}

impl FAT16 {
    /// What the directory `before` holds once `child` is loaded from it,
    /// `sectors` holding the sectors that `locate_child` named.
    pub open spec fn spec_loaded_child(
        &self,
        child: Seq<char>,
        before: Directory<ParsedDirEntry>,
        sectors: Seq<u8>,
        after: Directory<ParsedDirEntry>,
    ) -> bool {
        let at = first_match(before.unresolved(), child);
        &&& after.spec_name() == before.spec_name()
        &&& match self.spec_locate(before.unresolved(), child) {
            ChildSpan::Missing => {
                &&& after.unresolved() == before.unresolved()
                &&& after.spec_files() == before.spec_files()
                &&& after.spec_directories() == before.spec_directories()
            },
            ChildSpan::File => {
                &&& after.unresolved() == before.unresolved().remove(at)
                &&& after.spec_files().len() == before.spec_files().len() + 1
                &&& after.spec_files().drop_last() == before.spec_files()
                &&& after.spec_files().last()@ == self.spec_file(before.unresolved()[at]@)
                &&& after.spec_directories() == before.spec_directories()
            },
            ChildSpan::Directory(_, count) => {
                let loaded = after.spec_directories().last();
                &&& after.unresolved() == before.unresolved().remove(at)
                &&& after.spec_files() == before.spec_files()
                &&& after.spec_directories().len() == before.spec_directories().len() + 1
                &&& after.spec_directories().drop_last() == before.spec_directories()
                &&& loaded.wf()
                &&& loaded.spec_name() == before.unresolved()[at]@.full_name()
                &&& entries_view(loaded.unresolved()) == parse_sectors(sectors, count as int)
                &&& loaded.spec_files().len() == 0
                &&& loaded.spec_directories().len() == 0
            },
            ChildSpan::Unmapped => true,
        }
    }
}

impl StorageFormat for FAT16 {
    type Entry = ParsedDirEntry;

    /// The volume whose first sector is `boot`. Nothing of the sector is
    /// checked.
    open spec fn spec_new(ata_bus: ATABus, drive: BusDrive, boot: Seq<u8>) -> Self {
        FAT16 { ata: ata_bus, drive, boot_sector: BootSector::decode(boot) }
    }

    fn new(ata_bus: &ATABus, drive: BusDrive, boot: &[u8; SECTOR_SIZE]) -> (volume: Self) {
        FAT16 { ata: *ata_bus, drive, boot_sector: BootSector::from_bytes(boot.as_slice()) }
    }

    open spec fn spec_boot_sector(&self) -> BootSector {
        self.boot_sector
    }

    fn boot_sector(&self) -> (boot: BootSector) {
        self.boot_sector
    }

    open spec fn root_len(&self) -> Option<int> {
        if self.boot_sector.bytes_per_sector > 0 {
            Some(SECTOR_SIZE * self.boot_sector.root_dir_sectors())
        } else {
            None
        }
    }

    /// Every entry of the root directory is yet to be asked for.
    open spec fn spec_root(&self, sectors: Seq<u8>, root: Directory<ParsedDirEntry>) -> bool {
        &&& entries_view(root.unresolved()) == parse_sectors(
            sectors,
            self.boot_sector.root_dir_sectors(),
        )
        &&& root.spec_files().len() == 0
        &&& root.spec_directories().len() == 0
        &&& root.spec_name() == "ROOT"@
    }

    fn get_root(&self, sectors: &[u8]) -> (root: Directory<ParsedDirEntry>) {
        let entries = self.parse_root_dir(sectors);
        Directory::new(String::from_str("ROOT"), entries)
    }

    /// The entry that goes by `child` has a place on the device, and for a
    /// sub-directory `len` bytes are the sectors of its cluster.
    open spec fn child_ready(
        &self,
        child: Seq<char>,
        directory: Directory<ParsedDirEntry>,
        len: int,
    ) -> bool {
        match self.spec_locate(directory.unresolved(), child) {
            ChildSpan::Unmapped => false,
            ChildSpan::Directory(_, count) => len == SECTOR_SIZE * count,
            _ => true,
        }
    }

    /// The place, from 1, that the child takes in the list that it goes
    /// to.
    open spec fn spec_load_result(
        &self,
        child: Seq<char>,
        before: Directory<ParsedDirEntry>,
    ) -> LoadChildResult {
        match self.spec_locate(before.unresolved(), child) {
            ChildSpan::File => LoadChildResult::File((before.spec_files().len() + 1) as usize),
            ChildSpan::Directory(_, _) => LoadChildResult::Directory(
                (before.spec_directories().len() + 1) as usize,
            ),
            _ => LoadChildResult::NotFound,
        }
    }

    open spec fn spec_loaded(
        &self,
        child: Seq<char>,
        before: Directory<ParsedDirEntry>,
        sectors: Seq<u8>,
        after: Directory<ParsedDirEntry>,
    ) -> bool {
        self.spec_loaded_child(child, before, sectors, after)
    }

    /// Moves `child` out of the entries of `directory` that nobody has
    /// asked for yet and into its loaded files or its loaded
    /// sub-directories. For a sub-directory, `sectors` holds the sectors
    /// that `locate_child` named; for a file it is not looked at.
    fn load_child(
        &self,
        child: String,
        directory: &mut Directory<ParsedDirEntry>,
        sectors: &[u8],
    ) -> (result: LoadChildResult) {
        let entry = if let Some(entry) = directory.take(child) {
            entry
        } else {
            return LoadChildResult::NotFound;
        };
        if Self::is_directory(&entry) {
            let children = self.get_children(sectors);
            let dir = Directory::new(entry.name(), children);
            let count = directory.push_directory(dir);
            proof {
                let before = old(directory).spec_directories();
                let after = directory.spec_directories();
                assert(after.drop_last() =~= before);
            }
            LoadChildResult::Directory(count)
        } else {
            let ext = match entry.ext {
                Some(ext) => ext,
                None => String::from_str(""),
            };
            let file = File {
                start_sector: self.boot_sector.cluster_to_sector(entry.entry.start_cluster),
                start_cluster: entry.entry.start_cluster,
                size: entry.entry.file_size,
                time_stamp: entry.entry.timestamp(),
                name: entry.name,
                ext,
            };
            let count = directory.push_file(file);
            proof {
                reveal_strlit("");
                let before = old(directory).spec_files();
                let after = directory.spec_files();
                assert(after.drop_last() =~= before);
                assert(""@ =~= Seq::<char>::empty());
            }
            LoadChildResult::File(count)
        }
    }

    open spec fn spec_is_directory(entry: &ParsedDirEntry) -> bool {
        entry.entry.spec_is_directory()
    }

    fn is_directory(entry: &ParsedDirEntry) -> (directory: bool) {
        FatAttributes::from_bits_retain(entry.entry.attributes).intersects(ATTR_DIRECTORY)
    }

    fn get_content(&self, file: &File, sectors: Vec<u8>) -> (content: Vec<u8>) {
        let mut content = sectors;
        content.truncate(file.size as usize);
        content
    }

    fn read_bytes(&self, file: &File, len: usize, offset: usize) -> (cursor: ReadCursor) {
        ReadCursor {
            sector: file.start_sector + offset / SECTOR_SIZE,
            sector_offset: offset % SECTOR_SIZE,
            remaining: len,
            dst_offset: 0,
        }
    }
}

/// A byte of a short name that can be printed: a character from the space
/// to the tilde.
pub open spec fn printable(byte: u8) -> bool {
    0x20 <= byte <= 0x7E
}

/// The characters that bytes below 128 stand for, one for one.
pub open spec fn ascii_text(bytes: Seq<u8>) -> Seq<char> {
    Seq::new(bytes.len(), |i: int| bytes[i] as char)
}

/// Bytes below 128 are text as they stand: each byte is one character.
pub proof fn lemma_ascii_field_text(bytes: Seq<u8>)
    requires
        forall|i: int| 0 <= i < bytes.len() ==> bytes[i] < 0x80,
    ensures
        vstd::utf8::valid_utf8(bytes),
        vstd::utf8::decode_utf8(bytes) == ascii_text(bytes),
        encode_utf8(ascii_text(bytes)) == bytes,
{
    let chars = ascii_text(bytes);
    assert(is_ascii_chars(chars));
    vstd::utf8::is_ascii_chars_encode_utf8(chars);
    assert forall|i: int| 0 <= i < bytes.len() implies #[trigger] encode_utf8(chars)[i]
        == bytes[i] by {
        assert(chars[i] as u8 == encode_utf8(chars)[i]);
    }
    assert(encode_utf8(chars) =~= bytes);
    vstd::utf8::encode_utf8_valid_utf8(chars);
    vstd::utf8::encode_utf8_decode_utf8(chars);
}

/// What trimming leaves of a field is the field's beginning.
pub proof fn lemma_trim_is_prefix(field: Seq<u8>)
    ensures
        trim_spaces(field).len() <= field.len(),
        trim_spaces(field) == field.take(trim_spaces(field).len() as int),
        trim_spaces(field).len() > 0 ==> trim_spaces(field).last() != 0x20,
    decreases field.len(),
{
    if field.len() > 0 && field.last() == 0x20 {
        lemma_trim_is_prefix(field.drop_last());
        assert(field.drop_last().take(trim_spaces(field).len() as int) =~= field.take(
            trim_spaces(field).len() as int,
        ));
    } else {
        assert(field.take(field.len() as int) =~= field);
    }
}

/// The short name of a record whose name bytes can all be printed is what
/// those bytes spell: base and extension are the two fields without their
/// trailing spaces, character for byte, so that writing them down again
/// gives the bytes that were read, and the whole name is the base alone
/// where no extension is left, else base, dot and extension.
pub proof fn lemma_short_name_round_trip(record: Seq<u8>)
    requires
        record.len() >= 11,
        forall|i: int| 0 <= i < 11 ==> printable(#[trigger] record[i]),
    ensures
        ({
            let (name, ext) = short_name(record);
            let base = trim_spaces(record.subrange(0, 8));
            let tail = trim_spaces(record.subrange(8, 11));
            &&& name == ascii_text(base)
            &&& encode_utf8(name) == base
            &&& ext is None <==> tail.len() == 0
            &&& ext matches Some(text) ==> text == ascii_text(tail) && encode_utf8(text) == tail
            &&& full_name(name, ext) == if tail.len() == 0 {
                ascii_text(base)
            } else {
                ascii_text(base) + "."@ + ascii_text(tail)
            }
        }),
{
    let base = trim_spaces(record.subrange(0, 8));
    let tail = trim_spaces(record.subrange(8, 11));
    lemma_trim_is_prefix(record.subrange(0, 8));
    lemma_trim_is_prefix(record.subrange(8, 11));
    assert forall|i: int| 0 <= i < base.len() implies base[i] < 0x80 by {
        assert(base[i] == record[i]);
    }
    assert forall|i: int| 0 <= i < tail.len() implies tail[i] < 0x80 by {
        assert(tail[i] == record[8 + i]);
    }
    lemma_ascii_field_text(base);
    lemma_ascii_field_text(tail);
}

/// A record that carries a part of a long name.
pub open spec fn is_continuation(record: Seq<u8>) -> bool {
    record[0] != RECORD_END && record[0] != RECORD_DELETED && record[11] == ATTR_LONG_FILE_NAME
}

/// A record that stands for an entry.
pub open spec fn is_entry(record: Seq<u8>) -> bool {
    record[0] != RECORD_END && record[0] != RECORD_DELETED && record[11] != ATTR_LONG_FILE_NAME
}

/// The `count` records of a directory buffer from record `first` on.
pub open spec fn records_from(bytes: Seq<u8>, first: int, count: int) -> Seq<Seq<u8>> {
    Seq::new(count as nat, |i: int| record_at(bytes, first + i))
}

/// Continuation records and the record behind them make one entry: it
/// has the fields of that record, and its name is spelled by the
/// continuation records, taken from the last one back to the first and cut
/// off at the first terminator, unless the record is one of the two that
/// begin with a dot.
pub proof fn lemma_long_name_entry(bytes: Seq<u8>, first: int, count: int, pending: Seq<Seq<u8>>)
    requires
        0 <= first,
        0 <= count,
        first + count < bytes.len() / 32,
        forall|i: int| first <= i < first + count ==> is_continuation(record_at(bytes, i)),
        is_entry(record_at(bytes, first + count)),
    ensures
        parse_records(bytes, first, pending) == seq![
            parsed_entry(
                record_at(bytes, first + count),
                pending + records_from(bytes, first, count),
            ),
        ] + parse_records(bytes, first + count + 1, Seq::empty()),
        count > 0 && pending.len() == 0 && record_at(bytes, first + count)[0] != 0x2E
            ==> record_name(record_at(bytes, first + count), records_from(bytes, first, count))
            == split_at_dot(
            text_or_invalid(utf16_text(long_name_units(records_from(bytes, first, count)))),
        ),
    decreases count,
{
    if count == 0 {
        assert(pending + records_from(bytes, first, 0) =~= pending);
    } else {
        let record = record_at(bytes, first);
        assert(is_continuation(record));
        lemma_long_name_entry(bytes, first + 1, count - 1, pending.push(record));
        assert(pending.push(record) + records_from(bytes, first + 1, count - 1) =~= pending
            + records_from(bytes, first, count));
    }
}

/// Loading a name a second time finds nothing: where a directory files a
/// name once and the name is loaded from it, whether as a file or as a
/// directory, loading the same name from what is left reports that it is
/// not there.
pub proof fn lemma_load_child_twice(
    volume: FAT16,
    child: Seq<char>,
    before: Directory<ParsedDirEntry>,
    sectors: Seq<u8>,
    after: Directory<ParsedDirEntry>,
)
    requires
        forall|i: int, j: int|
            0 <= i < j < before.unresolved().len() ==> !(before.unresolved()[i].spec_key() == child
                && before.unresolved()[j].spec_key() == child),
        volume.spec_locate(before.unresolved(), child) is File || volume.spec_locate(
            before.unresolved(),
            child,
        ) is Directory,
        volume.spec_loaded(child, before, sectors, after),
    ensures
        !(volume.spec_load_result(child, before) is NotFound),
        volume.spec_load_result(child, after) is NotFound,
        volume.child_ready(child, after, 0),
{
    lemma_load_child_single_use(volume, before.unresolved(), child);
}

/// Loading moves one entry and makes none: a name that is found leaves
/// the entries that nobody has asked for yet and comes to exactly one of
/// the two lists, at its end, while the other list and all that the lists
/// held stay as they were; a name that is not found changes nothing. So a
/// directory never holds more than its volume gave it, and nothing that
/// was loaded goes back.
pub proof fn lemma_load_child_moves_one(
    volume: FAT16,
    child: Seq<char>,
    before: Directory<ParsedDirEntry>,
    sectors: Seq<u8>,
    after: Directory<ParsedDirEntry>,
)
    requires
        !(volume.spec_locate(before.unresolved(), child) is Unmapped),
        volume.spec_loaded(child, before, sectors, after),
    ensures
        after.unresolved().len() + after.spec_files().len() + after.spec_directories().len()
            == before.unresolved().len() + before.spec_files().len()
            + before.spec_directories().len(),
        after.spec_files().len() >= before.spec_files().len(),
        after.spec_directories().len() >= before.spec_directories().len(),
        after.spec_files().take(before.spec_files().len() as int) == before.spec_files(),
        after.spec_directories().take(before.spec_directories().len() as int)
            == before.spec_directories(),
        volume.spec_load_result(child, before) is NotFound <==> after.unresolved()
            == before.unresolved(),
        volume.spec_load_result(child, before) is File <==> after.spec_files().len()
            == before.spec_files().len() + 1,
        volume.spec_load_result(child, before) is Directory <==> after.spec_directories().len()
            == before.spec_directories().len() + 1,
{
    crate::utils::lemma_first_match_is_first(before.unresolved(), child);
    assert(after.spec_files().take(before.spec_files().len() as int) =~= before.spec_files());
    assert(after.spec_directories().take(before.spec_directories().len() as int)
        =~= before.spec_directories());
}

} // verus!
