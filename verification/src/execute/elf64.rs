use vstd::prelude::*;
use vstd::slice::slice_subrange;
use x86_64::structures::paging::{Page, PageTableFlags, Size4KiB};
use x86_64::VirtAddr;
use crate::utils::{le_u16, le_u32, le_u64, read_le_u16, read_le_u32, read_le_u64};
use super::{
    Executor, LoadAction, LoadError, LoadEvent, LoadState, Loader, LoaderView, UserContext,
};

verus! {

/// Bytes of the file header.
pub const HEADER_SIZE: usize = 0x40;

/// Bytes of one record of the segment table.
pub const PROGRAM_HEADER_SIZE: usize = 56;

/// Flags of a segment.
pub const SEGMENT_EXECUTABLE: u32 = 0x1;
pub const SEGMENT_WRITABLE: u32 = 0x2;
pub const SEGMENT_READABLE: u32 = 0x4;

/// The first bytes of the file header, which say what kind of file it is.
#[derive(Debug, Clone, Copy)]
pub struct ELF64Identity {
    pub _magic_number: u32,
    pub format: u8,
    pub endianess: u8,
    pub version1: u8,
    pub _os: u8,
    pub _padding: [u8; 7],
}

/// The file header. Numbers are read low byte first, the order of the
/// machine that the programs are made for; a file in the other order is
/// not told apart.
#[derive(Debug, Clone, Copy)]
pub struct ELF64Header {
    pub identity: [u8; 16],
    pub object_type: u16,
    pub arch: u16,
    pub version2: u32,
    pub instruction_pointer_entry: u64,
    pub program_header_entry: u64,
    pub section_header_entry: u64,
    pub flags: u32,
    pub header_size: u16,
    pub program_header_size: u16,
    pub program_header_entries: u16,
    pub section_header_entry_size: u16,
    pub section_header_entries: u16,
    pub section_name_index: u16,
}

impl ELF64Header {
    /// The header that the 64 bytes of `bytes` encode.
    pub open spec fn decode(bytes: Seq<u8>) -> ELF64Header {
        ELF64Header {
            identity: [
                bytes[0],
                bytes[1],
                bytes[2],
                bytes[3],
                bytes[4],
                bytes[5],
                bytes[6],
                bytes[7],
                bytes[8],
                bytes[9],
                bytes[10],
                bytes[11],
                bytes[12],
                bytes[13],
                bytes[14],
                bytes[15],
            ],
            object_type: le_u16(bytes, 0x10) as u16,
            arch: le_u16(bytes, 0x12) as u16,
            version2: le_u32(bytes, 0x14) as u32,
            instruction_pointer_entry: le_u64(bytes, 0x18) as u64,
            program_header_entry: le_u64(bytes, 0x20) as u64,
            section_header_entry: le_u64(bytes, 0x28) as u64,
            flags: le_u32(bytes, 0x30) as u32,
            header_size: le_u16(bytes, 0x34) as u16,
            program_header_size: le_u16(bytes, 0x36) as u16,
            program_header_entries: le_u16(bytes, 0x38) as u16,
            section_header_entry_size: le_u16(bytes, 0x3A) as u16,
            section_header_entries: le_u16(bytes, 0x3C) as u16,
            section_name_index: le_u16(bytes, 0x3E) as u16,
        }
    }

    /// Reads the header from the first 64 bytes of a file.
    pub fn from_bytes(value: &[u8]) -> (header: Self)
        requires
            value.len() == HEADER_SIZE,
        ensures
            header == Self::decode(value@),
    {
        ELF64Header {
            identity: [
                value[0],
                value[1],
                value[2],
                value[3],
                value[4],
                value[5],
                value[6],
                value[7],
                value[8],
                value[9],
                value[10],
                value[11],
                value[12],
                value[13],
                value[14],
                value[15],
            ],
            object_type: read_le_u16(value, 0x10),
            arch: read_le_u16(value, 0x12),
            version2: read_le_u32(value, 0x14),
            instruction_pointer_entry: read_le_u64(value, 0x18),
            program_header_entry: read_le_u64(value, 0x20),
            section_header_entry: read_le_u64(value, 0x28),
            flags: read_le_u32(value, 0x30),
            header_size: read_le_u16(value, 0x34),
            program_header_size: read_le_u16(value, 0x36),
            program_header_entries: read_le_u16(value, 0x38),
            section_header_entry_size: read_le_u16(value, 0x3A),
            section_header_entries: read_le_u16(value, 0x3C),
            section_name_index: read_le_u16(value, 0x3E),
        }
    }
}

/// One record of the segment table: a part of the file that is to stand at
/// an address of the program's memory.
#[derive(Debug, Clone, Copy)]
pub struct ELF64ProgramHeader {
    pub segment_type: u32,
    pub segment_flags: u32,
    pub offset: u64,
    pub virt_addr: u64,
    pub phys_addr: u64,
    pub file_image_size: u64,
    pub memory_size: u64,
    pub alignment: u64,
}

impl ELF64ProgramHeader {
    /// The record that the 56 bytes of `bytes` encode.
    pub open spec fn decode(bytes: Seq<u8>) -> ELF64ProgramHeader {
        ELF64ProgramHeader {
            segment_type: le_u32(bytes, 0) as u32,
            segment_flags: le_u32(bytes, 4) as u32,
            offset: le_u64(bytes, 8) as u64,
            virt_addr: le_u64(bytes, 16) as u64,
            phys_addr: le_u64(bytes, 24) as u64,
            file_image_size: le_u64(bytes, 32) as u64,
            memory_size: le_u64(bytes, 40) as u64,
            alignment: le_u64(bytes, 48) as u64,
        }
    }

    /// Reads the record that the first 56 bytes of `section` encode.
    pub fn from_bytes(section: &[u8]) -> (header: Self)
        requires
            section.len() >= PROGRAM_HEADER_SIZE,
        ensures
            header == Self::decode(section@.subrange(0, PROGRAM_HEADER_SIZE as int)),
    {
        let section = slice_subrange(section, 0, PROGRAM_HEADER_SIZE);
        ELF64ProgramHeader {
            segment_type: read_le_u32(section, 0),
            segment_flags: read_le_u32(section, 4),
            offset: read_le_u64(section, 8),
            virt_addr: read_le_u64(section, 16),
            phys_addr: read_le_u64(section, 24),
            file_image_size: read_le_u64(section, 32),
            memory_size: read_le_u64(section, 40),
            alignment: read_le_u64(section, 48),
        }
    }
}

/// `value` with its two bytes in the other order.
pub open spec fn swap_u16(value: u16) -> u16 {
    (value % 0x100 * 0x100 + value / 0x100) as u16
}

/// `value` with its four bytes in the other order.
pub open spec fn swap_u32(value: u32) -> u32 {
    (swap_u16((value % 0x1_0000) as u16) * 0x1_0000 + swap_u16((value / 0x1_0000) as u16)) as u32
}

/// `value` with its eight bytes in the other order.
pub open spec fn swap_u64(value: u64) -> u64 {
    (swap_u32((value % 0x1_0000_0000) as u32) * 0x1_0000_0000 + swap_u32(
        (value / 0x1_0000_0000) as u32,
    )) as u64
}

/// Turns the two bytes of `value` round.
fn flip_u16(value: u16) -> (flipped: u16)
    ensures
        flipped == swap_u16(value),
{
    value % 0x100 * 0x100 + value / 0x100
}

/// Turns the four bytes of `value` round.
fn flip_u32(value: u32) -> (flipped: u32)
    ensures
        flipped == swap_u32(value),
{
    let low: u32 = flip_u16((value % 0x1_0000) as u16) as u32;
    let high: u32 = flip_u16((value / 0x1_0000) as u16) as u32;
    low * 0x1_0000 + high
}

/// Turns the eight bytes of `value` round.
fn flip_u64(value: u64) -> (flipped: u64)
    ensures
        flipped == swap_u64(value),
{
    let low: u64 = flip_u32((value % 0x1_0000_0000) as u32) as u64;
    let high: u64 = flip_u32((value / 0x1_0000_0000) as u32) as u64;
    low * 0x1_0000_0000 + high
}

proof fn lemma_swap_u16_twice(value: u16)
    ensures
        swap_u16(swap_u16(value)) == value,
{
    let low = value % 0x100;
    let high = value / 0x100;
    assert(swap_u16(value) == low * 0x100 + high);
    assert(swap_u16(value) % 0x100 == high);
    assert(swap_u16(value) / 0x100 == low);
}

proof fn lemma_swap_u32_twice(value: u32)
    ensures
        swap_u32(swap_u32(value)) == value,
{
    let low = (value % 0x1_0000) as u16;
    let high = (value / 0x1_0000) as u16;
    let swapped = swap_u32(value);
    assert(swapped == swap_u16(low) * 0x1_0000 + swap_u16(high));
    assert(swapped % 0x1_0000 == swap_u16(high));
    assert(swapped / 0x1_0000 == swap_u16(low));
    lemma_swap_u16_twice(low);
    lemma_swap_u16_twice(high);
}

proof fn lemma_swap_u64_twice(value: u64)
    ensures
        swap_u64(swap_u64(value)) == value,
{
    let low = (value % 0x1_0000_0000) as u32;
    let high = (value / 0x1_0000_0000) as u32;
    let swapped = swap_u64(value);
    assert(swapped == swap_u32(low) * 0x1_0000_0000 + swap_u32(high));
    assert(swapped % 0x1_0000_0000 == swap_u32(high));
    assert(swapped / 0x1_0000_0000 == swap_u32(low));
    lemma_swap_u32_twice(low);
    lemma_swap_u32_twice(high);
}

/// Turning the bytes of a number round twice gives the number back.
pub proof fn lemma_swap_twice(short: u16, word: u32, long: u64)
    ensures
        swap_u16(swap_u16(short)) == short,
        swap_u32(swap_u32(word)) == word,
        swap_u64(swap_u64(long)) == long,
{
    lemma_swap_u16_twice(short);
    lemma_swap_u32_twice(word);
    lemma_swap_u64_twice(long);
}

impl ELF64Header {
    /// The header of a file whose numbers are written high byte first:
    /// every number has its bytes in the other order; the first 16 bytes
    /// are no number and stay.
    pub open spec fn spec_flip_endianess(&self) -> ELF64Header {
        ELF64Header {
            identity: self.identity,
            object_type: swap_u16(self.object_type),
            arch: swap_u16(self.arch),
            version2: swap_u32(self.version2),
            instruction_pointer_entry: swap_u64(self.instruction_pointer_entry),
            program_header_entry: swap_u64(self.program_header_entry),
            section_header_entry: swap_u64(self.section_header_entry),
            flags: swap_u32(self.flags),
            header_size: swap_u16(self.header_size),
            program_header_size: swap_u16(self.program_header_size),
            program_header_entries: swap_u16(self.program_header_entries),
            section_header_entry_size: swap_u16(self.section_header_entry_size),
            section_header_entries: swap_u16(self.section_header_entries),
            section_name_index: swap_u16(self.section_name_index),
        }
    }

    /// Turns the bytes of every number of the header round.
    pub fn flip_endianess(&mut self)
        ensures
            *final(self) == old(self).spec_flip_endianess(),
    {
        self.object_type = flip_u16(self.object_type);
        self.arch = flip_u16(self.arch);
        self.version2 = flip_u32(self.version2);
        self.instruction_pointer_entry = flip_u64(self.instruction_pointer_entry);
        self.program_header_entry = flip_u64(self.program_header_entry);
        self.section_header_entry = flip_u64(self.section_header_entry);
        self.flags = flip_u32(self.flags);
        self.header_size = flip_u16(self.header_size);
        self.program_header_size = flip_u16(self.program_header_size);
        self.program_header_entries = flip_u16(self.program_header_entries);
        self.section_header_entry_size = flip_u16(self.section_header_entry_size);
        self.section_header_entries = flip_u16(self.section_header_entries);
        self.section_name_index = flip_u16(self.section_name_index);
    }
}

impl ELF64ProgramHeader {
    /// The record of a file whose numbers are written high byte first.
    pub open spec fn spec_flip_endianess(&self) -> ELF64ProgramHeader {
        ELF64ProgramHeader {
            segment_type: swap_u32(self.segment_type),
            segment_flags: swap_u32(self.segment_flags),
            offset: swap_u64(self.offset),
            virt_addr: swap_u64(self.virt_addr),
            phys_addr: swap_u64(self.phys_addr),
            file_image_size: swap_u64(self.file_image_size),
            memory_size: swap_u64(self.memory_size),
            alignment: swap_u64(self.alignment),
        }
    }

    /// Turns the bytes of every number of the record round.
    pub fn flip_endianess(&mut self)
        ensures
            *final(self) == old(self).spec_flip_endianess(),
    {
        self.segment_type = flip_u32(self.segment_type);
        self.segment_flags = flip_u32(self.segment_flags);
        self.offset = flip_u64(self.offset);
        self.virt_addr = flip_u64(self.virt_addr);
        self.phys_addr = flip_u64(self.phys_addr);
        self.file_image_size = flip_u64(self.file_image_size);
        self.memory_size = flip_u64(self.memory_size);
        self.alignment = flip_u64(self.alignment);
    }
}

/// A header or a record that is flipped twice is as it was.
pub proof fn lemma_flip_twice(header: ELF64Header, record: ELF64ProgramHeader)
    ensures
        header.spec_flip_endianess().spec_flip_endianess() == header,
        record.spec_flip_endianess().spec_flip_endianess() == record,
{
    assert forall|v: u16| swap_u16(swap_u16(v)) == v by {
        lemma_swap_twice(v, 0, 0);
    }
    assert forall|v: u32| swap_u32(swap_u32(v)) == v by {
        lemma_swap_twice(0, v, 0);
    }
    assert forall|v: u64| swap_u64(swap_u64(v)) == v by {
        lemma_swap_twice(0, 0, v);
    }
}

/// Why a file is no program that can be loaded.
#[derive(Debug, Clone, Copy, PartialEq, Eq, Structural)]
pub enum ElfError {
    /// The file is shorter than a file header.
    TruncatedHeader,
    /// The header gives the records of the segment table fewer bytes than a
    /// record has.
    BadSegmentSize,
    /// The segment table runs over the end of the file.
    SegmentTableOutOfBounds,
}

/// The records of the segment table of `content`: `count` of them, `size`
/// bytes apart, the first at `entry`.
pub open spec fn segment_table(content: Seq<u8>, entry: int, size: int, count: int) -> Seq<
    ELF64ProgramHeader,
> {
    Seq::new(
        count as nat,
        |i: int|
            ELF64ProgramHeader::decode(
                content.subrange(entry + i * size, entry + i * size + PROGRAM_HEADER_SIZE),
            ),
    )
}

/// The header and the segment table of the program that `content` holds,
/// or why it holds none. A table of no records is not looked at.
pub open spec fn spec_get_elf64(content: Seq<u8>) -> Result<
    (ELF64Header, Seq<ELF64ProgramHeader>),
    ElfError,
> {
    if content.len() < HEADER_SIZE {
        Err(ElfError::TruncatedHeader)
    } else {
        let header = ELF64Header::decode(content.subrange(0, HEADER_SIZE as int));
        let size = header.program_header_size as int;
        let entry = header.program_header_entry as int;
        let count = header.program_header_entries as int;
        if count == 0 {
            Ok((header, Seq::empty()))
        } else if size < PROGRAM_HEADER_SIZE {
            Err(ElfError::BadSegmentSize)
        } else if entry + count * size > content.len() {
            Err(ElfError::SegmentTableOutOfBounds)
        } else {
            Ok((header, segment_table(content, entry, size, count)))
        }
    }
}

/// The result with its list as a sequence.
pub open spec fn elf64_view(parsed: Result<(ELF64Header, Vec<ELF64ProgramHeader>), ElfError>)
    -> Result<(ELF64Header, Seq<ELF64ProgramHeader>), ElfError> {
    match parsed {
        Ok((header, segments)) => Ok((header, segments@)),
        Err(error) => Err(error),
    }
}

/// Reads the header and the segment table of the program that `content`
/// holds.
pub fn get_elf64(content: &[u8]) -> (parsed: Result<
    (ELF64Header, Vec<ELF64ProgramHeader>),
    ElfError,
>)
    ensures
        elf64_view(parsed) == spec_get_elf64(content@),
{
    if content.len() < HEADER_SIZE {
        return Err(ElfError::TruncatedHeader);
    }
    let header = ELF64Header::from_bytes(slice_subrange(content, 0, HEADER_SIZE));
    let size: usize = header.program_header_size as usize;
    let count: usize = header.program_header_entries as usize;
    let mut program_headers: Vec<ELF64ProgramHeader> = Vec::new();
    if count == 0 {
        return Ok((header, program_headers));
    }
    if size < PROGRAM_HEADER_SIZE {
        return Err(ElfError::BadSegmentSize);
    }
    assert(count * size <= 0xFFFF * 0xFFFF) by (nonlinear_arith)
        requires
            count <= 0xFFFF,
            size <= 0xFFFF,
    ;
    let table: u64 = (count * size) as u64;
    if header.program_header_entry > content.len() as u64 || table > content.len() as u64
        - header.program_header_entry {
        return Err(ElfError::SegmentTableOutOfBounds);
    }
    let first: usize = header.program_header_entry as usize;
    let mut entry: usize = first;
    let mut index: usize = 0;
    while index < count
        invariant
            index <= count,
            size >= PROGRAM_HEADER_SIZE,
            first + count * size <= content.len(),
            entry == first + index * size,
            program_headers@ == segment_table(content@, first as int, size as int, index as int),
        decreases count - index,
    {
        assert(first + index * size + size <= first + count * size) by (nonlinear_arith)
            requires
                index < count,
        ;
        let program_header = ELF64ProgramHeader::from_bytes(
            slice_subrange(content, entry, entry + size),
        );
        proof {
            assert(content@.subrange(entry as int, entry + size).subrange(
                0,
                PROGRAM_HEADER_SIZE as int,
            ) =~= content@.subrange(entry as int, entry + PROGRAM_HEADER_SIZE));
        }
        program_headers.push(program_header);
        entry += size;
        index += 1;
        proof {
            assert(entry == first + index * size) by (nonlinear_arith)
                requires
                    entry == first + (index - 1) * size + size,
            ;
            assert(program_headers@ =~= segment_table(
                content@,
                first as int,
                size as int,
                index as int,
            ));
        }
    }
    Ok((header, program_headers))
}

/// Bytes of a page.
pub const PAGE_SIZE: u64 = 4096;

/// The first address of the upper half of the address space.
pub const UPPER_HALF: u64 = 0xFFFF_8000_0000_0000;

/// The first address behind the lower half of the address space.
pub const LOWER_HALF_END: u64 = 0x0000_8000_0000_0000;

/// Where a program's stack ends: the first address above it.
pub const STACK_TOP: u64 = 0x0000_8000_0000;

/// Bytes of a program's stack.
pub const STACK_SIZE: u64 = 16 * 1024;

/// Bits of a page table entry.
pub const ENTRY_PRESENT: u64 = 1;
pub const ENTRY_WRITABLE: u64 = 2;
pub const ENTRY_USER_ACCESSIBLE: u64 = 4;

/// An address that the processor accepts: its bits from 47 up are all
/// equal, so it lies in the lower or in the upper half.
pub open spec fn is_canonical(addr: u64) -> bool {
    addr < LOWER_HALF_END || addr >= UPPER_HALF
}

/// The first address of the page that holds `addr`.
pub open spec fn page_of(addr: u64) -> u64 {
    (addr - addr % PAGE_SIZE) as u64
}

/// `Add<u64>` of `x86_64::VirtAddr`, from number to number: the sum, for
/// an address and an offset that make one without overflow and without
/// leaving the two halves of the address space.
#[verifier::external_body]
fn virt_addr_add(addr: u64, offset: u64) -> (sum: u64)
    requires
        is_canonical(addr),
        addr + offset <= u64::MAX,
        is_canonical((addr + offset) as u64),
    ensures
        sum == addr + offset,
{
    (VirtAddr::new(addr) + offset).as_u64()
}

/// `Sub<u64>` of `x86_64::VirtAddr`, from number to number: the
/// difference, for an address and an offset that make one without
/// underflow and without leaving the two halves of the address space.
#[verifier::external_body]
fn virt_addr_sub(addr: u64, offset: u64) -> (difference: u64)
    requires
        is_canonical(addr),
        addr >= offset,
        is_canonical((addr - offset) as u64),
    ensures
        difference == addr - offset,
{
    (VirtAddr::new(addr) - offset).as_u64()
}

/// `Page::<Size4KiB>::containing_address` of `x86_64`, from number to
/// number: the first address of the 4 KiB page that holds the address.
#[verifier::external_body]
fn page_containing(addr: u64) -> (start: u64)
    requires
        is_canonical(addr),
    ensures
        start == page_of(addr),
{
    Page::<Size4KiB>::containing_address(VirtAddr::new(addr)).start_address().as_u64()
}

/// `PageTableFlags::bits` of `x86_64`, of the set that holds the present
/// flag, the writable flag and the user-accessible flag as the three
/// arguments say.
#[verifier::external_body]
fn table_flag_bits(present: bool, writable: bool, user_accessible: bool) -> (bits: u64)
    ensures
        bits == (if present {
            ENTRY_PRESENT
        } else {
            0
        }) + (if writable {
            ENTRY_WRITABLE
        } else {
            0
        }) + (if user_accessible {
            ENTRY_USER_ACCESSIBLE
        } else {
            0
        }),
{
    let mut flags = PageTableFlags::empty();
    flags.set(PageTableFlags::PRESENT, present);
    flags.set(PageTableFlags::WRITABLE, writable);
    flags.set(PageTableFlags::USER_ACCESSIBLE, user_accessible);
    flags.bits()
}

/// Pages to map, each to a frame of its own: those from the page at
/// `first` to the page at `last`, both counted, with `flags` in their table
/// entries. No page where `first` lies above `last`.
#[derive(Debug, Clone, Copy, PartialEq, Eq, Structural)]
pub struct PageSpan {
    pub first: u64,
    pub last: u64,
    pub flags: u64,
}

impl PageSpan {
    /// How many pages the span holds.
    pub open spec fn spec_len(&self) -> int {
        if self.first <= self.last {
            (self.last - self.first) / (PAGE_SIZE as int) + 1
        } else {
            0
        }
    }

    /// Whether the span holds the page that starts at `page`.
    pub open spec fn holds(&self, page: u64) -> bool {
        self.first <= page <= self.last && page % PAGE_SIZE == 0
    }

    /// How many pages the span holds.
    pub fn len(&self) -> (count: u64)
        ensures
            count == self.spec_len(),
    {
        if self.first <= self.last {
            (self.last - self.first) / PAGE_SIZE + 1
        } else {
            0
        }
    }
}

/// Why a segment cannot be given pages.
#[derive(Debug, Clone, Copy, PartialEq, Eq, Structural)]
pub enum MapError {
    /// The segment's first address, the address behind its last byte or
    /// the address of its last byte is none that the processor accepts, or
    /// the segment runs over the end of the address space or from its
    /// lower half into its upper half.
    BadRange,
}

/// Whether the bytes of a segment from `virt_addr` on, `memory_size` of
/// them, have addresses that pages can be found for.
pub open spec fn mappable(virt_addr: u64, memory_size: u64) -> bool {
    &&& is_canonical(virt_addr)
    &&& virt_addr + memory_size <= u64::MAX
    &&& is_canonical((virt_addr + memory_size) as u64)
    &&& virt_addr + memory_size >= 1
    &&& is_canonical((virt_addr + memory_size - 1) as u64)
    &&& (virt_addr < LOWER_HALF_END) == (virt_addr + memory_size - 1 < LOWER_HALF_END)
}

/// The pages of a segment: from the page of its first byte to the page of
/// its last, present and writable.
pub open spec fn spec_map_program_header(program_header: ELF64ProgramHeader) -> Result<
    PageSpan,
    MapError,
> {
    if mappable(program_header.virt_addr, program_header.memory_size) {
        Ok(
            PageSpan {
                first: page_of(program_header.virt_addr),
                last: page_of(
                    (program_header.virt_addr + program_header.memory_size - 1) as u64,
                ),
                flags: (ENTRY_PRESENT + ENTRY_WRITABLE) as u64,
            },
        )
    } else {
        Err(MapError::BadRange)
    }
}

/// Finds the pages that a segment needs.
pub fn map_program_header(program_header: &ELF64ProgramHeader) -> (plan: Result<
    PageSpan,
    MapError,
>)
    ensures
        plan == spec_map_program_header(*program_header),
{
    let start: u64 = program_header.virt_addr;
    let size: u64 = program_header.memory_size;
    if !(start < LOWER_HALF_END || start >= UPPER_HALF) {
        return Err(MapError::BadRange);
    }
    if size > u64::MAX - start {
        return Err(MapError::BadRange);
    }
    let end: u64 = start + size;
    if !(end < LOWER_HALF_END || end >= UPPER_HALF) || end == 0 {
        return Err(MapError::BadRange);
    }
    let last: u64 = end - 1;
    if !(last < LOWER_HALF_END || last >= UPPER_HALF) || (start < LOWER_HALF_END) != (last
        < LOWER_HALF_END) {
        return Err(MapError::BadRange);
    }
    let end_addr = virt_addr_add(start, size);
    let start_page = page_containing(start);
    let end_page = page_containing(virt_addr_sub(end_addr, 1));
    let flags = table_flag_bits(true, true, false);
    Ok(PageSpan { first: start_page, last: end_page, flags })
}

/// The pages of a segment hold every byte of it, and no page of them lies
/// wholly outside it; a segment of no bytes that begins at a page's start
/// gets no page.
pub proof fn lemma_segment_pages_cover(program_header: ELF64ProgramHeader, addr: u64)
    requires
        spec_map_program_header(program_header) is Ok,
        program_header.virt_addr <= addr < program_header.virt_addr + program_header.memory_size,
    ensures
        spec_map_program_header(program_header)->Ok_0.holds(page_of(addr)),
        spec_map_program_header(program_header)->Ok_0.first + PAGE_SIZE
            > program_header.virt_addr,
        spec_map_program_header(program_header)->Ok_0.last < program_header.virt_addr
            + program_header.memory_size,
{
}

/// A program's stack: its bytes from `bottom` up to `top`, and the pages
/// that hold them.
#[derive(Debug, Clone, Copy, PartialEq, Eq, Structural)]
pub struct StackPlan {
    pub top: u64,
    pub size: u64,
    pub bottom: u64,
    pub pages: PageSpan,
}

/// The stack that every program gets: 16 KiB that end at a fixed address,
/// on pages that are present, writable and open to user mode.
pub open spec fn spec_map_stack() -> StackPlan {
    StackPlan {
        top: STACK_TOP,
        size: STACK_SIZE,
        bottom: (STACK_TOP - STACK_SIZE) as u64,
        pages: PageSpan {
            first: page_of((STACK_TOP - STACK_SIZE) as u64),
            last: page_of((STACK_TOP - 1) as u64),
            flags: (ENTRY_PRESENT + ENTRY_WRITABLE + ENTRY_USER_ACCESSIBLE) as u64,
        },
    }
}

/// Finds the pages of a program's stack.
pub fn map_stack() -> (plan: StackPlan)
    ensures
        plan == spec_map_stack(),
        plan.pages.spec_len() == 4,
{
    let stack_size: u64 = STACK_SIZE;
    let stack_top: u64 = STACK_TOP;
    let stack_bottom = virt_addr_sub(stack_top, stack_size);
    let start_page = page_containing(stack_bottom);
    let end_page = page_containing(virt_addr_sub(stack_top, 1));
    let flags = table_flag_bits(true, true, true);
    StackPlan {
        top: stack_top,
        size: stack_size,
        bottom: stack_bottom,
        pages: PageSpan { first: start_page, last: end_page, flags },
    }
}

/// Memory from a segment's first address on, after the segment is loaded
/// from the file `content` into `memory`: the segment's bytes of the file,
/// then zeros up to its size in memory, then what was there.
pub open spec fn spec_load_program_header(
    program_header: ELF64ProgramHeader,
    content: Seq<u8>,
    memory: Seq<u8>,
) -> Seq<u8> {
    Seq::new(
        memory.len(),
        |i: int|
            if i < program_header.file_image_size {
                content[program_header.offset + i]
            } else if i < program_header.memory_size {
                0u8
            } else {
                memory[i]
            },
    )
}

/// Whether the file bytes of a segment lie within a file of `len` bytes.
pub open spec fn segment_in_file(program_header: ELF64ProgramHeader, len: int) -> bool {
    program_header.offset + program_header.file_image_size <= len
}

/// Bytes of memory that loading a segment writes.
pub open spec fn segment_extent(program_header: ELF64ProgramHeader) -> int {
    if program_header.file_image_size >= program_header.memory_size {
        program_header.file_image_size as int
    } else {
        program_header.memory_size as int
    }
}

/// Loads a segment: copies its bytes of the file `content` to `memory`,
/// which begins at the segment's first address, and fills what the segment
/// has more in memory than in the file with zeros.
pub fn load_program_header(
    program_header: &ELF64ProgramHeader,
    content: &[u8],
    memory: &mut [u8],
)
    requires
        segment_in_file(*program_header, content.len() as int),
        old(memory).len() >= segment_extent(*program_header),
    ensures
        final(memory)@ == spec_load_program_header(*program_header, content@, old(memory)@),
        forall|i: int|
            program_header.file_image_size <= i < program_header.memory_size
                ==> #[trigger] final(memory)@[i] == 0,
{
    let file_offset: usize = program_header.offset as usize;
    let file_size: usize = program_header.file_image_size as usize;
    let mut at: usize = 0;
    while at < file_size
        invariant
            at <= file_size,
            file_offset + file_size <= content.len(),
            file_size <= memory.len(),
            memory.len() == old(memory).len(),
            forall|i: int| 0 <= i < at ==> memory@[i] == content@[file_offset + i],
            forall|i: int| at <= i < memory.len() ==> memory@[i] == old(memory)@[i],
        decreases file_size - at,
    {
        memory[at] = content[file_offset + at];
        at += 1;
    }
    if program_header.memory_size > program_header.file_image_size {
        let mem_size: usize = program_header.memory_size as usize;
        while at < mem_size
            invariant
                file_size <= at <= mem_size,
                mem_size <= memory.len(),
                memory.len() == old(memory).len(),
                forall|i: int| 0 <= i < file_size ==> memory@[i] == content@[file_offset + i],
                forall|i: int| file_size <= i < at ==> memory@[i] == 0,
                forall|i: int| at <= i < memory.len() ==> memory@[i] == old(memory)@[i],
            decreases mem_size - at,
        {
            memory[at] = 0;
            at += 1;
        }
    }
    proof {
        assert(memory@ =~= spec_load_program_header(*program_header, content@, old(memory)@));
    }
}

/// The loader of programs in the 64-bit executable format.
#[derive(Debug, Clone, Copy)]
pub struct ELF64;

impl ELF64 {
    /// What the loader does about the segment that is next in turn, or
    /// about the stack when no segment is left.
    pub open spec fn spec_begin(loader: LoaderView) -> (LoaderView, LoadAction) {
        if loader.segment < loader.segments.len() {
            let program_header = loader.segments[loader.segment as int];
            if !segment_in_file(program_header, loader.content_len as int) {
                (
                    LoaderView { state: LoadState::Aborted, ..loader },
                    LoadAction::Abort(LoadError::SegmentOutsideFile),
                )
            } else {
                match spec_map_program_header(program_header) {
                    Ok(pages) => (
                        LoaderView { mapped: false, ..loader },
                        LoadAction::MapPages(pages),
                    ),
                    Err(_) => (
                        LoaderView { state: LoadState::Aborted, ..loader },
                        LoadAction::Abort(LoadError::BadSegmentRange),
                    ),
                }
            }
        } else {
            (
                LoaderView { state: LoadState::SegmentsMapped, mapped: false, ..loader },
                LoadAction::MapPages(spec_map_stack().pages),
            )
        }
    }

    /// Turns to the segment that is next in turn, or to the stack.
    fn begin(loader: &mut Loader) -> (action: LoadAction)
        ensures
            (final(loader)@, action) == Self::spec_begin(old(loader)@),
    {
        if loader.segment < loader.segments.len() {
            let program_header = loader.segments[loader.segment];
            if program_header.offset > loader.content_len as u64 || program_header.file_image_size
                > loader.content_len as u64 - program_header.offset {
                loader.state = LoadState::Aborted;
                return LoadAction::Abort(LoadError::SegmentOutsideFile);
            }
            match map_program_header(&program_header) {
                Ok(pages) => {
                    loader.mapped = false;
                    LoadAction::MapPages(pages)
                },
                Err(_) => {
                    loader.state = LoadState::Aborted;
                    LoadAction::Abort(LoadError::BadSegmentRange)
                },
            }
        } else {
            loader.state = LoadState::SegmentsMapped;
            loader.mapped = false;
            LoadAction::MapPages(map_stack().pages)
        }
    }
}

impl Executor for ELF64 {
    open spec fn spec_load_executable(loader: LoaderView, event: LoadEvent, content: Seq<u8>) -> (
        LoaderView,
        LoadAction,
    ) {
        match (loader.state, event) {
            (LoadState::Unloaded, LoadEvent::Content) => match spec_get_elf64(content) {
                Ok((header, segments)) => Self::spec_begin(
                    LoaderView {
                        state: LoadState::HeaderParsed,
                        entry: header.instruction_pointer_entry,
                        segments,
                        content_len: content.len() as usize,
                        segment: 0,
                        mapped: false,
                    },
                ),
                Err(error) => (
                    LoaderView { state: LoadState::Aborted, ..loader },
                    LoadAction::Abort(LoadError::Malformed(error)),
                ),
            },
            (LoadState::HeaderParsed, LoadEvent::Mapped) => if loader.mapped {
                Self::spec_refuse(loader)
            } else {
                (LoaderView { mapped: true, ..loader }, LoadAction::LoadSegment(loader.segment))
            },
            (LoadState::HeaderParsed, LoadEvent::Loaded) => if loader.mapped
                && loader.segment < loader.segments.len() {
                Self::spec_begin(
                    LoaderView { segment: (loader.segment + 1) as usize, mapped: false, ..loader },
                )
            } else {
                Self::spec_refuse(loader)
            },
            (LoadState::HeaderParsed, LoadEvent::OutOfFrames) => if loader.mapped {
                Self::spec_refuse(loader)
            } else {
                (
                    LoaderView { state: LoadState::Aborted, ..loader },
                    LoadAction::Abort(LoadError::OutOfFrames),
                )
            },
            (LoadState::SegmentsMapped, LoadEvent::Mapped) => (
                LoaderView { state: LoadState::StackMapped, ..loader },
                LoadAction::Transfer,
            ),
            (LoadState::SegmentsMapped, LoadEvent::OutOfFrames) => (
                LoaderView { state: LoadState::Aborted, ..loader },
                LoadAction::Abort(LoadError::OutOfFrames),
            ),
            _ => Self::spec_refuse(loader),
        }
    }

    fn load_executable(loader: &mut Loader, event: LoadEvent, content: &[u8]) -> (action:
        LoadAction) {
        match (loader.state, event) {
            (LoadState::Unloaded, LoadEvent::Content) => match get_elf64(content) {
                Ok((header, segments)) => {
                    loader.state = LoadState::HeaderParsed;
                    loader.entry = header.instruction_pointer_entry;
                    loader.segments = segments;
                    loader.content_len = content.len();
                    loader.segment = 0;
                    loader.mapped = false;
                    Self::begin(loader)
                },
                Err(error) => {
                    loader.state = LoadState::Aborted;
                    LoadAction::Abort(LoadError::Malformed(error))
                },
            },
            (LoadState::HeaderParsed, LoadEvent::Mapped) => {
                if loader.mapped {
                    Self::refuse(loader)
                } else {
                    loader.mapped = true;
                    LoadAction::LoadSegment(loader.segment)
                }
            },
            (LoadState::HeaderParsed, LoadEvent::Loaded) => {
                if loader.mapped && loader.segment < loader.segments.len() {
                    loader.segment = loader.segment + 1;
                    loader.mapped = false;
                    Self::begin(loader)
                } else {
                    Self::refuse(loader)
                }
            },
            (LoadState::HeaderParsed, LoadEvent::OutOfFrames) => {
                if loader.mapped {
                    Self::refuse(loader)
                } else {
                    loader.state = LoadState::Aborted;
                    LoadAction::Abort(LoadError::OutOfFrames)
                }
            },
            (LoadState::SegmentsMapped, LoadEvent::Mapped) => {
                loader.state = LoadState::StackMapped;
                LoadAction::Transfer
            },
            (LoadState::SegmentsMapped, LoadEvent::OutOfFrames) => {
                loader.state = LoadState::Aborted;
                LoadAction::Abort(LoadError::OutOfFrames)
            },
            _ => Self::refuse(loader),
        }
    }
}

impl ELF64 {
    /// What the loader does about an event that its state does not allow:
    /// a load that is under way is given up, and one that is over stays as
    /// it is.
    pub open spec fn spec_refuse(loader: LoaderView) -> (LoaderView, LoadAction) {
        (
            LoaderView {
                state: match loader.state {
                    LoadState::Transferred => LoadState::Transferred,
                    _ => LoadState::Aborted,
                },
                ..loader
            },
            LoadAction::Abort(LoadError::Unexpected),
        )
    }

    /// Refuses an event that the state does not allow.
    fn refuse(loader: &mut Loader) -> (action: LoadAction)
        ensures
            (final(loader)@, action) == Self::spec_refuse(old(loader)@),
    {
        match loader.state {
            LoadState::Transferred => {},
            _ => {
                loader.state = LoadState::Aborted;
            },
        }
        LoadAction::Abort(LoadError::Unexpected)
    }
}

/// The loader after `events`, told of one after the other, and what it
/// asked for after each.
pub open spec fn spec_drive(loader: LoaderView, events: Seq<LoadEvent>, content: Seq<u8>) -> (
    LoaderView,
    Seq<LoadAction>,
)
    decreases events.len(),
{
    if events.len() == 0 {
        (loader, Seq::empty())
    } else {
        let (next, action) = ELF64::spec_load_executable(loader, events[0], content);
        let (last, actions) = spec_drive(next, events.drop_first(), content);
        (last, seq![action] + actions)
    }
}

/// What a loader is told when all that it asks for is done: for each of
/// `segments` segments that its pages are mapped and that it is loaded,
/// and then that the pages of the stack are mapped.
pub open spec fn granted(segments: nat) -> Seq<LoadEvent>
    decreases segments,
{
    if segments == 0 {
        seq![LoadEvent::Mapped]
    } else {
        seq![LoadEvent::Mapped, LoadEvent::Loaded] + granted((segments - 1) as nat)
    }
}

/// The pages that a loader asks for when segment `index` is in turn: the
/// segment's, or the stack's when no segment is left.
pub open spec fn pages_in_turn(segments: Seq<ELF64ProgramHeader>, index: int) -> LoadAction {
    if index < segments.len() {
        LoadAction::MapPages(spec_map_program_header(segments[index])->Ok_0)
    } else {
        LoadAction::MapPages(spec_map_stack().pages)
    }
}

/// What a loader asks for from the moment at which the pages of segment
/// `index` are mapped: that the segment be loaded, then the pages that are
/// next in turn, and so on; behind the stack's pages, the transfer.
pub open spec fn requests_from(segments: Seq<ELF64ProgramHeader>, index: int) -> Seq<LoadAction>
    decreases segments.len() - index,
{
    if index >= segments.len() {
        seq![LoadAction::Transfer]
    } else {
        seq![LoadAction::LoadSegment(index as usize), pages_in_turn(segments, index + 1)]
            + requests_from(segments, index + 1)
    }
}

/// Every segment lies within a file of `len` bytes and has addresses that
/// pages can be found for.
pub open spec fn loadable(segments: Seq<ELF64ProgramHeader>, len: int) -> bool {
    forall|i: int|
        0 <= i < segments.len() ==> segment_in_file(#[trigger] segments[i], len)
            && spec_map_program_header(segments[i]) is Ok
}

/// The loader when segment `index` is in turn and nothing has been done
/// about it but to ask for its pages; behind the last segment, when the
/// pages of the stack are asked for.
pub open spec fn in_turn(loader: LoaderView, index: int) -> LoaderView {
    LoaderView {
        state: if index < loader.segments.len() {
            LoadState::HeaderParsed
        } else {
            LoadState::SegmentsMapped
        },
        segment: index as usize,
        mapped: false,
        ..loader
    }
}

/// With the pages of the segment in turn mapped and the segment loaded,
/// the segment behind it is in turn.
proof fn lemma_segment_done(loader: LoaderView, index: int, content: Seq<u8>)
    requires
        0 <= index < loader.segments.len() <= u16::MAX,
        loadable(loader.segments, loader.content_len as int),
        loader == in_turn(loader, index),
    ensures
        ({
            let (mapped, load) = ELF64::spec_load_executable(loader, LoadEvent::Mapped, content);
            let (next, pages) = ELF64::spec_load_executable(mapped, LoadEvent::Loaded, content);
            &&& load == LoadAction::LoadSegment(index as usize)
            &&& pages == pages_in_turn(loader.segments, index + 1)
            &&& next == in_turn(loader, index + 1)
        }),
{
    let (mapped, load) = ELF64::spec_load_executable(loader, LoadEvent::Mapped, content);
    assert(mapped == LoaderView { mapped: true, ..loader });
    if index + 1 < loader.segments.len() {
        assert(segment_in_file(loader.segments[index + 1], loader.content_len as int));
    }
}

/// With the pages of the stack mapped, the program can be entered.
proof fn lemma_stack_done(loader: LoaderView, content: Seq<u8>)
    requires
        loader == in_turn(loader, loader.segments.len() as int),
        loader.segments.len() <= u16::MAX,
    ensures
        ELF64::spec_load_executable(loader, LoadEvent::Mapped, content) == (
            LoaderView { state: LoadState::StackMapped, ..loader },
            LoadAction::Transfer,
        ),
{
}

proof fn lemma_load_goes_on(loader: LoaderView, index: int, content: Seq<u8>)
    requires
        0 <= index <= loader.segments.len() <= u16::MAX,
        loadable(loader.segments, loader.content_len as int),
        loader == in_turn(loader, index),
    ensures
        spec_drive(loader, granted((loader.segments.len() - index) as nat), content) == (
            LoaderView {
                state: LoadState::StackMapped,
                ..in_turn(loader, loader.segments.len() as int)
            },
            requests_from(loader.segments, index),
        ),
    decreases loader.segments.len() - index,
{
    let left = (loader.segments.len() - index) as nat;
    let events = granted(left);
    if left == 0 {
        lemma_stack_done(loader, content);
        let (next, action) = ELF64::spec_load_executable(loader, events[0], content);
        assert(events.drop_first() =~= Seq::empty());
        assert(spec_drive(next, events.drop_first(), content).1 =~= Seq::empty());
        assert(seq![action] + Seq::<LoadAction>::empty() =~= requests_from(
            loader.segments,
            index,
        ));
    } else {
        lemma_segment_done(loader, index, content);
        let (mapped, load) = ELF64::spec_load_executable(loader, LoadEvent::Mapped, content);
        let (next, pages) = ELF64::spec_load_executable(mapped, LoadEvent::Loaded, content);
        let rest = granted((left - 1) as nat);
        assert(events[0] == LoadEvent::Mapped && events[1] == LoadEvent::Loaded);
        assert(events.drop_first()[0] == LoadEvent::Loaded);
        assert(events.drop_first().drop_first() =~= rest);
        assert(next.segments == loader.segments);
        assert(next == in_turn(next, index + 1));
        lemma_load_goes_on(next, index + 1, content);
        let (last, actions) = spec_drive(next, rest, content);
        assert(spec_drive(mapped, events.drop_first(), content) == (last, seq![pages] + actions));
        assert(spec_drive(loader, events, content) == (
            last,
            seq![load] + (seq![pages] + actions),
        ));
        assert(seq![load] + (seq![pages] + actions) =~= requests_from(loader.segments, index));
    }
}

/// The load of a program whose segments can all be loaded, when all that
/// the loader asks for is done: it asks for the pages of the first
/// segment, then for each segment in the order of the segment table that
/// it be loaded and that the next one's pages be mapped, for the pages of
/// the stack behind the last segment, and for the transfer at the end; and
/// it is then ready to enter the program at the entry point that the
/// header names.
pub proof fn lemma_load_runs_its_course(loader: LoaderView, content: Seq<u8>)
    requires
        loader.state == LoadState::Unloaded,
        content.len() <= usize::MAX,
        spec_get_elf64(content) is Ok,
        loadable(spec_get_elf64(content)->Ok_0.1, content.len() as int),
    ensures
        ({
            let (header, segments) = spec_get_elf64(content)->Ok_0;
            let (last, actions) = spec_drive(
                loader,
                seq![LoadEvent::Content] + granted(segments.len()),
                content,
            );
            &&& last.state == LoadState::StackMapped
            &&& last.entry == header.instruction_pointer_entry
            &&& last.segments == segments
            &&& actions == seq![pages_in_turn(segments, 0)] + requests_from(segments, 0)
        }),
{
    let (header, segments) = spec_get_elf64(content)->Ok_0;
    let events = seq![LoadEvent::Content] + granted(segments.len());
    assert(events.drop_first() =~= granted(segments.len()));
    assert(segments.len() <= u16::MAX);
    let parsed = LoaderView {
        state: LoadState::HeaderParsed,
        entry: header.instruction_pointer_entry,
        segments,
        content_len: content.len() as usize,
        segment: 0,
        mapped: false,
    };
    let (next, action) = ELF64::spec_load_executable(loader, LoadEvent::Content, content);
    assert((next, action) == ELF64::spec_begin(parsed));
    if segments.len() > 0 {
        assert(segment_in_file(segments[0], content.len() as int));
    }
    assert(next == in_turn(next, 0));
    assert(action == pages_in_turn(segments, 0));
    lemma_load_goes_on(next, 0, content);
}

} // verus!
