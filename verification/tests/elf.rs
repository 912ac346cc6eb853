use pollos::execute::elf64::{
    get_elf64, load_program_header, map_program_header, map_stack, ELF64Header,
    ELF64ProgramHeader, ElfError, MapError, PageSpan, StackPlan, ELF64,
};
use pollos::execute::{
    Executor, LoadAction, LoadError, LoadEvent, LoadState, Loader, UserContext,
};

fn header(entry: u64, table: u64, size: u16, count: u16) -> Vec<u8> {
    let mut bytes = vec![0u8; 64];
    bytes[0..4].copy_from_slice(b"\x7FELF");
    bytes[4] = 2;
    bytes[5] = 1;
    bytes[6] = 1;
    bytes[0x10..0x12].copy_from_slice(&2u16.to_le_bytes());
    bytes[0x12..0x14].copy_from_slice(&0x3Eu16.to_le_bytes());
    bytes[0x14..0x18].copy_from_slice(&1u32.to_le_bytes());
    bytes[0x18..0x20].copy_from_slice(&entry.to_le_bytes());
    bytes[0x20..0x28].copy_from_slice(&table.to_le_bytes());
    bytes[0x28..0x30].copy_from_slice(&0x1122_3344_5566_7788u64.to_le_bytes());
    bytes[0x30..0x34].copy_from_slice(&0xA1B2_C3D4u32.to_le_bytes());
    bytes[0x34..0x36].copy_from_slice(&64u16.to_le_bytes());
    bytes[0x36..0x38].copy_from_slice(&size.to_le_bytes());
    bytes[0x38..0x3A].copy_from_slice(&count.to_le_bytes());
    bytes[0x3A..0x3C].copy_from_slice(&0x40u16.to_le_bytes());
    bytes[0x3C..0x3E].copy_from_slice(&7u16.to_le_bytes());
    bytes[0x3E..0x40].copy_from_slice(&6u16.to_le_bytes());
    bytes
}

fn segment(offset: u64, virt_addr: u64, file_size: u64, memory_size: u64) -> ELF64ProgramHeader {
    ELF64ProgramHeader {
        segment_type: 1,
        segment_flags: 5,
        offset,
        virt_addr,
        phys_addr: virt_addr,
        file_image_size: file_size,
        memory_size,
        alignment: 0x1000,
    }
}

fn segment_bytes(segment: &ELF64ProgramHeader) -> Vec<u8> {
    let mut bytes = Vec::new();
    bytes.extend_from_slice(&segment.segment_type.to_le_bytes());
    bytes.extend_from_slice(&segment.segment_flags.to_le_bytes());
    bytes.extend_from_slice(&segment.offset.to_le_bytes());
    bytes.extend_from_slice(&segment.virt_addr.to_le_bytes());
    bytes.extend_from_slice(&segment.phys_addr.to_le_bytes());
    bytes.extend_from_slice(&segment.file_image_size.to_le_bytes());
    bytes.extend_from_slice(&segment.memory_size.to_le_bytes());
    bytes.extend_from_slice(&segment.alignment.to_le_bytes());
    bytes
}

fn same(a: &ELF64ProgramHeader, b: &ELF64ProgramHeader) -> bool {
    segment_bytes(a) == segment_bytes(b)
}

/// A program of two segments: 0x30 bytes of code at 0x400000, and 0x10
/// bytes of data at 0x601ff8 that take 0x2010 bytes in memory.
fn program() -> (Vec<u8>, [ELF64ProgramHeader; 2]) {
    let segments = [segment(0x100, 0x40_0000, 0x30, 0x30), segment(0x130, 0x60_1FF8, 0x10, 0x2010)];
    let mut content = header(0x40_0010, 0x40, 56, 2);
    content.extend(segment_bytes(&segments[0]));
    content.extend(segment_bytes(&segments[1]));
    content.resize(0x100, 0xCC);
    content.extend((0..0x40u8).map(|i| 0x80 + i));
    (content, segments)
}

#[test]
fn header_fields_are_read_from_their_offsets() {
    let header = ELF64Header::from_bytes(&header(0x40_1000, 0x40, 56, 3));
    assert_eq!(&header.identity[..7], b"\x7FELF\x02\x01\x01");
    assert_eq!(header.object_type, 2);
    assert_eq!(header.arch, 0x3E);
    assert_eq!(header.version2, 1);
    assert_eq!(header.instruction_pointer_entry, 0x40_1000);
    assert_eq!(header.program_header_entry, 0x40);
    assert_eq!(header.section_header_entry, 0x1122_3344_5566_7788);
    assert_eq!(header.flags, 0xA1B2_C3D4);
    assert_eq!(header.header_size, 64);
    assert_eq!(header.program_header_size, 56);
    assert_eq!(header.program_header_entries, 3);
    assert_eq!(header.section_header_entry_size, 0x40);
    assert_eq!(header.section_header_entries, 7);
    assert_eq!(header.section_name_index, 6);
}

#[test]
fn segment_record_fields_are_read_from_their_offsets() {
    let mut bytes = Vec::new();
    for (i, width) in [4usize, 4, 8, 8, 8, 8, 8, 8].iter().enumerate() {
        for j in 0..*width {
            bytes.push((0x10 * (i + 1) + j) as u8);
        }
    }
    bytes.push(0xFF);
    let record = ELF64ProgramHeader::from_bytes(&bytes);
    assert_eq!(record.segment_type, 0x1312_1110);
    assert_eq!(record.segment_flags, 0x2322_2120);
    assert_eq!(record.offset, 0x3736_3534_3332_3130);
    assert_eq!(record.virt_addr, 0x4746_4544_4342_4140);
    assert_eq!(record.phys_addr, 0x5756_5554_5352_5150);
    assert_eq!(record.file_image_size, 0x6766_6564_6362_6160);
    assert_eq!(record.memory_size, 0x7776_7574_7372_7170);
    assert_eq!(record.alignment, 0x8786_8584_8382_8180);
}

#[test]
fn program_is_parsed_into_header_and_segments() {
    let (content, segments) = program();
    let (header, table) = get_elf64(&content).unwrap();
    assert_eq!(header.instruction_pointer_entry, 0x40_0010);
    assert_eq!(table.len(), 2);
    assert!(same(&table[0], &segments[0]));
    assert!(same(&table[1], &segments[1]));
}

#[test]
fn segment_records_may_lie_further_apart_than_they_are_long() {
    let segments = [segment(0, 0x1000, 1, 1), segment(1, 0x2000, 2, 2)];
    let mut content = header(0, 0x48, 60, 2);
    content.extend_from_slice(&[0xEE; 8]);
    content.extend(segment_bytes(&segments[0]));
    content.extend_from_slice(&[0xEE; 4]);
    content.extend(segment_bytes(&segments[1]));
    content.extend_from_slice(&[0xEE; 4]);
    let (_, table) = get_elf64(&content).unwrap();
    assert!(same(&table[0], &segments[0]));
    assert!(same(&table[1], &segments[1]));
    content.pop();
    assert_eq!(get_elf64(&content).err(), Some(ElfError::SegmentTableOutOfBounds));
}

#[test]
fn a_file_shorter_than_a_header_is_no_program() {
    assert_eq!(get_elf64(&[]).err(), Some(ElfError::TruncatedHeader));
    assert_eq!(get_elf64(&header(0, 0x40, 56, 0)[..63]).err(), Some(ElfError::TruncatedHeader));
    let (_, table) = get_elf64(&header(0, 0x40, 56, 0)).unwrap();
    assert_eq!(table.len(), 0);
}

#[test]
fn a_table_of_no_records_is_not_looked_at() {
    let (header, table) = get_elf64(&header(5, u64::MAX, 3, 0)).unwrap();
    assert_eq!(header.instruction_pointer_entry, 5);
    assert_eq!(table.len(), 0);
}

#[test]
fn records_shorter_than_a_record_are_refused() {
    let mut content = header(0, 0x40, 55, 1);
    content.resize(0x40 + 56, 0);
    assert_eq!(get_elf64(&content).err(), Some(ElfError::BadSegmentSize));
    assert_eq!(get_elf64(&header(0, u64::MAX, 0, 1)).err(), Some(ElfError::BadSegmentSize));
}

#[test]
fn a_table_that_runs_over_the_end_is_refused() {
    let (content, _) = program();
    assert_eq!(get_elf64(&content[..0x40 + 111]).err(), Some(ElfError::SegmentTableOutOfBounds));
    assert!(get_elf64(&content[..0x40 + 112]).is_ok());
    assert_eq!(
        get_elf64(&header(0, u64::MAX, 56, 1)).err(),
        Some(ElfError::SegmentTableOutOfBounds)
    );
    assert_eq!(
        get_elf64(&header(0, 0x41, 0xFFFF, 0xFFFF)).err(),
        Some(ElfError::SegmentTableOutOfBounds)
    );
}

#[test]
fn a_segment_gets_the_pages_from_its_first_byte_to_its_last() {
    let span = map_program_header(&segment(0, 0x40_1234, 0x10, 0x3000)).unwrap();
    assert_eq!(span, PageSpan { first: 0x40_1000, last: 0x40_4000, flags: 3 });
    assert_eq!(span.len(), 4);
    let span = map_program_header(&segment(0, 0x40_0000, 0, 0x1000)).unwrap();
    assert_eq!(span, PageSpan { first: 0x40_0000, last: 0x40_0000, flags: 3 });
    assert_eq!(span.len(), 1);
    let span = map_program_header(&segment(0, 0x40_0000, 0, 0x1001)).unwrap();
    assert_eq!(span, PageSpan { first: 0x40_0000, last: 0x40_1000, flags: 3 });
    let span = map_program_header(&segment(0, 0x40_0FFF, 1, 1)).unwrap();
    assert_eq!(span, PageSpan { first: 0x40_0000, last: 0x40_0000, flags: 3 });
    let span = map_program_header(&segment(0, 0x40_0FFF, 2, 2)).unwrap();
    assert_eq!(span, PageSpan { first: 0x40_0000, last: 0x40_1000, flags: 3 });
}

#[test]
fn a_segment_of_no_bytes_gets_the_page_before_it_or_none() {
    let span = map_program_header(&segment(0, 0x40_0000, 0, 0)).unwrap();
    assert_eq!(span, PageSpan { first: 0x40_0000, last: 0x3F_F000, flags: 3 });
    assert_eq!(span.len(), 0);
    let span = map_program_header(&segment(0, 0x40_0001, 0, 0)).unwrap();
    assert_eq!(span, PageSpan { first: 0x40_0000, last: 0x40_0000, flags: 3 });
    assert_eq!(span.len(), 1);
}

#[test]
fn segments_in_the_upper_half_are_mapped() {
    let span = map_program_header(&segment(0, 0xFFFF_8000_0000_0000, 0, 0x2000)).unwrap();
    assert_eq!(
        span,
        PageSpan { first: 0xFFFF_8000_0000_0000, last: 0xFFFF_8000_0000_1000, flags: 3 }
    );
    let span = map_program_header(&segment(0, 0xFFFF_FFFF_FFFF_E000, 0, 0x1FFF)).unwrap();
    assert_eq!(
        span,
        PageSpan { first: 0xFFFF_FFFF_FFFF_E000, last: 0xFFFF_FFFF_FFFF_F000, flags: 3 }
    );
    let span = map_program_header(&segment(0, 0x7FFF_FFFF_F000, 0, 0xFFF)).unwrap();
    assert_eq!(span, PageSpan { first: 0x7FFF_FFFF_F000, last: 0x7FFF_FFFF_F000, flags: 3 });
}

#[test]
fn segments_outside_the_address_space_are_refused() {
    let refused = |virt_addr: u64, memory_size: u64| {
        assert_eq!(
            map_program_header(&segment(0, virt_addr, 0, memory_size)),
            Err(MapError::BadRange)
        );
    };
    refused(0x0000_8000_0000_0000, 0x1000);
    refused(0xFFFF_7FFF_FFFF_FFFF, 1);
    refused(0x7FFF_FFFF_F000, 0x1000);
    refused(0x7FFF_FFFF_F000, 0x1001);
    refused(0xFFFF_FFFF_FFFF_F000, 0x1000);
    refused(0xFFFF_FFFF_FFFF_F000, u64::MAX);
    refused(0, 0);
    refused(0xFFFF_8000_0000_0000, 0);
    refused(0x1000, 0xFFFF_8000_0000_0000);
}

#[test]
fn the_stack_is_four_pages_below_its_top() {
    let plan = map_stack();
    assert_eq!(
        plan,
        StackPlan {
            top: 0x8000_0000,
            size: 0x4000,
            bottom: 0x7FFF_C000,
            pages: PageSpan { first: 0x7FFF_C000, last: 0x7FFF_F000, flags: 7 },
        }
    );
    assert_eq!(plan.pages.len(), 4);
}

#[test]
fn a_segment_is_copied_and_its_tail_is_zeroed() {
    let (content, segments) = program();
    let mut memory = vec![0xAAu8; 0x40];
    load_program_header(&segments[0], &content, &mut memory);
    assert_eq!(memory[..0x30], content[0x100..0x130]);
    assert!(memory[0x30..].iter().all(|b| *b == 0xAA));

    let mut memory = vec![0xAAu8; 0x2020];
    load_program_header(&segments[1], &content, &mut memory);
    assert_eq!(memory[..0x10], content[0x130..0x140]);
    assert!(memory[0x10..0x2010].iter().all(|b| *b == 0));
    assert!(memory[0x2010..].iter().all(|b| *b == 0xAA));
}

#[test]
fn a_segment_that_is_longer_in_the_file_than_in_memory_is_copied_whole() {
    let content: Vec<u8> = (0..64u8).collect();
    let mut memory = vec![0xAAu8; 20];
    load_program_header(&segment(8, 0x1000, 16, 4), &content, &mut memory);
    assert_eq!(memory[..16], content[8..24]);
    assert_eq!(memory[16..], [0xAA; 4]);
    let mut memory = vec![0xAAu8; 4];
    load_program_header(&segment(64, 0x1000, 0, 0), &content, &mut memory);
    assert_eq!(memory, [0xAA; 4]);
    load_program_header(&segment(64, 0x1000, 0, 3), &content, &mut memory);
    assert_eq!(memory, [0, 0, 0, 0xAA]);
}

#[test]
fn context_has_the_user_selectors_and_interrupts_enabled() {
    let context = UserContext::new(0x40_0010, 0x8000_0000);
    assert_eq!(
        context,
        UserContext { rip: 0x40_0010, rsp: 0x8000_0000, cs: 0x23, ss: 0x1b, rflags: 0x202 }
    );
    assert_eq!(context.frame(), [0x1b, 0x8000_0000, 0x202, 0x23, 0x40_0010]);
}

#[test]
fn a_program_is_loaded_segment_by_segment_then_given_its_stack() {
    let (content, segments) = program();
    let mut loader = Loader::new();
    assert_eq!(loader.state, LoadState::Unloaded);
    let action = ELF64::load_executable(&mut loader, LoadEvent::Content, &content);
    assert_eq!(
        action,
        LoadAction::MapPages(PageSpan { first: 0x40_0000, last: 0x40_0000, flags: 3 })
    );
    assert_eq!(loader.state, LoadState::HeaderParsed);
    assert_eq!(loader.segments.len(), 2);
    assert!(same(&loader.segments[1], &segments[1]));
    assert_eq!(loader.content_len, content.len());
    let action = ELF64::load_executable(&mut loader, LoadEvent::Mapped, &content);
    assert_eq!(action, LoadAction::LoadSegment(0));
    let action = ELF64::load_executable(&mut loader, LoadEvent::Loaded, &content);
    assert_eq!(
        action,
        LoadAction::MapPages(PageSpan { first: 0x60_1000, last: 0x60_4000, flags: 3 })
    );
    assert_eq!(loader.state, LoadState::HeaderParsed);
    let action = ELF64::load_executable(&mut loader, LoadEvent::Mapped, &content);
    assert_eq!(action, LoadAction::LoadSegment(1));
    let action = ELF64::load_executable(&mut loader, LoadEvent::Loaded, &content);
    assert_eq!(
        action,
        LoadAction::MapPages(PageSpan { first: 0x7FFF_C000, last: 0x7FFF_F000, flags: 7 })
    );
    assert_eq!(loader.state, LoadState::SegmentsMapped);
    let action = ELF64::load_executable(&mut loader, LoadEvent::Mapped, &content);
    assert_eq!(action, LoadAction::Transfer);
    assert_eq!(loader.state, LoadState::StackMapped);
    let context = loader.enter();
    assert_eq!(context, UserContext::new(0x40_0010, 0x8000_0000));
    assert_eq!(loader.state, LoadState::Transferred);
    let action = ELF64::load_executable(&mut loader, LoadEvent::Mapped, &content);
    assert_eq!(action, LoadAction::Abort(LoadError::Unexpected));
    assert_eq!(loader.state, LoadState::Transferred);
}

#[test]
fn a_program_without_segments_gets_only_its_stack() {
    let content = header(0x1000, 0, 0, 0);
    let mut loader = Loader::new();
    let action = ELF64::load_executable(&mut loader, LoadEvent::Content, &content);
    assert_eq!(action, LoadAction::MapPages(map_stack().pages));
    assert_eq!(loader.state, LoadState::SegmentsMapped);
}

#[test]
fn a_file_that_is_no_program_is_given_up() {
    let mut loader = Loader::new();
    let action = ELF64::load_executable(&mut loader, LoadEvent::Content, &[0u8; 10]);
    assert_eq!(action, LoadAction::Abort(LoadError::Malformed(ElfError::TruncatedHeader)));
    assert_eq!(loader.state, LoadState::Aborted);
    let action = ELF64::load_executable(&mut loader, LoadEvent::Content, &[0u8; 10]);
    assert_eq!(action, LoadAction::Abort(LoadError::Unexpected));
    assert_eq!(loader.state, LoadState::Aborted);
}

#[test]
fn running_out_of_frames_gives_the_load_up() {
    let (content, _) = program();
    let mut loader = Loader::new();
    ELF64::load_executable(&mut loader, LoadEvent::Content, &content);
    let action = ELF64::load_executable(&mut loader, LoadEvent::OutOfFrames, &content);
    assert_eq!(action, LoadAction::Abort(LoadError::OutOfFrames));
    assert_eq!(loader.state, LoadState::Aborted);

    let mut loader = Loader::new();
    ELF64::load_executable(&mut loader, LoadEvent::Content, &header(0, 0, 0, 0));
    let action = ELF64::load_executable(&mut loader, LoadEvent::OutOfFrames, &content);
    assert_eq!(action, LoadAction::Abort(LoadError::OutOfFrames));
    assert_eq!(loader.state, LoadState::Aborted);
}

#[test]
fn a_segment_that_cannot_be_loaded_gives_the_load_up() {
    let outside = segment(0x100, 0x40_0000, 0x41, 0x41);
    let mut content = header(0, 0x40, 56, 1);
    content.extend(segment_bytes(&outside));
    content.resize(0x140, 0);
    let mut loader = Loader::new();
    let action = ELF64::load_executable(&mut loader, LoadEvent::Content, &content);
    assert_eq!(action, LoadAction::Abort(LoadError::SegmentOutsideFile));
    assert_eq!(loader.state, LoadState::Aborted);

    let good = segment(0x100, 0x40_0000, 0x40, 0x40);
    let bad = segment(0x100, 0x8000_0000_0000, 0x40, 0x40);
    let mut content = header(0, 0x40, 56, 2);
    content.extend(segment_bytes(&good));
    content.extend(segment_bytes(&bad));
    content.resize(0x140, 0);
    let mut loader = Loader::new();
    let action = ELF64::load_executable(&mut loader, LoadEvent::Content, &content);
    assert_eq!(
        action,
        LoadAction::MapPages(PageSpan { first: 0x40_0000, last: 0x40_0000, flags: 3 })
    );
    ELF64::load_executable(&mut loader, LoadEvent::Mapped, &content);
    let action = ELF64::load_executable(&mut loader, LoadEvent::Loaded, &content);
    assert_eq!(action, LoadAction::Abort(LoadError::BadSegmentRange));
    assert_eq!(loader.state, LoadState::Aborted);
}

#[test]
fn events_out_of_turn_give_the_load_up() {
    let (content, _) = program();
    for (events, last) in [
        (vec![], LoadEvent::Mapped),
        (vec![], LoadEvent::Loaded),
        (vec![], LoadEvent::OutOfFrames),
        (vec![LoadEvent::Content], LoadEvent::Loaded),
        (vec![LoadEvent::Content], LoadEvent::Content),
        (vec![LoadEvent::Content, LoadEvent::Mapped], LoadEvent::Mapped),
        (vec![LoadEvent::Content, LoadEvent::Mapped], LoadEvent::OutOfFrames),
        (
            vec![
                LoadEvent::Content,
                LoadEvent::Mapped,
                LoadEvent::Loaded,
                LoadEvent::Mapped,
                LoadEvent::Loaded,
            ],
            LoadEvent::Loaded,
        ),
    ] {
        let mut loader = Loader::new();
        for event in events {
            let action = ELF64::load_executable(&mut loader, event, &content);
            assert!(!matches!(action, LoadAction::Abort(_)));
        }
        let action = ELF64::load_executable(&mut loader, last, &content);
        assert_eq!(action, LoadAction::Abort(LoadError::Unexpected));
        assert_eq!(loader.state, LoadState::Aborted);
    }
}

#[test]
fn flipping_a_header_turns_every_number_round() {
    let mut flipped = ELF64Header::from_bytes(&header(0x0102_0304_0506_0708, 0x40, 0x0038, 0x0102));
    let identity = flipped.identity;
    flipped.flip_endianess();
    assert_eq!(flipped.identity, identity);
    assert_eq!(flipped.object_type, 0x0200);
    assert_eq!(flipped.arch, 0x3E00);
    assert_eq!(flipped.version2, 0x0100_0000);
    assert_eq!(flipped.instruction_pointer_entry, 0x0807_0605_0403_0201);
    assert_eq!(flipped.program_header_entry, 0x4000_0000_0000_0000);
    assert_eq!(flipped.section_header_entry, 0x8877_6655_4433_2211);
    assert_eq!(flipped.flags, 0xD4C3_B2A1);
    assert_eq!(flipped.header_size, 0x4000);
    assert_eq!(flipped.program_header_size, 0x3800);
    assert_eq!(flipped.program_header_entries, 0x0201);
    assert_eq!(flipped.section_header_entry_size, 0x4000);
    assert_eq!(flipped.section_header_entries, 0x0700);
    assert_eq!(flipped.section_name_index, 0x0600);
    flipped.flip_endianess();
    assert_eq!(flipped.instruction_pointer_entry, 0x0102_0304_0506_0708);
    assert_eq!(flipped.program_header_entries, 0x0102);
    assert_eq!(flipped.flags, 0xA1B2_C3D4);
}

#[test]
fn flipping_a_segment_record_turns_every_number_round() {
    let record = ELF64ProgramHeader {
        segment_type: 0x0000_0001,
        segment_flags: 0x1234_5678,
        offset: 0x0000_0000_0000_1000,
        virt_addr: 0x0011_2233_4455_6677,
        phys_addr: 0xFFEE_DDCC_BBAA_9988,
        file_image_size: 0x0123_4567_89AB_CDEF,
        memory_size: u64::MAX,
        alignment: 0,
    };
    let mut flipped = segment(0, 0, 0, 0);
    flipped.segment_type = record.segment_type;
    flipped.segment_flags = record.segment_flags;
    flipped.offset = record.offset;
    flipped.virt_addr = record.virt_addr;
    flipped.phys_addr = record.phys_addr;
    flipped.file_image_size = record.file_image_size;
    flipped.memory_size = record.memory_size;
    flipped.alignment = record.alignment;
    flipped.flip_endianess();
    assert_eq!(flipped.segment_type, 0x0100_0000);
    assert_eq!(flipped.segment_flags, 0x7856_3412);
    assert_eq!(flipped.offset, 0x0010_0000_0000_0000);
    assert_eq!(flipped.virt_addr, 0x7766_5544_3322_1100);
    assert_eq!(flipped.phys_addr, 0x8899_AABB_CCDD_EEFF);
    assert_eq!(flipped.file_image_size, 0xEFCD_AB89_6745_2301);
    assert_eq!(flipped.memory_size, u64::MAX);
    assert_eq!(flipped.alignment, 0);
    flipped.flip_endianess();
    assert!(same(&flipped, &record));
}

#[test]
fn a_flipped_header_reads_a_file_written_high_byte_first() {
    let mut bytes = vec![0u8; 64];
    bytes[0x18..0x20].copy_from_slice(&0x40_0010u64.to_be_bytes());
    bytes[0x36..0x38].copy_from_slice(&56u16.to_be_bytes());
    bytes[0x38..0x3A].copy_from_slice(&2u16.to_be_bytes());
    let mut read = ELF64Header::from_bytes(&bytes);
    assert_eq!(read.program_header_size, 56 << 8);
    read.flip_endianess();
    assert_eq!(read.instruction_pointer_entry, 0x40_0010);
    assert_eq!(read.program_header_size, 56);
    assert_eq!(read.program_header_entries, 2);
}

#[test]
fn a_new_load_has_done_nothing() {
    let loader = Loader::new();
    assert_eq!(loader.state, LoadState::Unloaded);
    assert_eq!(loader.entry, 0);
    assert_eq!(loader.segments.len(), 0);
    assert_eq!(loader.content_len, 0);
    assert_eq!(loader.segment, 0);
    assert!(!loader.mapped);
}
