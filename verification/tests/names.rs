use pollos::file_system::fat16::{DirEntry, Format83, ParsedDirEntry};
use pollos::file_system::names::{
    long_name_text, placeholder, read_field, read_long_name, split_name, text_or_placeholder,
    trimmed_len,
};
use pollos::file_system::StorageEntry;

#[test]
fn short_name_is_trimmed_and_joined_with_a_dot() {
    let format = Format83::from_bytes(b"README  TXT");
    assert_eq!(format.0, "README");
    assert_eq!(format.1.as_deref(), Some("TXT"));
    assert_eq!(format.to_text(), "README.TXT");
}

#[test]
fn short_name_of_a_whole_record_looks_at_its_first_11_bytes() {
    let mut record = [0xFFu8; 32];
    record[0..11].copy_from_slice(b"A       B  ");
    let format = Format83::from_bytes(&record);
    assert_eq!(format.0, "A");
    assert_eq!(format.1.as_deref(), Some("B"));
}

#[test]
fn empty_extension_is_absent() {
    let format = Format83::from_bytes(b"KERNEL     ");
    assert_eq!(format.0, "KERNEL");
    assert_eq!(format.1, None);
    assert_eq!(format.to_text(), "KERNEL/");
}

#[test]
fn full_width_fields_are_kept_whole() {
    let format = Format83::from_bytes(b"ABCDEFGHIJK");
    assert_eq!(format.0, "ABCDEFGH");
    assert_eq!(format.1.as_deref(), Some("IJK"));
}

#[test]
fn only_trailing_spaces_are_trimmed() {
    let format = Format83::from_bytes(b" A B    C D");
    assert_eq!(format.0, " A B");
    assert_eq!(format.1.as_deref(), Some("C D"));
    let format = Format83::from_bytes(b"           ");
    assert_eq!(format.0, "");
    assert_eq!(format.1, None);
}

#[test]
fn tabs_are_not_spaces() {
    let format = Format83::from_bytes(b"AB\t     C\t ");
    assert_eq!(format.0, "AB\t");
    assert_eq!(format.1.as_deref(), Some("C\t"));
}

#[test]
fn field_that_is_no_text_gets_the_placeholder() {
    let format = Format83::from_bytes(&[0xFF, 0xFE, b' ', b' ', b' ', b' ', b' ', b' ', b'T', b'X', b'T']);
    assert_eq!(format.0, "<invalid>");
    assert_eq!(format.1.as_deref(), Some("TXT"));
    let format = Format83::from_bytes(&[b'A', b' ', b' ', b' ', b' ', b' ', b' ', b' ', 0x80, b' ', b' ']);
    assert_eq!(format.0, "A");
    assert_eq!(format.1.as_deref(), Some("<invalid>"));
    assert_eq!(placeholder(), "<invalid>");
}

#[test]
fn field_of_several_bytes_a_character_is_decoded() {
    let mut bytes = [b' '; 11];
    bytes[0..2].copy_from_slice("é".as_bytes());
    bytes[2] = b'X';
    let format = Format83::from_bytes(&bytes);
    assert_eq!(format.0, "éX");
    assert_eq!(format.1, None);
}

#[test]
fn new_keeps_both_parts() {
    let format = Format83::new("a".to_string(), Some("b".to_string()));
    assert_eq!(format.0, "a");
    assert_eq!(format.1.as_deref(), Some("b"));
    assert_eq!(format.to_text(), "a.b");
    let format = Format83::new("dir".to_string(), None);
    assert_eq!(format.to_text(), "dir/");
}

#[test]
fn trimmed_len_counts_what_stands_before_the_trailing_spaces() {
    let bytes = b"xxAB  C   yy";
    assert_eq!(trimmed_len(bytes, 2, 10), 5);
    assert_eq!(trimmed_len(bytes, 2, 6), 2);
    assert_eq!(trimmed_len(bytes, 4, 6), 0);
    assert_eq!(trimmed_len(bytes, 3, 3), 0);
    assert_eq!(trimmed_len(bytes, 0, 12), 12);
}

#[test]
fn read_field_reads_a_part_of_the_bytes() {
    assert_eq!(read_field(b"..HELLO   ..", 2, 10), "HELLO");
    assert_eq!(read_field(b"..HELLO   ..", 2, 2), "");
}

#[test]
fn name_is_split_at_its_first_dot() {
    assert_eq!(split_name("a.b"), ("a".to_string(), Some("b".to_string())));
    assert_eq!(split_name("archive.tar.gz"), ("archive".to_string(), Some("tar.gz".to_string())));
    assert_eq!(split_name("noext"), ("noext".to_string(), None));
    assert_eq!(split_name(""), ("".to_string(), None));
    assert_eq!(split_name(".hidden"), ("".to_string(), Some("hidden".to_string())));
    assert_eq!(split_name("trailing."), ("trailing".to_string(), Some("".to_string())));
    assert_eq!(split_name("ü.ö"), ("ü".to_string(), Some("ö".to_string())));
}

fn units(text: &str) -> Vec<u16> {
    text.encode_utf16().collect()
}

#[test]
fn long_name_text_decodes_units() {
    assert_eq!(long_name_text(&units("longfilename.TXT")), "longfilename.TXT");
    assert_eq!(long_name_text(&units("grüße 😀")), "grüße 😀");
    assert_eq!(long_name_text(&[]), "");
}

#[test]
fn a_decoding_that_failed_gets_the_placeholder() {
    assert_eq!(text_or_placeholder(Some("name.txt".to_string())), "name.txt");
    assert_eq!(text_or_placeholder(Some(String::new())), "");
    assert_eq!(text_or_placeholder(None), "<invalid>");
}

#[test]
fn units_that_are_no_text_get_the_placeholder() {
    assert_eq!(long_name_text(&[0xD800]), "<invalid>");
    assert_eq!(long_name_text(&[0x0041, 0xDC00, 0x0042]), "<invalid>");
}

fn fragment(sequence: u8, text: &[u16]) -> [u8; 32] {
    let mut padded = [0xFFFFu16; 13];
    for (i, unit) in text.iter().enumerate() {
        padded[i] = *unit;
    }
    if text.len() < 13 {
        padded[text.len()] = 0;
    }
    let mut record = [0u8; 32];
    record[0] = sequence;
    record[11] = 0x0F;
    record[13] = 0x5A;
    let places: [usize; 13] = [1, 3, 5, 7, 9, 14, 16, 18, 20, 22, 24, 28, 30];
    for (unit, place) in padded.iter().zip(places.iter()) {
        record[*place..*place + 2].copy_from_slice(&unit.to_le_bytes());
    }
    record
}

#[test]
fn long_name_takes_the_last_fragment_first() {
    let name = units("longfilename.TXT");
    let mut bytes = vec![0u8; 32];
    bytes.extend_from_slice(&fragment(0x42, &name[13..]));
    bytes.extend_from_slice(&fragment(0x01, &name[..13]));
    let read = read_long_name(&bytes, &vec![32, 64]);
    assert_eq!(read, name);
    let swapped = read_long_name(&bytes, &vec![64, 32]);
    assert_eq!(swapped, units("TXT"));
}

#[test]
fn long_name_ends_at_the_first_null_or_padding_unit() {
    let mut record = fragment(0x41, &units("abcdefghijklm"));
    assert_eq!(read_long_name(&record, &vec![0]), units("abcdefghijklm"));
    record[5] = 0xFF;
    record[6] = 0xFF;
    assert_eq!(read_long_name(&record, &vec![0]), units("ab"));
    record[1] = 0;
    record[2] = 0;
    assert_eq!(read_long_name(&record, &vec![0]), units(""));
    assert_eq!(read_long_name(&record, &vec![]), units(""));
}

#[test]
fn long_name_skips_the_bytes_between_the_three_ranges() {
    let mut record = fragment(0x41, &units("0123456789abc"));
    record[0] = 0x77;
    record[11] = 0x77;
    record[12] = 0x77;
    record[13] = 0x77;
    record[26] = 0x77;
    record[27] = 0x77;
    assert_eq!(read_long_name(&record, &vec![0]), units("0123456789abc"));
}

fn entry(name: &str, ext: Option<&str>) -> ParsedDirEntry {
    ParsedDirEntry {
        name: name.to_string(),
        ext: ext.map(|e| e.to_string()),
        entry: DirEntry::from_bytes(&[0u8; 32], 0),
    }
}

#[test]
fn entry_name_has_a_dot_only_before_an_extension() {
    assert_eq!(entry("README", Some("TXT")).name(), "README.TXT");
    assert_eq!(entry("BIN", None).name(), "BIN");
    assert_eq!(entry("odd", Some("")).name(), "odd.");
    assert_eq!(entry("README", Some("TXT")).key(), "README.TXT");
    assert_eq!(entry("BIN", None).key(), "BIN");
}
