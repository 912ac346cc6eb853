use vstd::prelude::*;
use vstd::slice::{slice_subrange, slice_to_vec};
use vstd::string::{StrSliceExecFns, StringExecFns};
use vstd::utf8::{decode_utf8, valid_utf8};
use crate::utils::{le_u16, read_le_u16};

verus! {

/// The name given to a record whose name bytes decode to no text.
pub open spec fn invalid_name() -> Seq<char> {
    "<invalid>"@
}

/// The placeholder as a string.
pub fn placeholder() -> (name: String)
    ensures
        name@ == invalid_name(),
{
    String::from_str("<invalid>")
}

/// `field` without the spaces at its end.
pub open spec fn trim_spaces(field: Seq<u8>) -> Seq<u8>
    decreases field.len(),
{
    if field.len() > 0 && field.last() == 0x20 {
        trim_spaces(field.drop_last())
    } else {
        field
    }
}

/// A field keeps its first `kept` bytes when all behind them are spaces and
/// the last kept one is none.
pub proof fn lemma_trim_spaces(field: Seq<u8>, kept: int)
    requires
        0 <= kept <= field.len(),
        forall|i: int| kept <= i < field.len() ==> field[i] == 0x20,
        kept > 0 ==> field[kept - 1] != 0x20,
    ensures
        trim_spaces(field) == field.take(kept),
    decreases field.len(),
{
    if kept == field.len() {
        assert(field.take(kept) =~= field);
    } else {
        lemma_trim_spaces(field.drop_last(), kept);
        assert(field.drop_last().take(kept) =~= field.take(kept));
    }
}

/// The text of a space-padded name field: its bytes up to the trailing
/// spaces, read as UTF-8, or the placeholder where they are none.
pub open spec fn field_text(field: Seq<u8>) -> Seq<char> {
    let kept = trim_spaces(field);
    if valid_utf8(kept) {
        decode_utf8(kept)
    } else {
        invalid_name()
    }
}

/// `String::from_utf8`: the text that `bytes` encode, and none exactly
/// where they are not UTF-8.
#[verifier::external_body]
fn string_from_utf8(bytes: Vec<u8>) -> (text: Option<String>)
    ensures
        text is Some <==> valid_utf8(bytes@),
        text matches Some(s) ==> s@ == decode_utf8(bytes@),
{
    match String::from_utf8(bytes) {
        Ok(text) => Some(text),
        Err(_) => None,
    }
}

/// Length of `bytes[from..to]` without its trailing spaces.
pub fn trimmed_len(bytes: &[u8], from: usize, to: usize) -> (kept: usize)
    requires
        from <= to <= bytes.len(),
    ensures
        kept <= to - from,
        trim_spaces(bytes@.subrange(from as int, to as int)) == bytes@.subrange(
            from as int,
            from + kept,
        ),
{
    let mut end: usize = to;
    while end > from && bytes[end - 1] == 0x20
        invariant
            from <= end <= to <= bytes.len(),
            forall|i: int| end <= i < to ==> bytes@[i] == 0x20,
        decreases end,
    {
        end -= 1;
    }
    proof {
        let field = bytes@.subrange(from as int, to as int);
        lemma_trim_spaces(field, end - from);
        assert(field.take(end - from) =~= bytes@.subrange(from as int, end as int));
    }
    end - from
}

/// Reads the space-padded field `bytes[from..to]`.
pub fn read_field(bytes: &[u8], from: usize, to: usize) -> (text: String)
    requires
        from <= to <= bytes.len(),
    ensures
        text@ == field_text(bytes@.subrange(from as int, to as int)),
{
    let kept = trimmed_len(bytes, from, to);
    let raw = slice_to_vec(slice_subrange(bytes, from, from + kept));
    match string_from_utf8(raw) {
        Some(text) => text,
        None => placeholder(),
    }
}


/// The 26 name bytes of a continuation record: its bytes 1 to 10, 14 to 25
/// and 28 to 31.
pub open spec fn fragment_bytes(record: Seq<u8>) -> Seq<u8> {
    record.subrange(1, 11) + record.subrange(14, 26) + record.subrange(28, 32)
}

/// The name bytes of the continuation records `fragments`, which stand in
/// the order in which the directory holds them: the last one's bytes come
/// first.
pub open spec fn long_name_bytes(fragments: Seq<Seq<u8>>) -> Seq<u8>
    decreases fragments.len(),
{
    if fragments.len() == 0 {
        Seq::empty()
    } else {
        fragment_bytes(fragments.last()) + long_name_bytes(fragments.drop_last())
    }
}

/// The 16-bit units that `bytes` hold, low byte first; an odd last byte is
/// left out.
pub open spec fn code_units(bytes: Seq<u8>) -> Seq<u16> {
    Seq::new((bytes.len() / 2) as nat, |i: int| le_u16(bytes, 2 * i) as u16)
}

/// A unit that ends a long name: the null unit, or the all-ones padding.
pub open spec fn is_terminator(unit: u16) -> bool {
    unit == 0x0000 || unit == 0xFFFF
}

/// How many units stand before the first terminator.
pub open spec fn name_length(units: Seq<u16>) -> nat
    decreases units.len(),
{
    if units.len() == 0 || is_terminator(units[0]) {
        0
    } else {
        1 + name_length(units.drop_first())
    }
}

/// `units` up to the first terminator.
pub open spec fn name_units(units: Seq<u16>) -> Seq<u16> {
    units.take(name_length(units) as int)
}

/// The units of the name that the continuation records `fragments` spell.
pub open spec fn long_name_units(fragments: Seq<Seq<u8>>) -> Seq<u16> {
    name_units(code_units(long_name_bytes(fragments)))
}

/// The name ends at `end` when no unit before `end` is a terminator and
/// either the units end there or a terminator stands there.
pub proof fn lemma_name_length(units: Seq<u16>, end: int)
    requires
        0 <= end <= units.len(),
        forall|i: int| 0 <= i < end ==> !is_terminator(units[i]),
        end < units.len() ==> is_terminator(units[end]),
    ensures
        name_length(units) == end,
    decreases units.len(),
{
    if end > 0 {
        lemma_name_length(units.drop_first(), end - 1);
    }
}

/// Each record of `fragments` gives 26 bytes, and byte `k` of the whole is
/// byte `k % 26` of the record that stands `k / 26` places from the end.
pub proof fn lemma_long_name_bytes(fragments: Seq<Seq<u8>>, k: int)
    requires
        forall|i: int| 0 <= i < fragments.len() ==> (#[trigger] fragments[i]).len() == 32,
        0 <= k < 26 * fragments.len(),
    ensures
        long_name_bytes(fragments).len() == 26 * fragments.len(),
        long_name_bytes(fragments)[k] == fragment_bytes(fragments[fragments.len() - 1 - k / 26])[k
            % 26],
    decreases fragments.len(),
{
    lemma_long_name_bytes_len(fragments);
    lemma_long_name_bytes_len(fragments.drop_last());
    if k >= 26 {
        lemma_long_name_bytes(fragments.drop_last(), k - 26);
    }
}

/// Each record of `fragments` gives 26 bytes.
pub proof fn lemma_long_name_bytes_len(fragments: Seq<Seq<u8>>)
    requires
        forall|i: int| 0 <= i < fragments.len() ==> (#[trigger] fragments[i]).len() == 32,
    ensures
        long_name_bytes(fragments).len() == 26 * fragments.len(),
    decreases fragments.len(),
{
    if fragments.len() > 0 {
        lemma_long_name_bytes_len(fragments.drop_last());
    }
}

/// The records of `bytes` that start at `offsets`.
pub open spec fn fragments_at(bytes: Seq<u8>, offsets: Seq<usize>) -> Seq<Seq<u8>> {
    Seq::new(offsets.len(), |i: int| bytes.subrange(offsets[i] as int, offsets[i] + 32))
}

/// Puts the name bytes of the record at `at` behind `name`.
fn push_fragment(name: &mut Vec<u8>, bytes: &[u8], at: usize)
    requires
        at + 32 <= bytes.len(),
    ensures
        final(name)@ == old(name)@ + fragment_bytes(bytes@.subrange(at as int, at + 32)),
{
    name.extend_from_slice(slice_subrange(bytes, at + 1, at + 11));
    name.extend_from_slice(slice_subrange(bytes, at + 14, at + 26));
    name.extend_from_slice(slice_subrange(bytes, at + 28, at + 32));
    proof {
        let record = bytes@.subrange(at as int, at + 32);
        assert(record.subrange(1, 11) =~= bytes@.subrange(at + 1, at + 11));
        assert(record.subrange(14, 26) =~= bytes@.subrange(at + 14, at + 26));
        assert(record.subrange(28, 32) =~= bytes@.subrange(at + 28, at + 32));
        assert(name@ =~= old(name)@ + fragment_bytes(record));
    }
}

/// The units of the long name that the continuation records at `offsets`
/// in `bytes` spell.
pub fn read_long_name(bytes: &[u8], offsets: &Vec<usize>) -> (units: Vec<u16>)
    requires
        forall|i: int| 0 <= i < offsets@.len() ==> offsets@[i] + 32 <= bytes.len(),
    ensures
        units@ == long_name_units(fragments_at(bytes@, offsets@)),
{
    let ghost fragments = fragments_at(bytes@, offsets@);
    let mut name: Vec<u8> = Vec::new();
    let mut left: usize = offsets.len();
    proof {
        assert(fragments.take(left as int) =~= fragments);
        assert(name@ + long_name_bytes(fragments) =~= long_name_bytes(fragments));
    }
    while left > 0
        invariant
            left <= offsets@.len(),
            fragments == fragments_at(bytes@, offsets@),
            forall|i: int| 0 <= i < offsets@.len() ==> offsets@[i] + 32 <= bytes.len(),
            name@ + long_name_bytes(fragments.take(left as int)) == long_name_bytes(fragments),
        decreases left,
    {
        let ghost before = name@;
        left -= 1;
        push_fragment(&mut name, bytes, offsets[left]);
        proof {
            let head = fragments.take(left + 1);
            assert(head.last() == fragments[left as int]);
            assert(head.drop_last() =~= fragments.take(left as int));
            assert(name@ + long_name_bytes(fragments.take(left as int)) =~= before
                + long_name_bytes(head));
        }
    }
    proof {
        assert(fragments.take(0) =~= Seq::<Seq<u8>>::empty());
        assert(name@ =~= long_name_bytes(fragments));
    }
    let mut units: Vec<u16> = Vec::new();
    let mut at: usize = 0;
    let count: usize = name.len() / 2;
    while at < count
        invariant
            count == name@.len() / 2,
            name@.len() <= usize::MAX,
            at <= count,
            units@ == code_units(name@).take(at as int),
            forall|i: int| 0 <= i < at ==> !is_terminator(code_units(name@)[i]),
        ensures
            at <= count,
            units@ == code_units(name@).take(at as int),
            forall|i: int| 0 <= i < at ==> !is_terminator(code_units(name@)[i]),
            at < count ==> is_terminator(code_units(name@)[at as int]),
        decreases count - at,
    {
        let unit = read_le_u16(name.as_slice(), 2 * at);
        if unit == 0x0000 || unit == 0xFFFF {
            break ;
        }
        units.push(unit);
        at += 1;
        proof {
            assert(units@ =~= code_units(name@).take(at as int));
        }
    }
    proof {
        lemma_name_length(code_units(name@), at as int);
    }
    units
}

/// What `String::from_utf16` makes of `units`: the text that they encode,
/// or none where they are no UTF-16.
pub uninterp spec fn utf16_text(units: Seq<u16>) -> Option<Seq<char>>;

/// `String::from_utf16`, with its error turned into `None`.
#[verifier::external_body]
fn string_from_utf16(units: &[u16]) -> (text: Option<String>)
    ensures
        match text {
            Some(s) => utf16_text(units@) == Some(s@),
            None => utf16_text(units@) is None,
        },
{
    match String::from_utf16(units) {
        Ok(text) => Some(text),
        Err(_) => None,
    }
}

/// The file name that a decoding of its units stands for: the text, or the
/// placeholder where there is none.
pub open spec fn text_or_invalid(decoded: Option<Seq<char>>) -> Seq<char> {
    match decoded {
        Some(text) => text,
        None => invalid_name(),
    }
}

/// The file name that a decoding of its units stands for.
pub fn text_or_placeholder(decoded: Option<String>) -> (text: String)
    ensures
        text@ == text_or_invalid(text_of(decoded)),
{
    match decoded {
        Some(text) => text,
        None => placeholder(),
    }
}

/// The file name that `units` spell.
pub fn long_name_text(units: &[u16]) -> (text: String)
    ensures
        text@ == text_or_invalid(utf16_text(units@)),
{
    text_or_placeholder(string_from_utf16(units))
}

/// Where the first `'.'` of `text` stands; its length where it has none.
pub open spec fn dot_position(text: Seq<char>) -> int
    decreases text.len(),
{
    if text.len() == 0 || text[0] == '.' {
        0
    } else {
        1 + dot_position(text.drop_first())
    }
}

/// A file name as base and extension: what stands before its first `'.'`
/// and what stands behind it, or all of it and no extension where it holds
/// no `'.'`.
pub open spec fn split_at_dot(text: Seq<char>) -> (Seq<char>, Option<Seq<char>>) {
    let dot = dot_position(text);
    if dot < text.len() {
        (text.take(dot), Some(text.skip(dot + 1)))
    } else {
        (text, None)
    }
}

/// The first `'.'` stands at `dot` when none stands before it and either
/// the text ends there or one stands there.
pub proof fn lemma_dot_position(text: Seq<char>, dot: int)
    requires
        0 <= dot <= text.len(),
        forall|i: int| 0 <= i < dot ==> text[i] != '.',
        dot < text.len() ==> text[dot] == '.',
    ensures
        dot_position(text) == dot,
    decreases text.len(),
{
    if dot > 0 {
        lemma_dot_position(text.drop_first(), dot - 1);
    }
}

/// The text of an optional string.
pub open spec fn text_of(name: Option<String>) -> Option<Seq<char>> {
    match name {
        Some(name) => Some(name@),
        None => None,
    }
}

/// Splits a file name at its first `'.'`.
pub fn split_name(text: &str) -> (parts: (String, Option<String>))
    ensures
        (parts.0@, text_of(parts.1)) == split_at_dot(text@),
{
    let len = text.unicode_len();
    let mut dot: usize = 0;
    while dot < len && text.get_char(dot) != '.'
        invariant
            len == text@.len(),
            dot <= len,
            forall|i: int| 0 <= i < dot ==> text@[i] != '.',
        decreases len - dot,
    {
        dot += 1;
    }
    proof {
        lemma_dot_position(text@, dot as int);
    }
    if dot < len {
        let base = String::from_str(text.substring_char(0, dot));
        let ext = String::from_str(text.substring_char(dot + 1, len));
        (base, Some(ext))
    } else {
        (String::from_str(text), None)
    }
}

} // verus!
