//! Which character maps can be read without counting too far.
//!
//! A font file starts with a directory of tables.  The table `cmap` lists
//! subtables, and those of one format map groups of characters to glyphs that
//! are numbered one after the other.

use vstd::prelude::*;

verus! {

/// The tag of a file that holds several fonts, `ttcf`.
pub const COLLECTION_TAG: u32 = 0x7474_6366;

/// The tag of the table of character maps, `cmap`.
pub const CHARMAP_TAG: u32 = 0x636D_6170;

/// The number in two bytes, if they are there.
pub open spec fn number16(data: Seq<u8>, at: int) -> Option<int> {
    if 0 <= at && at + 2 <= data.len() {
        Some(data[at] * 0x100 + data[at + 1])
    } else {
        None
    }
}

/// The number in four bytes, if they are there.
pub open spec fn number32(data: Seq<u8>, at: int) -> Option<int> {
    if 0 <= at && at + 4 <= data.len() {
        Some(data[at] * 0x100_0000 + data[at + 1] * 0x1_0000 + data[at + 2] * 0x100 + data[at + 3])
    } else {
        None
    }
}

/// The glyphs of a group can be counted in 32 bits.
pub open spec fn is_sound_group(data: Seq<u8>, at: int) -> bool {
    match (number32(data, at), number32(data, at + 4), number32(data, at + 8)) {
        (Some(first), Some(last), Some(glyph)) => {
            let end = if last < 0x10_FFFF {
                last
            } else {
                0x10_FFFF
            };
            glyph + end - first <= u32::MAX
        },
        _ => true,
    }
}

/// The header of a subtable of groups is there, and the glyphs of every group
/// can be counted.
pub open spec fn is_sound_subtable(data: Seq<u8>, at: int) -> bool {
    number32(data, at + 12) matches Some(count) && 12 * count <= usize::MAX && (at + 16 + 12 * count
        <= data.len() ==> forall|g: int|
        0 <= g < count ==> #[trigger] is_sound_group(data, at + 16 + 12 * g))
}

/// An entry of the table at `table` names no subtable of groups, or a sound
/// one.
pub open spec fn is_sound_entry(data: Seq<u8>, table: int, at: int) -> bool {
    number32(data, at + 4) matches Some(offset) ==> (number16(data, table + offset) matches Some(
        format,
    ) && format % 0x100 == 12 ==> is_sound_subtable(data, table + offset))
}

/// Every entry of the table of character maps is sound.
pub open spec fn is_sound_table(data: Seq<u8>, table: int) -> bool {
    number16(data, table + 2) matches Some(count) ==> forall|j: int|
        0 <= j < count ==> #[trigger] is_sound_entry(data, table, table + 4 + 8 * j)
}

/// A record of the directory is none of a table of character maps, or of a
/// sound one.
pub open spec fn is_sound_record(data: Seq<u8>, at: int) -> bool {
    number32(data, at) == Some(CHARMAP_TAG as int) ==> (number32(data, at + 8) matches Some(table)
        ==> is_sound_table(data, table))
}

/// Where the directory of the first font of the file begins.
pub open spec fn directory(data: Seq<u8>) -> Option<int> {
    if number32(data, 0) == Some(COLLECTION_TAG as int) {
        number32(data, 12)
    } else {
        Some(0)
    }
}

/// Every table of character maps of the first font is sound.
pub open spec fn is_sound_charmap(data: Seq<u8>) -> bool {
    directory(data) matches Some(base) ==> (number16(data, base + 4) matches Some(count)
        ==> forall|i: int|
        0 <= i < count ==> #[trigger] is_sound_record(data, base + 12 + 16 * i))
}

/// The number in two bytes, if they are there.
fn read16(data: &[u8], at: u64) -> (r: Option<u16>)
    ensures
        match r {
            Some(n) => number16(data@, at as int) == Some(n as int),
            None => number16(data@, at as int) is None,
        },
{
    let len: u64 = data.len() as u64;
    if len < 2 || at > len - 2 {
        return None;
    }
    let i: usize = at as usize;
    Some(data[i] as u16 * 0x100 + data[i + 1] as u16)
}

/// The number in four bytes, if they are there.
fn read32(data: &[u8], at: u64) -> (r: Option<u32>)
    ensures
        match r {
            Some(n) => number32(data@, at as int) == Some(n as int),
            None => number32(data@, at as int) is None,
        },
{
    let len: u64 = data.len() as u64;
    if len < 4 || at > len - 4 {
        return None;
    }
    let i: usize = at as usize;
    Some(
        data[i] as u32 * 0x100_0000 + data[i + 1] as u32 * 0x1_0000 + data[i + 2] as u32 * 0x100
            + data[i + 3] as u32,
    )
}

/// Whether the glyphs of a group can be counted in 32 bits.
fn sound_group(data: &[u8], at: u64) -> (r: bool)
    requires
        at < 0x100_0000_0000_0000,
    ensures
        r == is_sound_group(data@, at as int),
{
    match (read32(data, at), read32(data, at + 4), read32(data, at + 8)) {
        (Some(first), Some(last), Some(glyph)) => {
            let end: u32 = if last < 0x10_FFFF {
                last
            } else {
                0x10_FFFF
            };
            glyph as u64 + end as u64 <= u32::MAX as u64 + first as u64
        },
        _ => true,
    }
}

/// Whether a subtable of groups is sound.
fn sound_subtable(data: &[u8], at: u64) -> (r: bool)
    requires
        at < 0x10_0000_0000_0000,
    ensures
        r == is_sound_subtable(data@, at as int),
{
    let count: u64 = match read32(data, at + 12) {
        Some(n) => n as u64,
        None => {
            return false;
        },
    };
    if 12 * count > usize::MAX as u64 {
        return false;
    }
    if at + 16 + 12 * count > data.len() as u64 {
        return true;
    }
    let mut g: u64 = 0;
    while g < count
        invariant
            at < 0x10_0000_0000_0000,
            g <= count <= u32::MAX,
            number32(data@, at + 12) == Some(count as int),
            at + 16 + 12 * count <= data@.len(),
            forall|k: int| 0 <= k < g ==> #[trigger] is_sound_group(data@, at + 16 + 12 * k),
        decreases count - g,
    {
        if !sound_group(data, at + 16 + 12 * g) {
            assert(!is_sound_group(data@, at + 16 + 12 * (g as int)));
            return false;
        }
        g = g + 1;
    }
    true
}

/// Whether an entry of a table of character maps is sound.
fn sound_entry(data: &[u8], table: u64, at: u64) -> (r: bool)
    requires
        table <= u32::MAX,
        at <= 0x100_0000_0000,
    ensures
        r == is_sound_entry(data@, table as int, at as int),
{
    match read32(data, at + 4) {
        Some(offset) => match read16(data, table + offset as u64) {
            Some(format) => {
                if format % 0x100 == 12 {
                    sound_subtable(data, table + offset as u64)
                } else {
                    true
                }
            },
            None => true,
        },
        None => true,
    }
}

/// Whether every entry of a table of character maps is sound.
fn sound_table(data: &[u8], table: u64) -> (r: bool)
    requires
        table <= u32::MAX,
    ensures
        r == is_sound_table(data@, table as int),
{
    let count: u64 = match read16(data, table + 2) {
        Some(n) => n as u64,
        None => {
            return true;
        },
    };
    let mut j: u64 = 0;
    while j < count
        invariant
            table <= u32::MAX,
            j <= count <= u16::MAX,
            number16(data@, table + 2) == Some(count as int),
            forall|k: int|
                0 <= k < j ==> #[trigger] is_sound_entry(
                    data@,
                    table as int,
                    table + 4 + 8 * k,
                ),
        decreases count - j,
    {
        if !sound_entry(data, table, table + 4 + 8 * j) {
            assert(!is_sound_entry(data@, table as int, table + 4 + 8 * (j as int)));
            return false;
        }
        j = j + 1;
    }
    true
}

/// Whether a record of the directory is sound.
fn sound_record(data: &[u8], at: u64) -> (r: bool)
    requires
        at <= 0x100_0000_0000,
    ensures
        r == is_sound_record(data@, at as int),
{
    match read32(data, at) {
        Some(tag) => {
            if tag != CHARMAP_TAG {
                return true;
            }
            match read32(data, at + 8) {
                Some(table) => sound_table(data, table as u64),
                None => true,
            }
        },
        None => true,
    }
}

/// Whether every table of character maps of the first font of the file is
/// sound.
pub fn has_sound_charmap(data: &[u8]) -> (r: bool)
    ensures
        r == is_sound_charmap(data@),
{
    let in_collection: bool = match read32(data, 0) {
        Some(tag) => tag == COLLECTION_TAG,
        None => false,
    };
    let base: u64 = if in_collection {
        match read32(data, 12) {
            Some(n) => n as u64,
            None => {
                return true;
            },
        }
    } else {
        0
    };
    let count: u64 = match read16(data, base + 4) {
        Some(n) => n as u64,
        None => {
            return true;
        },
    };
    let mut i: u64 = 0;
    while i < count
        invariant
            base <= u32::MAX,
            i <= count <= u16::MAX,
            directory(data@) == Some(base as int),
            number16(data@, base + 4) == Some(count as int),
            forall|k: int| 0 <= k < i ==> #[trigger] is_sound_record(data@, base + 12 + 16 * k),
        decreases count - i,
    {
        if !sound_record(data, base + 12 + 16 * i) {
            assert(!is_sound_record(data@, base + 12 + 16 * (i as int)));
            return false;
        }
        i = i + 1;
    }
    true
}

/// Numbers are read with their highest byte first, and only where all their
/// bytes are there.
pub proof fn lemma_highest_byte_first(data: Seq<u8>, at: int)
    ensures
        number16(data, at) is Some <==> 0 <= at <= data.len() - 2,
        number32(data, at) is Some <==> 0 <= at <= data.len() - 4,
        number16(data, at) matches Some(n) ==> n / 256 == data[at] && n % 256 == data[at + 1],
        number32(data, at) matches Some(n) ==> n / 0x1_0000 == number16(data, at)->0 && n % 0x1_0000
            == number16(data, at + 2)->0,
{
}

/// Where the directory starts: at the start of the file, or where the fourth
/// number says if the file is a collection.
pub open spec fn is_directory(data: Seq<u8>, base: int) -> bool {
    if data.len() >= 4 && data[0] == 0x74 && data[1] == 0x74 && data[2] == 0x63 && data[3] == 0x66 {
        number32(data, 12) == Some(base)
    } else {
        base == 0
    }
}

/// Entry `j` of the table of character maps that record `i` of the directory
/// names leads to a subtable at `at`, and that has the format 12.
pub open spec fn leads_to_groups(data: Seq<u8>, base: int, i: int, j: int, at: int) -> bool {
    let record = base + 12 + 16 * i;
    let table = number32(data, record + 8)->0;
    let entry = table + 4 + 8 * j;
    &&& is_directory(data, base)
    &&& number16(data, base + 4) matches Some(records) && 0 <= i < records
    &&& record + 12 <= data.len()
    &&& data[record] == 0x63 && data[record + 1] == 0x6D && data[record + 2] == 0x61 && data[record
        + 3] == 0x70
    &&& number16(data, table + 2) matches Some(entries) && 0 <= j < entries
    &&& number32(data, entry + 4) matches Some(offset) && at == table + offset
    &&& at + 2 <= data.len() && data[at + 1] == 12
}

/// A group of a subtable counts within 32 bits.  Groups stand behind a header of
/// 16 bytes, twelve bytes each, and characters end at 0x10FFFF, whatever a group
/// says.
pub open spec fn group_counts(data: Seq<u8>, at: int, g: int) -> bool {
    let first = number32(data, at + 16 + 12 * g)->0;
    let last = number32(data, at + 20 + 12 * g)->0;
    let glyph = number32(data, at + 24 + 12 * g)->0;
    &&& last <= 0x10_FFFF ==> glyph + last - first < 0x1_0000_0000
    &&& last > 0x10_FFFF ==> glyph + 0x10_FFFF - first < 0x1_0000_0000
}

/// The groups of a subtable can be counted: its header is there, its length can
/// be addressed, and where all groups are there, each of them counts.
pub open spec fn groups_count(data: Seq<u8>, at: int) -> bool {
    let groups = number32(data, at + 12)->0;
    &&& number32(data, at + 12) is Some
    &&& 12 * groups <= usize::MAX
    &&& at + 16 + 12 * groups <= data.len() ==> forall|g: int|
        0 <= g < groups ==> #[trigger] group_counts(data, at, g)
}

/// The character maps of a font are sound exactly when the groups of every
/// subtable that its directory leads to can be counted.
pub proof fn lemma_which_charmaps_are_sound(data: Seq<u8>)
    ensures
        is_sound_charmap(data) <==> forall|base: int, i: int, j: int, at: int|
            #[trigger] leads_to_groups(data, base, i, j, at) ==> groups_count(data, at),
{
    if is_sound_charmap(data) {
        assert forall|base: int, i: int, j: int, at: int|
            #[trigger] leads_to_groups(data, base, i, j, at) implies groups_count(data, at) by {
            lemma_sound_leads(data, base, i, j, at);
        }
    } else {
        let (base, i, j, at) = lemma_unsound_leads(data);
    }
}

/// A directory that starts with these four bytes belongs to a collection.
proof fn lemma_directory(data: Seq<u8>, base: int)
    ensures
        is_directory(data, base) <==> directory(data) == Some(base),
{
}

/// A record of a table of character maps has these four bytes.
proof fn lemma_charmap_tag(data: Seq<u8>, at: int)
    requires
        0 <= at,
    ensures
        number32(data, at) == Some(CHARMAP_TAG as int) <==> at + 4 <= data.len() && data[at] == 0x63
            && data[at + 1] == 0x6D && data[at + 2] == 0x61 && data[at + 3] == 0x70,
{
}

/// What a sound file leads to is sound.
#[verifier::spinoff_prover]
proof fn lemma_sound_leads(data: Seq<u8>, base: int, i: int, j: int, at: int)
    requires
        is_sound_charmap(data),
        leads_to_groups(data, base, i, j, at),
    ensures
        groups_count(data, at),
{
    lemma_directory(data, base);
    let record = base + 12 + 16 * i;
    let table = number32(data, record + 8)->0;
    lemma_charmap_tag(data, record);
    assert(is_sound_record(data, base + 12 + 16 * i));
    assert(is_sound_table(data, table));
    assert(is_sound_entry(data, table, table + 4 + 8 * j));
    assert(is_sound_subtable(data, at));
    lemma_groups_of_subtable(data, at);
}

/// The steps that lead to a subtable, as numbers.
proof fn lemma_steps_lead(data: Seq<u8>, base: int, i: int, table: int, j: int, offset: int)
    requires
        directory(data) == Some(base),
        number16(data, base + 4) matches Some(records) && 0 <= i < records,
        number32(data, base + 12 + 16 * i) == Some(CHARMAP_TAG as int),
        number32(data, base + 12 + 16 * i + 8) == Some(table),
        number16(data, table + 2) matches Some(entries) && 0 <= j < entries,
        number32(data, table + 4 + 8 * j + 4) == Some(offset),
        number16(data, table + offset) matches Some(format) && format % 0x100 == 12,
    ensures
        leads_to_groups(data, base, i, j, table + offset),
{
    lemma_directory(data, base);
    lemma_charmap_tag(data, base + 12 + 16 * i);
}

/// An unsound table has an entry that makes it so.
proof fn lemma_unsound_entry(data: Seq<u8>, table: int) -> (r: (int, int))
    requires
        0 <= table,
        !is_sound_table(data, table),
    ensures
        number16(data, table + 2) matches Some(entries) && 0 <= r.0 < entries,
        number32(data, table + 4 + 8 * r.0 + 4) == Some(r.1),
        number16(data, table + r.1) matches Some(format) && format % 0x100 == 12,
        0 <= r.1,
        !is_sound_subtable(data, table + r.1),
{
    let j = choose|j: int|
        0 <= j < number16(data, table + 2)->0 && !#[trigger] is_sound_entry(
            data,
            table,
            table + 4 + 8 * j,
        );
    assert(!is_sound_entry(data, table, table + 4 + 8 * j));
    (j, number32(data, table + 4 + 8 * j + 4)->0)
}

/// What makes a file unsound is a subtable that it leads to.
#[verifier::spinoff_prover]
proof fn lemma_unsound_leads(data: Seq<u8>) -> (r: (int, int, int, int))
    requires
        !is_sound_charmap(data),
    ensures
        leads_to_groups(data, r.0, r.1, r.2, r.3),
        !groups_count(data, r.3),
{
    let base = directory(data)->0;
    let i = choose|i: int|
        0 <= i < number16(data, base + 4)->0 && !#[trigger] is_sound_record(
            data,
            base + 12 + 16 * i,
        );
    assert(!is_sound_record(data, base + 12 + 16 * i));
    let table = number32(data, base + 12 + 16 * i + 8)->0;
    let (j, offset) = lemma_unsound_entry(data, table);
    lemma_steps_lead(data, base, i, table, j, offset);
    lemma_groups_of_subtable(data, table + offset);
    (base, i, j, table + offset)
}

/// A subtable is sound exactly when its groups can be counted.
proof fn lemma_groups_of_subtable(data: Seq<u8>, at: int)
    requires
        0 <= at,
    ensures
        is_sound_subtable(data, at) <==> groups_count(data, at),
{
    let groups = number32(data, at + 12)->0;
    if number32(data, at + 12) is Some && at + 16 + 12 * groups <= data.len() {
        assert forall|g: int| 0 <= g < groups implies #[trigger] is_sound_group(
            data,
            at + 16 + 12 * g,
        ) == group_counts(data, at, g) by {
            assert(at + 16 + 12 * g + 12 <= data.len());
        }
        if is_sound_subtable(data, at) {
            assert forall|g: int| 0 <= g < groups implies #[trigger] group_counts(data, at, g) by {
                assert(is_sound_group(data, at + 16 + 12 * g));
            }
        }
    }
}

} // verus!
