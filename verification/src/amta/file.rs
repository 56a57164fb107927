use vstd::prelude::*;
use crate::amta::document::{
    alignment, alignment_of, all_printable, explicit_name, explicit_name_at, hex_preview, hex_preview_of, printable,
    strings, strings_from, strings_match, AmtaString,
};
use crate::binary::{signed32, to_i32, u32_at, BinaryReader, Endian};
use crate::fmt::{decimal, hex_fixed_upper, hex_padded, push_decimal, push_hex, push_hex_upper};
use vstd::string::StringExecFns;
use crate::text::{string_from_utf8_lossy, utf8_lossy};

verus! {

/// A 32-bit word of a chunk, shown every way an inspector may want to read it. A
/// float is held as its bit pattern.
#[derive(Clone, Debug)]
pub struct AmtaWord {
    pub offset: usize,
    pub raw_hex: String,
    pub unsigned: u32,
    pub signed: i32,
    pub float: Option<u32>,
    pub ascii: Option<String>,
    pub target: Option<usize>,
}

/// The bit pattern of the 32-bit float nearest 1e-20.
pub const FLOAT_SHOWN_MIN: u32 = 0x1e3c_e508;

/// The bit pattern of the 32-bit float nearest 1e20.
pub const FLOAT_SHOWN_MAX: u32 = 0x60ad_78ec;

/// Whether a word is shown as a float: a finite, non-zero float of magnitude from
/// 1e-20 to 1e20. The magnitude of a float that is not NaN orders as its bit pattern
/// without the sign bit does, so the test is on that pattern.
pub open spec fn float_shown(u: u32) -> bool {
    FLOAT_SHOWN_MIN <= (u & 0x7fff_ffffu32) <= FLOAT_SHOWN_MAX
}

/// Whether `w` is the word at `p` of a file of `file_size` bytes in byte order `e`.
pub open spec fn word_is(b: Seq<u8>, e: Endian, p: int, file_size: int, w: AmtaWord) -> bool {
    let u = u32_at(b, p, e);
    let bytes = b.subrange(p, p + 4);
    &&& w.offset == p
    &&& w.unsigned == u
    &&& w.raw_hex@ == hex_fixed_upper(u as nat, 8)
    &&& w.signed == signed32(u as int)
    &&& w.float == (if float_shown(u) { Some(u) } else { None })
    &&& (w.ascii is Some <==> all_printable(bytes))
    &&& (w.ascii matches Some(s) ==> s@ == utf8_lossy(bytes))
    &&& w.target == (if u != 0 && u < file_size { Some(u as usize) } else { None })
}

/// The number of whole words from `start` up to `end`.
pub open spec fn word_count(start: int, end: int) -> int {
    if start + 4 <= end {
        (end - start) / 4
    } else {
        0
    }
}

/// Whether `w` holds the whole words from `start` up to `end`, in order.
pub open spec fn words_are(b: Seq<u8>, e: Endian, start: int, end: int, file_size: int, w: Seq<AmtaWord>) -> bool {
    &&& w.len() == word_count(start, end)
    &&& forall|k: int| 0 <= k < w.len() ==> word_is(b, e, start + 4 * k, file_size, #[trigger] w[k])
}

/// Whether the float bits `u` are shown as a float.
fn shows_float(u: u32) -> (r: bool)
    ensures
        r == float_shown(u),
{
    let m = u & 0x7fff_ffff;
    FLOAT_SHOWN_MIN <= m && m <= FLOAT_SHOWN_MAX
}

/// Whether every byte is printable ASCII.
fn printable_bytes(s: &[u8]) -> (r: bool)
    ensures
        r == all_printable(s@),
{
    let mut i: usize = 0;
    while i < s.len()
        invariant
            i <= s@.len(),
            forall|j: int| 0 <= j < i ==> printable(#[trigger] s@[j]),
        decreases s@.len() - i,
    {
        let c = s[i];
        if !(0x20 <= c && c <= 0x7e) {
            assert(!printable(s@[i as int]));
            return false;
        }
        i = i + 1;
    }
    true
}

/// The word at `p`.
fn word_at(data: &[u8], e: Endian, p: usize, file_size: usize) -> (w: AmtaWord)
    requires
        p + 4 <= data@.len(),
    ensures
        word_is(data@, e, p as int, file_size as int, w),
{
    let reader = BinaryReader::with_endian(data, e);
    let unsigned = match reader.read_u32_at(p) {
        Ok(v) => v,
        Err(_) => 0,
    };
    let mut raw_hex = String::new();
    push_hex_upper(&mut raw_hex, unsigned as u64, 8);
    let bytes = &data[p..p + 4];
    assert(bytes@ == data@.subrange(p as int, p + 4));
    let ascii = if printable_bytes(bytes) {
        Some(string_from_utf8_lossy(bytes))
    } else {
        None
    };
    let target = if unsigned != 0 && (unsigned as usize) < file_size {
        Some(unsigned as usize)
    } else {
        None
    };
    AmtaWord {
        offset: p,
        raw_hex,
        unsigned,
        signed: to_i32(unsigned),
        float: if shows_float(unsigned) {
            Some(unsigned)
        } else {
            None
        },
        ascii,
        target,
    }
}

/// The whole words from `start` up to `end`, shown every way.
pub fn words(data: &[u8], e: Endian, start: usize, end: usize, file_size: usize) -> (r: Vec<AmtaWord>)
    requires
        end <= data@.len(),
    ensures
        words_are(data@, e, start as int, end as int, file_size as int, r@),
{
    let mut result: Vec<AmtaWord> = Vec::new();
    if start > end {
        return result;
    }
    let mut at = start;
    while end - at >= 4
        invariant
            start <= at <= end <= data@.len(),
            (at - start) % 4 == 0,
            result@.len() == (at - start) / 4,
            forall|k: int|
                0 <= k < result@.len() ==> word_is(
                    data@,
                    e,
                    start + 4 * k,
                    file_size as int,
                    #[trigger] result@[k],
                ),
        decreases end - at,
    {
        let w = word_at(data, e, at, file_size);
        result.push(w);
        at = at + 4;
    }
    assert(result@.len() == word_count(start as int, end as int));
    result
}

/// A header field of an AMTA file: its name, where it lies, its value in hexadecimal
/// and as a number, and for an offset field that points into the file, its target.
#[derive(Clone, Debug)]
pub struct AmtaHeaderField {
    pub name: String,
    pub offset: usize,
    pub raw_hex: String,
    pub value: u32,
    pub target: Option<usize>,
}

/// The number of header fields of a version: seven in version 5, else four.
pub open spec fn field_count(version: u8) -> int {
    if version == 5 {
        7
    } else {
        4
    }
}

/// The name of header field `k`.
pub open spec fn field_name(version: u8, k: int) -> Seq<char> {
    if version == 5 {
        if k == 0 {
            "unknown_0c"@
        } else if k == 1 {
            "data_offset"@
        } else if k == 2 {
            "section_1_offset"@
        } else if k == 3 {
            "minf_offset"@
        } else if k == 4 {
            "section_3_offset"@
        } else if k == 5 {
            "unknown_20"@
        } else {
            "string_table_offset"@
        }
    } else {
        if k == 0 {
            "section_0_offset"@
        } else if k == 1 {
            "section_1_offset"@
        } else if k == 2 {
            "section_2_offset"@
        } else {
            "string_table_offset"@
        }
    }
}

/// The header fields in file order: in version 5 "unknown_0c", "data_offset",
/// "section_1_offset", "minf_offset", "section_3_offset", "unknown_20" and
/// "string_table_offset"; in every other version "section_0_offset",
/// "section_1_offset", "section_2_offset" and "string_table_offset". The fields are
/// the words at 0x0c, 0x10, 0x14, ..., and each is an offset but the two unknown
/// words of version 5.
pub proof fn lemma_field_names(version: u8)
    ensures
        field_at(0) == 0x0c && field_at(1) == 0x10 && field_at(2) == 0x14 && field_at(3) == 0x18,
        field_at(4) == 0x1c && field_at(5) == 0x20 && field_at(6) == 0x24,
        !field_is_offset(5, 0) && !field_is_offset(5, 5),
        field_is_offset(5, 1) && field_is_offset(5, 2) && field_is_offset(5, 3),
        field_is_offset(5, 4) && field_is_offset(5, 6),
        version != 5 ==> forall|k: int| 0 <= k < 4 ==> #[trigger] field_is_offset(version, k),
        field_count(5) == 7,
        field_name(5, 0) == "unknown_0c"@,
        field_name(5, 1) == "data_offset"@,
        field_name(5, 2) == "section_1_offset"@,
        field_name(5, 3) == "minf_offset"@,
        field_name(5, 4) == "section_3_offset"@,
        field_name(5, 5) == "unknown_20"@,
        field_name(5, 6) == "string_table_offset"@,
        version != 5 ==> field_count(version) == 4,
        version != 5 ==> field_name(version, 0) == "section_0_offset"@,
        version != 5 ==> field_name(version, 1) == "section_1_offset"@,
        version != 5 ==> field_name(version, 2) == "section_2_offset"@,
        version != 5 ==> field_name(version, 3) == "string_table_offset"@,
{
}

/// The section an offset field names: the field's name without `_offset`.
pub open spec fn field_source(version: u8, k: int) -> Seq<char> {
    if version == 5 {
        if k == 1 {
            "data"@
        } else if k == 2 {
            "section_1"@
        } else if k == 3 {
            "minf"@
        } else if k == 4 {
            "section_3"@
        } else {
            "string_table"@
        }
    } else {
        if k == 0 {
            "section_0"@
        } else if k == 1 {
            "section_1"@
        } else if k == 2 {
            "section_2"@
        } else {
            "string_table"@
        }
    }
}

/// The section an offset field points at is named by the field's name without the
/// suffix "_offset".
pub proof fn lemma_field_source_names(version: u8, k: int)
    requires
        0 <= k < field_count(version),
        field_is_offset(version, k),
    ensures
        field_name(version, k) == field_source(version, k) + "_offset"@,
{
    reveal_strlit("_offset");
    reveal_strlit("data_offset");
    reveal_strlit("data");
    reveal_strlit("section_0_offset");
    reveal_strlit("section_0");
    reveal_strlit("section_1_offset");
    reveal_strlit("section_1");
    reveal_strlit("section_2_offset");
    reveal_strlit("section_2");
    reveal_strlit("section_3_offset");
    reveal_strlit("section_3");
    reveal_strlit("minf_offset");
    reveal_strlit("minf");
    reveal_strlit("string_table_offset");
    reveal_strlit("string_table");
    assert(field_name(version, k) =~= field_source(version, k) + "_offset"@);
}

/// The section name of field `k` in capitals.
pub open spec fn field_source_upper(version: u8, k: int) -> Seq<char> {
    if version == 5 {
        if k == 1 {
            "DATA"@
        } else if k == 2 {
            "SECTION_1"@
        } else if k == 3 {
            "MINF"@
        } else if k == 4 {
            "SECTION_3"@
        } else {
            "STRING_TABLE"@
        }
    } else {
        if k == 0 {
            "SECTION_0"@
        } else if k == 1 {
            "SECTION_1"@
        } else if k == 2 {
            "SECTION_2"@
        } else {
            "STRING_TABLE"@
        }
    }
}

/// Where header field `k` lies: the fields are consecutive words from 0x0c.
pub open spec fn field_at(k: int) -> int {
    0x0c + 4 * k
}

/// Whether header field `k` is an offset: in version 5 all but the two unknown
/// words, else all.
pub open spec fn field_is_offset(version: u8, k: int) -> bool {
    if version == 5 {
        k != 0 && k != 5
    } else {
        true
    }
}

/// The name, the offset flag, the section name and that name in capitals of header
/// field `k`.
fn field_layout(version: u8, k: usize) -> (r: (&'static str, bool, &'static str, &'static str))
    requires
        k < field_count(version),
    ensures
        r.0@ == field_name(version, k as int),
        r.1 == field_is_offset(version, k as int),
        field_is_offset(version, k as int) ==> r.2@ == field_source(version, k as int) && r.3@
            == field_source_upper(version, k as int),
{
    if version == 5 {
        if k == 0 {
            ("unknown_0c", false, "", "")
        } else if k == 1 {
            ("data_offset", true, "data", "DATA")
        } else if k == 2 {
            ("section_1_offset", true, "section_1", "SECTION_1")
        } else if k == 3 {
            ("minf_offset", true, "minf", "MINF")
        } else if k == 4 {
            ("section_3_offset", true, "section_3", "SECTION_3")
        } else if k == 5 {
            ("unknown_20", false, "", "")
        } else {
            ("string_table_offset", true, "string_table", "STRING_TABLE")
        }
    } else {
        if k == 0 {
            ("section_0_offset", true, "section_0", "SECTION_0")
        } else if k == 1 {
            ("section_1_offset", true, "section_1", "SECTION_1")
        } else if k == 2 {
            ("section_2_offset", true, "section_2", "SECTION_2")
        } else {
            ("string_table_offset", true, "string_table", "STRING_TABLE")
        }
    }
}

/// The byte order of an AMTA file: little-endian for the mark FF FE, else big-endian.
pub open spec fn amta_endian(b: Seq<u8>) -> Endian {
    if b[4] == 0xff && b[5] == 0xfe {
        Endian::Little
    } else {
        Endian::Big
    }
}

/// The value of header field `k`.
pub open spec fn field_value(b: Seq<u8>, k: int) -> u32 {
    u32_at(b, field_at(k), amta_endian(b))
}

/// The target of header field `k`: its value, when it is a non-zero offset inside the
/// file of `file_size` bytes.
pub open spec fn field_target(b: Seq<u8>, file_size: int, k: int) -> Option<usize> {
    let v = field_value(b, k);
    if field_is_offset(b[7], k) && v != 0 && v < file_size {
        Some(v as usize)
    } else {
        None
    }
}

/// Whether `f` is header field `k` of the file.
pub open spec fn header_field_is(b: Seq<u8>, file_size: int, k: int, f: AmtaHeaderField) -> bool {
    &&& f.name@ == field_name(b[7], k)
    &&& f.offset == field_at(k)
    &&& f.raw_hex@ == hex_fixed_upper(field_value(b, k) as nat, 8)
    &&& f.value == field_value(b, k)
    &&& f.target == field_target(b, file_size, k)
}

/// The notes on the first `n` header fields: one for each offset field that points
/// outside the file.
pub open spec fn field_notes(b: Seq<u8>, file_size: int, n: int) -> Seq<Seq<char>>
    decreases n,
{
    if n <= 0 {
        Seq::empty()
    } else {
        let k = n - 1;
        let v = field_value(b, k);
        let before = field_notes(b, file_size, k);
        if field_is_offset(b[7], k) && v != 0 && field_target(b, file_size, k) is None {
            before.push(field_name(b[7], k) + " points outside the file: 0x"@ + hex_padded(v as nat, 1))
        } else {
            before
        }
    }
}

/// The header fields and the notes on them, with the notes that came before.
#[verifier::rlimit(40)]
fn read_header_fields(data: &[u8], file_size: usize, notes: &mut Vec<String>) -> (r: Vec<AmtaHeaderField>)
    requires
        data@.len() >= 0x28 || (data@[7] != 5 && data@.len() >= 0x1c),
    ensures
        r@.len() == field_count(data@[7]),
        forall|k: int| 0 <= k < r@.len() ==> header_field_is(data@, file_size as int, k, #[trigger] r@[k]),
        final(notes)@.map_values(|s: String| s@) == old(notes)@.map_values(|s: String| s@) + field_notes(
            data@,
            file_size as int,
            field_count(data@[7]),
        ),
{
    let ghost b = data@;
    let version = data[7];
    let e = if data[4] == 0xff && data[5] == 0xfe {
        Endian::Little
    } else {
        Endian::Big
    };
    let reader = BinaryReader::with_endian(data, e);
    let count: usize = if version == 5 { 7 } else { 4 };
    let mut fields: Vec<AmtaHeaderField> = Vec::new();
    let mut k: usize = 0;
    while k < count
        invariant
            b == data@,
            version == b[7],
            e == amta_endian(b),
            reader.bytes() == b,
            reader.order() == e,
            count == field_count(version),
            b.len() >= 0x28 || (version != 5 && b.len() >= 0x1c),
            k <= count,
            fields@.len() == k,
            forall|j: int| 0 <= j < k ==> header_field_is(b, file_size as int, j, #[trigger] fields@[j]),
            notes@.map_values(|s: String| s@) == old(notes)@.map_values(|s: String| s@) + field_notes(
                b,
                file_size as int,
                k as int,
            ),
        decreases count - k,
    {
        let (name, is_offset, _, _) = field_layout(version, k);
        let at = 0x0c + 4 * k;
        let value = match reader.read_u32_at(at) {
            Ok(v) => v,
            Err(_) => 0,
        };
        assert(value == field_value(b, k as int));
        let target = if is_offset && value != 0 && (value as usize) < file_size {
            Some(value as usize)
        } else {
            None
        };
        let ghost before = notes@;
        if is_offset && value != 0 && target.is_none() {
            let mut note = String::from_str(name);
            note.append(" points outside the file: 0x");
            push_hex(&mut note, value as u64, 1);
            notes.push(note);
            proof {
                assert(notes@.map_values(|s: String| s@) =~= before.map_values(|s: String| s@).push(note@));
            }
        }
        let mut raw_hex = String::new();
        push_hex_upper(&mut raw_hex, value as u64, 8);
        fields.push(AmtaHeaderField { name: String::from_str(name), offset: at, raw_hex, value, target });
        k = k + 1;
    }
    fields
}

/// The smallest target above `prev` among the first `k` header fields.
pub open spec fn next_target(b: Seq<u8>, file_size: int, k: int, prev: int) -> Option<int>
    decreases k,
{
    if k <= 0 {
        None
    } else {
        let rest = next_target(b, file_size, k - 1, prev);
        match field_target(b, file_size, k - 1) {
            Some(t) => if t > prev && (rest is None || t < rest->Some_0) {
                Some(t as int)
            } else {
                rest
            },
            None => rest,
        }
    }
}

/// The first header field from `from` on, before `n`, whose target is `o`.
pub open spec fn first_with(b: Seq<u8>, file_size: int, n: int, o: int, from: int) -> Option<int>
    decreases n - from,
{
    if from >= n {
        None
    } else if field_target(b, file_size, from) == Some(o as usize) {
        Some(from)
    } else {
        first_with(b, file_size, n, o, from + 1)
    }
}

proof fn lemma_next_target(b: Seq<u8>, file_size: int, k: int, prev: int)
    ensures
        next_target(b, file_size, k, prev) matches Some(t) ==> exists|j: int|
            0 <= j < k && field_target(b, file_size, j) == Some(t as usize) && t > prev && 0 <= t
                < file_size,
    decreases k,
{
    if k > 0 {
        lemma_next_target(b, file_size, k - 1, prev);
    }
}

proof fn lemma_first_with(b: Seq<u8>, file_size: int, n: int, o: int, from: int, j: int)
    requires
        from <= j < n,
        field_target(b, file_size, j) == Some(o as usize),
    ensures
        first_with(b, file_size, n, o, from) is Some,
    decreases j - from,
{
    if field_target(b, file_size, from) != Some(o as usize) {
        lemma_first_with(b, file_size, n, o, from + 1, j);
    }
}

/// The sections above `prev`, in increasing order, at most `fuel` of them: each
/// distinct target of a header field, with the first field that names it.
pub open spec fn sections_from(b: Seq<u8>, file_size: int, prev: int, fuel: nat) -> Seq<(int, int)>
    decreases fuel,
{
    if fuel == 0 {
        Seq::empty()
    } else {
        let n = field_count(b[7]);
        match next_target(b, file_size, n, prev) {
            None => Seq::empty(),
            Some(t) => seq![(t, first_with(b, file_size, n, t, 0)->Some_0)] + sections_from(
                b,
                file_size,
                t,
                (fuel - 1) as nat,
            ),
        }
    }
}

/// The sections of an AMTA file: the distinct targets of its header fields in
/// increasing order, each with the first field that names it. There is at most one
/// per field.
pub open spec fn amta_sections(b: Seq<u8>, file_size: int) -> Seq<(int, int)> {
    sections_from(b, file_size, -1, field_count(b[7]) as nat)
}

/// The sections, computed from the header fields read.
#[verifier::rlimit(40)]
fn section_list(data: &[u8], file_size: usize, fields: &Vec<AmtaHeaderField>) -> (r: Vec<(usize, usize)>)
    requires
        data@.len() > 7,
        fields@.len() == field_count(data@[7]),
        forall|k: int| 0 <= k < fields@.len() ==> header_field_is(data@, file_size as int, k, #[trigger] fields@[k]),
    ensures
        r@.len() == amta_sections(data@, file_size as int).len(),
        forall|i: int|
            0 <= i < r@.len() ==> r@[i].0 == amta_sections(data@, file_size as int)[i].0 && r@[i].1
                == amta_sections(data@, file_size as int)[i].1,
{
    let ghost b = data@;
    let ghost fs = file_size as int;
    let n = fields.len();
    let ghost all = amta_sections(b, fs);
    let mut out: Vec<(usize, usize)> = Vec::new();
    let mut prev: usize = 0;
    let mut started = false;
    let mut round: usize = 0;
    let mut done = false;
    let ghost mut rest: Seq<(int, int)> = all;
    while round < n && !done
        invariant
            n == fields@.len(),
            n == field_count(b[7]),
            forall|k: int| 0 <= k < n ==> header_field_is(b, fs, k, #[trigger] fields@[k]),
            round <= n,
            all == amta_sections(b, fs),
            !done ==> rest == sections_from(b, fs, if started { prev as int } else { -1 }, (n - round) as nat),
            done ==> rest == Seq::<(int, int)>::empty(),
            out@.len() + rest.len() == all.len(),
            forall|i: int| 0 <= i < out@.len() ==> out@[i].0 == all[i].0 && out@[i].1 == all[i].1,
            forall|i: int| 0 <= i < rest.len() ==> rest[i] == all[out@.len() + i],
        decreases n - round, if done { 0int } else { 1int },
    {
        let ghost p: int = if started { prev as int } else { -1 };
        let mut best: Option<usize> = None;
        let mut j: usize = 0;
        while j < n
            invariant
                n == fields@.len(),
                forall|k: int| 0 <= k < n ==> header_field_is(b, fs, k, #[trigger] fields@[k]),
                j <= n,
                p == (if started { prev as int } else { -1 }),
                best == (match next_target(b, fs, j as int, p) {
                    Some(t) => Some(t as usize),
                    None => None::<usize>,
                }),
                forall|t: int| next_target(b, fs, j as int, p) == Some(t) ==> 0 <= t <= usize::MAX,
            decreases n - j,
        {
            assert(header_field_is(b, fs, j as int, fields@[j as int]));
            match fields[j].target {
                Some(t) => {
                    let above = !started || t > prev;
                    let better = match best {
                        None => true,
                        Some(x) => t < x,
                    };
                    if above && better {
                        best = Some(t);
                    }
                },
                None => {},
            }
            j = j + 1;
        }
        match best {
            None => {
                done = true;
                proof {
                    rest = Seq::empty();
                }
            },
            Some(t) => {
                let mut first: usize = 0;
                let mut found = false;
                while first < n && !found
                    invariant
                        n == fields@.len(),
                        forall|k: int| 0 <= k < n ==> header_field_is(b, fs, k, #[trigger] fields@[k]),
                        first <= n,
                        !found ==> first_with(b, fs, n as int, t as int, 0) == first_with(b, fs, n as int, t as int, first as int),
                        found ==> first < n && first_with(b, fs, n as int, t as int, 0) == Some(first as int),
                    decreases n - first, if found { 0int } else { 1int },
                {
                    assert(header_field_is(b, fs, first as int, fields@[first as int]));
                    let hit = match fields[first].target {
                        Some(x) => x == t,
                        None => false,
                    };
                    if hit {
                        found = true;
                    } else {
                        first = first + 1;
                    }
                }
                proof {
                    lemma_next_target(b, fs, n as int, p);
                    let w = choose|w: int|
                        0 <= w < n && field_target(b, fs, w) == Some(t) && t > p && 0 <= t < fs;
                    lemma_first_with(b, fs, n as int, t as int, 0, w);
                    if !found {
                        assert(first_with(b, fs, n as int, t as int, first as int) is None);
                    }
                    assert(found);
                    assert(next_target(b, fs, n as int, p) == Some(t as int));
                    assert(rest == sections_from(b, fs, p, (n - round) as nat));
                    assert(rest[0] == (t as int, first as int));
                    assert(all[out@.len() as int] == rest[0]);
                }
                out.push((t, first));
                proof {
                    rest = rest.drop_first();
                }
                prev = t;
                started = true;
            },
        }
        round = round + 1;
    }
    out
}

/// One section of an AMTA file, described for an inspector: its magic (its first four
/// bytes when they are graphic ASCII, else its section name in capitals), its extent,
/// alignment and byte counts, a hexadecimal preview, its strings and its words.
#[derive(Clone, Debug)]
pub struct AmtaChunk {
    pub magic: String,
    pub source: String,
    pub offset: usize,
    pub end_offset: usize,
    pub size: usize,
    pub alignment: usize,
    pub zero_bytes: usize,
    pub nonzero_bytes: usize,
    pub preview_hex: String,
    pub strings: Vec<String>,
    pub string_entries: Vec<AmtaString>,
    pub words: Vec<AmtaWord>,
}

/// The number of zero bytes in `s`.
pub open spec fn count_zeros(s: Seq<u8>) -> int
    decreases s.len(),
{
    if s.len() == 0 {
        0
    } else {
        count_zeros(s.drop_last()) + if s.last() == 0 {
            1int
        } else {
            0int
        }
    }
}

/// Whether a byte is graphic ASCII: printable and not a space.
pub open spec fn graphic(c: u8) -> bool {
    0x21 <= c <= 0x7e
}

/// The magic of the chunk from `o` to `end`: its first four bytes when there are four
/// and all are graphic ASCII, else `fallback`.
pub open spec fn chunk_magic(b: Seq<u8>, o: int, end: int, fallback: Seq<char>) -> Seq<char> {
    if end - o >= 4 && graphic(b[o]) && graphic(b[o + 1]) && graphic(b[o + 2]) && graphic(b[o + 3]) {
        utf8_lossy(b.subrange(o, o + 4))
    } else {
        fallback
    }
}

/// Whether `c` describes the chunk from `o` to `end` of a file of `file_size` bytes in
/// byte order `e`, the section that header field `k` names.
pub open spec fn chunk_is(b: Seq<u8>, e: Endian, file_size: int, o: int, end: int, k: int, c: AmtaChunk) -> bool {
    let bytes = b.subrange(o, end);
    &&& c.magic@ == chunk_magic(b, o, end, field_source_upper(b[7], k))
    &&& c.source@ == field_source(b[7], k)
    &&& c.offset == o
    &&& c.end_offset == end
    &&& c.size == end - o
    &&& c.alignment == alignment_of(o as nat)
    &&& c.zero_bytes == count_zeros(bytes)
    &&& c.nonzero_bytes == (end - o) - count_zeros(bytes)
    &&& c.preview_hex@ == hex_preview_of(bytes, 64)
    &&& strings_match(c.string_entries@, strings_from(b, o, end))
    &&& c.strings@.len() == c.string_entries@.len()
    &&& forall|i: int| 0 <= i < c.strings@.len() ==> #[trigger] c.strings@[i]@ == c.string_entries@[i].value@
    &&& words_are(b, e, o, end, file_size, c.words@)
}

/// The number of zero bytes in `s`.
fn zeros_in(s: &[u8]) -> (n: usize)
    ensures
        n == count_zeros(s@),
{
    let mut n: usize = 0;
    let mut i: usize = 0;
    while i < s.len()
        invariant
            i <= s@.len(),
            n == count_zeros(s@.subrange(0, i as int)),
            n <= i,
        decreases s@.len() - i,
    {
        assert(s@.subrange(0, i + 1).drop_last() =~= s@.subrange(0, i as int));
        if s[i] == 0 {
            n = n + 1;
        }
        i = i + 1;
    }
    assert(s@.subrange(0, s@.len() as int) =~= s@);
    n
}

/// Copies of the strings' texts.
fn string_values(entries: &Vec<AmtaString>) -> (r: Vec<String>)
    ensures
        r@.len() == entries@.len(),
        forall|i: int| 0 <= i < r@.len() ==> #[trigger] r@[i]@ == entries@[i].value@,
{
    let mut out: Vec<String> = Vec::new();
    let mut i: usize = 0;
    while i < entries.len()
        invariant
            i <= entries@.len(),
            out@.len() == i,
            forall|j: int| 0 <= j < i ==> #[trigger] out@[j]@ == entries@[j].value@,
        decreases entries@.len() - i,
    {
        out.push(entries[i].value.clone());
        i = i + 1;
    }
    out
}

/// The chunk from `offset` to `end`, the section named by header field `k`.
fn read_chunk(
    data: &[u8],
    e: Endian,
    file_size: usize,
    offset: usize,
    end: usize,
    k: usize,
) -> (c: AmtaChunk)
    requires
        offset < end <= file_size <= data@.len(),
        data@.len() > 7,
        k < field_count(data@[7]),
        field_is_offset(data@[7], k as int),
    ensures
        chunk_is(data@, e, file_size as int, offset as int, end as int, k as int, c),
{
    let (_, _, source, upper) = field_layout(data[7], k);
    let bytes = &data[offset..end];
    assert(bytes@ == data@.subrange(offset as int, end as int));
    let magic = if bytes.len() >= 4 && 0x21 <= bytes[0] && bytes[0] <= 0x7e && 0x21 <= bytes[1] && bytes[1] <= 0x7e
        && 0x21 <= bytes[2] && bytes[2] <= 0x7e && 0x21 <= bytes[3] && bytes[3] <= 0x7e {
        let head = &data[offset..offset + 4];
        assert(head@ == data@.subrange(offset as int, offset + 4));
        string_from_utf8_lossy(head)
    } else {
        String::from_str(upper)
    };
    let string_entries = strings(data, offset, end);
    let strings = string_values(&string_entries);
    let words = words(data, e, offset, end, file_size);
    let zero_bytes = zeros_in(bytes);
    proof {
        assert(zero_bytes <= bytes@.len()) by {
            lemma_count_zeros_bound(bytes@);
        }
    }
    AmtaChunk {
        magic,
        source: String::from_str(source),
        offset,
        end_offset: end,
        size: end - offset,
        alignment: alignment(offset),
        zero_bytes,
        nonzero_bytes: bytes.len() - zero_bytes,
        preview_hex: hex_preview(bytes, 64),
        strings,
        string_entries,
        words,
    }
}

proof fn lemma_count_zeros_bound(s: Seq<u8>)
    ensures
        0 <= count_zeros(s) <= s.len(),
    decreases s.len(),
{
    if s.len() > 0 {
        lemma_count_zeros_bound(s.drop_last());
    }
}

proof fn lemma_first_with_target(b: Seq<u8>, file_size: int, n: int, o: int, from: int)
    ensures
        first_with(b, file_size, n, o, from) matches Some(k) ==> from <= k < n && field_target(b, file_size, k)
            == Some(o as usize),
    decreases n - from,
{
    if from < n && field_target(b, file_size, from) != Some(o as usize) {
        lemma_first_with_target(b, file_size, n, o, from + 1);
    }
}

/// The sections rise above `prev`, lie inside the file, and each names an offset
/// field whose target it is.
proof fn lemma_sections(b: Seq<u8>, file_size: int, prev: int, fuel: nat)
    requires
        b.len() > 7,
    ensures
        forall|i: int|
            0 <= i < sections_from(b, file_size, prev, fuel).len() ==> {
                let (o, k) = #[trigger] sections_from(b, file_size, prev, fuel)[i];
                &&& prev < o < file_size
                &&& 0 <= k < field_count(b[7])
                &&& field_target(b, file_size, k) == Some(o as usize)
                &&& field_is_offset(b[7], k)
                &&& i + 1 < sections_from(b, file_size, prev, fuel).len() ==> o < sections_from(
                    b,
                    file_size,
                    prev,
                    fuel,
                )[i + 1].0
            },
    decreases fuel,
{
    if fuel > 0 {
        let n = field_count(b[7]);
        lemma_next_target(b, file_size, n, prev);
        match next_target(b, file_size, n, prev) {
            None => {},
            Some(t) => {
                let w = choose|w: int|
                    0 <= w < n && field_target(b, file_size, w) == Some(t as usize) && t > prev && 0 <= t
                        < file_size;
                lemma_first_with(b, file_size, n, t, 0, w);
                lemma_first_with_target(b, file_size, n, t, 0);
                lemma_sections(b, file_size, t, (fuel - 1) as nat);
                let tail = sections_from(b, file_size, t, (fuel - 1) as nat);
                let all = sections_from(b, file_size, prev, fuel);
                assert(all == seq![(t, first_with(b, file_size, n, t, 0)->Some_0)] + tail);
                assert forall|i: int| 0 <= i < all.len() implies {
                    let (o, k) = #[trigger] all[i];
                    &&& prev < o < file_size
                    &&& 0 <= k < field_count(b[7])
                    &&& field_target(b, file_size, k) == Some(o as usize)
                    &&& field_is_offset(b[7], k)
                    &&& i + 1 < all.len() ==> o < all[i + 1].0
                } by {
                    if i > 0 {
                        assert(all[i] == tail[i - 1]);
                        if i + 1 < all.len() {
                            assert(all[i + 1] == tail[i]);
                        }
                    } else {
                        let k = first_with(b, file_size, n, t, 0)->Some_0;
                        assert(all[0] == (t, k));
                        assert(field_target(b, file_size, k) == Some(t as usize));
                        if all.len() > 1 {
                            assert(all[1] == tail[0]);
                            assert(tail[0].0 > t);
                        }
                    }
                }
            },
        }
    }
}

/// The full description of an AMTA file: its header, its header fields, the strings
/// of the whole file, one chunk per section, totals, and notes on anything odd.
#[derive(Clone, Debug)]
pub struct AmtaFile {
    pub magic: String,
    pub version: u8,
    pub byte_order: String,
    pub byte_order_mark: String,
    pub declared_file_size: usize,
    pub file_size: usize,
    pub trailing_bytes: usize,
    pub header_size: usize,
    pub name: String,
    pub section_offsets: Vec<usize>,
    pub header_fields: Vec<AmtaHeaderField>,
    pub strings: Vec<AmtaString>,
    pub total_strings: usize,
    pub total_words: usize,
    pub total_zero_bytes: usize,
    pub chunks: Vec<AmtaChunk>,
    pub diagnostics: Vec<String>,
}

/// The file size the header declares at 8.
pub open spec fn amta_declared(b: Seq<u8>) -> int {
    u32_at(b, 8, amta_endian(b)) as int
}

/// The size of the file as read: the declared size, capped at the bytes present, or
/// all of them when it declares none.
pub open spec fn amta_file_size(b: Seq<u8>) -> int {
    let d = amta_declared(b);
    if d == 0 {
        b.len() as int
    } else if d < b.len() {
        d
    } else {
        b.len() as int
    }
}

/// The header size of a version: 0x28 for version 5, else 0x1c.
pub open spec fn amta_header_size(version: u8) -> int {
    if version == 5 {
        0x28
    } else {
        0x1c
    }
}

/// Why `b` cannot be read as an AMTA file, if it cannot: no `AMTA` magic or fewer
/// than 0x1c bytes, a byte order mark other than FF FE or FE FF, or a file size
/// smaller than the header.
pub open spec fn amta_error(b: Seq<u8>) -> Option<Seq<char>> {
    if !(b.len() >= 0x1c && b[0] == 0x41 && b[1] == 0x4d && b[2] == 0x54 && b[3] == 0x41) {
        Some("not an AMTA file"@)
    } else if !((b[4] == 0xff && b[5] == 0xfe) || (b[4] == 0xfe && b[5] == 0xff)) {
        Some("invalid AMTA byte order"@)
    } else if amta_file_size(b) < amta_header_size(b[7]) {
        Some("AMTA v"@ + decimal(b[7] as nat) + " header exceeds declared file size 0x"@ + hex_padded(
            amta_file_size(b) as nat,
            1,
        ))
    } else {
        None
    }
}

/// The note on a declared size that differs from the bytes present.
pub open spec fn declared_notes(b: Seq<u8>) -> Seq<Seq<char>> {
    let d = amta_declared(b);
    if d != 0 && d != b.len() {
        seq![
            "Declared size 0x"@ + hex_padded(d as nat, 1) + " differs from available size 0x"@ + hex_padded(
                b.len() as nat,
                1,
            ),
        ]
    } else {
        Seq::empty()
    }
}

/// Where section `i` ends: where the next begins, or at the end of the file.
pub open spec fn section_end(s: Seq<(int, int)>, file_size: int, i: int) -> int {
    if i + 1 < s.len() {
        s[i + 1].0
    } else {
        file_size
    }
}

/// The number of words in the first `n` sections.
pub open spec fn section_words(s: Seq<(int, int)>, file_size: int, n: int) -> int
    decreases n,
{
    if n <= 0 {
        0
    } else {
        section_words(s, file_size, n - 1) + word_count(s[n - 1].0, section_end(s, file_size, n - 1))
    }
}

/// The file's name: the one in its string table when there is one, else the last
/// string found in the file, else empty. The string table's offset is the last
/// header field.
pub open spec fn amta_name(b: Seq<u8>, file_size: int) -> Seq<char> {
    let table = field_target(b, file_size, field_count(b[7]) - 1);
    match explicit_name_at(b, file_size, b[7], table) {
        Some(n) => n,
        None => {
            let all = strings_from(b, 0, file_size);
            if all.len() > 0 {
                utf8_lossy(all.last().1)
            } else {
                Seq::empty()
            }
        },
    }
}

/// Whether `f` describes the AMTA file `b`.
pub open spec fn amta_is(b: Seq<u8>, f: AmtaFile) -> bool {
    let fs = amta_file_size(b);
    let s = amta_sections(b, fs);
    let little = amta_endian(b) == Endian::Little;
    &&& f.magic@ == "AMTA"@
    &&& f.version == b[7]
    &&& f.byte_order@ == (if little { "Little"@ } else { "Big"@ })
    &&& f.byte_order_mark@ == (if little { "FF FE"@ } else { "FE FF"@ })
    &&& f.declared_file_size == amta_declared(b)
    &&& f.file_size == fs
    &&& f.trailing_bytes == b.len() - fs
    &&& f.header_size == amta_header_size(b[7])
    &&& f.name@ == amta_name(b, fs)
    &&& f.section_offsets@.len() == s.len()
    &&& forall|i: int| 0 <= i < s.len() ==> #[trigger] f.section_offsets@[i] == s[i].0
    &&& f.header_fields@.len() == field_count(b[7])
    &&& forall|k: int| 0 <= k < f.header_fields@.len() ==> header_field_is(b, fs, k, #[trigger] f.header_fields@[k])
    &&& strings_match(f.strings@, strings_from(b, 0, fs))
    &&& f.total_strings == strings_from(b, 0, fs).len()
    &&& f.total_words == section_words(s, fs, s.len() as int)
    &&& f.total_zero_bytes == count_zeros(b.subrange(0, fs))
    &&& f.chunks@.len() == s.len()
    &&& forall|i: int|
        0 <= i < s.len() ==> chunk_is(b, amta_endian(b), fs, s[i].0, section_end(s, fs, i), s[i].1, #[trigger] f.chunks@[i])
    &&& f.diagnostics@.map_values(|m: String| m@) == declared_notes(b) + field_notes(b, fs, field_count(b[7]))
}

proof fn lemma_word_count_bound(o: int, end: int)
    requires
        o <= end,
    ensures
        0 <= word_count(o, end) <= end - o,
{
}

/// The offsets of the sections.
fn offsets_of(sections: &Vec<(usize, usize)>) -> (r: Vec<usize>)
    ensures
        r@.len() == sections@.len(),
        forall|j: int| 0 <= j < r@.len() ==> #[trigger] r@[j] == sections@[j].0,
{
    let mut out: Vec<usize> = Vec::new();
    let mut i: usize = 0;
    while i < sections.len()
        invariant
            i <= sections@.len(),
            out@.len() == i,
            forall|j: int| 0 <= j < i ==> #[trigger] out@[j] == sections@[j].0,
        decreases sections@.len() - i,
    {
        out.push(sections[i].0);
        i = i + 1;
    }
    out
}

/// One chunk per section, and the number of words in them all.
#[verifier::rlimit(40)]
fn chunks_of(data: &[u8], e: Endian, file_size: usize, sections: &Vec<(usize, usize)>) -> (r: (
    Vec<AmtaChunk>,
    usize,
))
    requires
        data@.len() >= 0x1c,
        file_size <= data@.len(),
        sections@.len() == amta_sections(data@, file_size as int).len(),
        forall|j: int|
            0 <= j < sections@.len() ==> sections@[j].0 == amta_sections(data@, file_size as int)[j].0
                && sections@[j].1 == amta_sections(data@, file_size as int)[j].1,
    ensures
        ({
            let s = amta_sections(data@, file_size as int);
            &&& r.0@.len() == s.len()
            &&& forall|j: int|
                0 <= j < s.len() ==> chunk_is(
                    data@,
                    e,
                    file_size as int,
                    s[j].0,
                    section_end(s, file_size as int, j),
                    s[j].1,
                    #[trigger] r.0@[j],
                )
            &&& r.1 == section_words(s, file_size as int, s.len() as int)
        }),
{
    let ghost b = data@;
    let ghost fs = file_size as int;
    let ghost s = amta_sections(b, fs);
    proof {
        lemma_sections(b, fs, -1, field_count(b[7]) as nat);
    }
    let mut chunks: Vec<AmtaChunk> = Vec::new();
    let mut total_words: usize = 0;
    let mut i: usize = 0;
    while i < sections.len()
        invariant
            b == data@,
            b.len() >= 0x1c,
            fs == file_size,
            file_size <= b.len(),
            s == amta_sections(b, fs),
            sections@.len() == s.len(),
            forall|j: int| 0 <= j < s.len() ==> sections@[j].0 == s[j].0 && sections@[j].1 == s[j].1,
            forall|j: int|
                0 <= j < s.len() ==> {
                    let (o, k) = #[trigger] s[j];
                    &&& -1 < o < fs
                    &&& 0 <= k < field_count(b[7])
                    &&& field_is_offset(b[7], k)
                    &&& j + 1 < s.len() ==> o < s[j + 1].0
                },
            i <= sections@.len(),
            chunks@.len() == i,
            forall|j: int|
                0 <= j < i ==> chunk_is(b, e, fs, s[j].0, section_end(s, fs, j), s[j].1, #[trigger] chunks@[j]),
            total_words == section_words(s, fs, i as int),
            total_words <= (if i == 0 { 0 } else { section_end(s, fs, i - 1) }),
        decreases sections@.len() - i,
    {
        let offset = sections[i].0;
        let end = if i + 1 < sections.len() {
            sections[i + 1].0
        } else {
            file_size
        };
        proof {
            let (o, k) = s[i as int];
            if i + 1 < s.len() {
                let (o2, k2) = s[i + 1];
            }
            if i > 0 {
                let (o0, k0) = s[i - 1];
                assert(section_end(s, fs, i - 1) == o);
            }
            lemma_word_count_bound(offset as int, end as int);
        }
        let chunk = read_chunk(data, e, file_size, offset, end, sections[i].1);
        total_words = total_words + chunk.words.len();
        chunks.push(chunk);
        i = i + 1;
    }
    (chunks, total_words)
}

/// The file's name: from its string table, else the last string found, else empty.
fn name_of(data: &[u8], file_size: usize, fields: &Vec<AmtaHeaderField>, all_strings: &Vec<AmtaString>) -> (r: String)
    requires
        data@.len() > 7,
        file_size <= data@.len(),
        fields@.len() == field_count(data@[7]),
        forall|k: int| 0 <= k < fields@.len() ==> header_field_is(data@, file_size as int, k, #[trigger] fields@[k]),
        strings_match(all_strings@, strings_from(data@, 0, file_size as int)),
    ensures
        r@ == amta_name(data@, file_size as int),
{
    let table = fields[fields.len() - 1].target;
    assert(header_field_is(data@, file_size as int, fields@.len() - 1, fields@[fields@.len() - 1]));
    match explicit_name(data, file_size, data[7], table) {
        Some(n) => n,
        None => {
            if all_strings.len() > 0 {
                all_strings[all_strings.len() - 1].value.clone()
            } else {
                String::new()
            }
        },
    }
}

/// The byte order, the declared size and the file size of an AMTA file, or why it
/// cannot be read.
fn amta_header(data: &[u8]) -> (r: Result<(bool, usize, usize), String>)
    ensures
        r is Ok <==> amta_error(data@) is None,
        r matches Err(m) ==> m@ == amta_error(data@)->Some_0,
        r matches Ok(h) ==> (h.0 <==> amta_endian(data@) == Endian::Little) && h.1 == amta_declared(data@)
            && h.2 == amta_file_size(data@) && data@.len() >= 0x1c && amta_header_size(data@[7]) <= h.2
            <= data@.len(),
{
    let ghost b = data@;
    if !(data.len() >= 0x1c && data[0] == 0x41 && data[1] == 0x4d && data[2] == 0x54 && data[3] == 0x41) {
        return Err(String::from_str("not an AMTA file"));
    }
    let little = if data[4] == 0xff && data[5] == 0xfe {
        true
    } else if data[4] == 0xfe && data[5] == 0xff {
        false
    } else {
        return Err(String::from_str("invalid AMTA byte order"));
    };
    let e = if little {
        Endian::Little
    } else {
        Endian::Big
    };
    let reader = BinaryReader::with_endian(data, e);
    let version = data[7];
    let declared = match reader.read_u32_at(8) {
        Ok(v) => v as usize,
        Err(_) => 0,
    };
    let file_size = if declared == 0 {
        data.len()
    } else if declared < data.len() {
        declared
    } else {
        data.len()
    };
    let header_size: usize = if version == 5 {
        0x28
    } else {
        0x1c
    };
    if file_size < header_size {
        let mut m = String::from_str("AMTA v");
        push_decimal(&mut m, version as u64);
        m.append(" header exceeds declared file size 0x");
        push_hex(&mut m, file_size as u64, 1);
        return Err(m);
    }
    Ok((little, declared, file_size))
}

impl AmtaFile {
    /// Reads an AMTA file for inspection. Fails, with the message the original tool
    /// gives, when there is no `AMTA` magic or fewer than 0x1c bytes, when the byte
    /// order mark is not FF FE or FE FF, or when the file size is smaller than the
    /// header. Header offsets that point outside the file and a declared size that
    /// differs from the bytes present are noted, not refused.
    #[verifier::rlimit(40)]
    pub fn parse(data: &[u8]) -> (r: Result<Self, String>)
        ensures
            r is Ok <==> amta_error(data@) is None,
            r matches Err(m) ==> m@ == amta_error(data@)->Some_0,
            r matches Ok(f) ==> amta_is(data@, f),
    {
        let ghost b = data@;
        let (little, declared, file_size) = amta_header(data)?;
        let e = if little {
            Endian::Little
        } else {
            Endian::Big
        };
        let version = data[7];
        let mut diagnostics: Vec<String> = Vec::new();
        if declared != 0 && declared != data.len() {
            let mut m = String::from_str("Declared size 0x");
            push_hex(&mut m, declared as u64, 1);
            m.append(" differs from available size 0x");
            push_hex(&mut m, data.len() as u64, 1);
            diagnostics.push(m);
        }
        assert(diagnostics@.map_values(|m: String| m@) =~= declared_notes(b));
        let header_fields = read_header_fields(data, file_size, &mut diagnostics);
        let sections = section_list(data, file_size, &header_fields);
        let section_offsets = offsets_of(&sections);
        let all_strings = strings(data, 0, file_size);
        let name = name_of(data, file_size, &header_fields, &all_strings);
        let (chunks, total_words) = chunks_of(data, e, file_size, &sections);
        let total_zero_bytes = zeros_in(&data[0..file_size]);
        assert(data@.subrange(0, file_size as int) == b.subrange(0, file_size as int));
        Ok(AmtaFile {
            magic: String::from_str("AMTA"),
            version,
            byte_order: String::from_str(
                if little {
                    "Little"
                } else {
                    "Big"
                },
            ),
            byte_order_mark: String::from_str(
                if little {
                    "FF FE"
                } else {
                    "FE FF"
                },
            ),
            declared_file_size: declared,
            file_size,
            trailing_bytes: data.len() - file_size,
            header_size: if version == 5 {
                0x28
            } else {
                0x1c
            },
            name,
            section_offsets,
            header_fields,
            total_strings: all_strings.len(),
            strings: all_strings,
            total_words,
            total_zero_bytes,
            chunks,
            diagnostics,
        })
    }
}

} // verus!
