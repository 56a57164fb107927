use vstd::prelude::*;
use crate::aoc::g1m::walk::{after, lemma_walk_done, lemma_walk_fail, lemma_walk_step, walk};
use crate::binary::{u32_at, BinaryReader, Endian};
use crate::error::{eof, invalid, Error, ErrorKind};
use crate::fmt::{hex_padded, push_hex};

verus! {

/// The little-endian word at `p`.
pub open spec fn kw(b: Seq<u8>, p: int) -> int {
    u32_at(b, p, Endian::Little) as int
}

/// The signature of a KidsObj file.
pub const KIDSOBJ_MAGIC: u32 = 0x4b4f_445f;

/// The signature of an object entry that names its texture.
pub const KIDSOBJ_OBJECT: u32 = 0x4b4f_4449;

/// The rows of the first `n` columns of the entry at `p`, added up.
pub open spec fn rows_total(b: Seq<u8>, p: int, n: int) -> int
    decreases n,
{
    if n <= 0 {
        0
    } else {
        rows_total(b, p, n - 1) + kw(b, p + 24 + 12 * (n - 1) + 4)
    }
}

/// Where the values of the entry at `p` start: after its 24-byte header and its
/// 12-byte column records.
pub open spec fn values_at(b: Seq<u8>, p: int) -> int {
    p + 24 + 12 * kw(b, p + 20)
}

/// Where the entry at `p` ends: after one word for each row of each column.
pub open spec fn entry_next(b: Seq<u8>, p: int) -> Option<int> {
    let v = values_at(b, p);
    let end = v + 4 * rows_total(b, p, kw(b, p + 20));
    if p < 0 || p + 24 > b.len() || v > b.len() || end > b.len() {
        None
    } else {
        Some(end)
    }
}

/// The step from one entry to the next.
pub open spec fn entry_step(b: Seq<u8>) -> spec_fn(int) -> Option<int> {
    |p: int| entry_next(b, p)
}

/// The first non-zero of the `n` words from `v`.
pub open spec fn first_nonzero(b: Seq<u8>, v: int, n: int) -> Option<u32>
    decreases n,
{
    if n <= 0 {
        None
    } else {
        match first_nonzero(b, v, n - 1) {
            Some(x) => Some(x),
            None => if kw(b, v + 4 * (n - 1)) != 0 {
                Some(u32_at(b, v + 4 * (n - 1), Endian::Little))
            } else {
                None
            },
        }
    }
}

/// The (object hash, texture hash) texts of the entries at `starts` that are object
/// entries with a non-zero value: the object hash and that first value as eight
/// lower-case hexadecimal digits.
pub open spec fn object_textures(b: Seq<u8>, starts: Seq<int>) -> Seq<(Seq<char>, Seq<char>)>
    decreases starts.len(),
{
    if starts.len() == 0 {
        Seq::empty()
    } else {
        let p = starts.last();
        let before = object_textures(b, starts.drop_last());
        match first_nonzero(b, values_at(b, p), rows_total(b, p, kw(b, p + 20))) {
            Some(t) => if kw(b, p) == KIDSOBJ_OBJECT {
                before.push((hex_padded(kw(b, p + 12) as nat, 8), hex_padded(t as nat, 8)))
            } else {
                before
            },
            None => before,
        }
    }
}

/// Whether a KidsObj file can be read: its signature, its entry count at 16, and its
/// entries from 28 on.
pub open spec fn kidsobj_ok(b: Seq<u8>) -> bool {
    &&& b.len() >= 28
    &&& kw(b, 0) == KIDSOBJ_MAGIC
    &&& walk(28, kw(b, 16) as nat, entry_step(b)) is Some
}

/// The eight-digit lower-case hexadecimal text of `v`.
fn hex8(v: u32) -> (s: String)
    ensures
        s@ == hex_padded(v as nat, 8),
{
    let mut s = String::new();
    push_hex(&mut s, v as u64, 8);
    s
}

/// Reads the entry at `p`: its object and texture hash texts when it is an object
/// entry with a non-zero value, and where it ends.
#[verifier::rlimit(40)]
fn read_entry(reader: &BinaryReader, p: usize) -> (r: Result<(Option<(String, String)>, usize), Error>)
    requires
        reader.wf(),
        reader.order() == Endian::Little,
    ensures
        r is Ok <==> entry_next(reader.bytes(), p as int) is Some,
        r matches Ok((x, q)) ==> {
            let b = reader.bytes();
            let t = first_nonzero(b, values_at(b, p as int), rows_total(b, p as int, kw(b, p + 20)));
            &&& entry_next(b, p as int) == Some(q as int)
            &&& (x is Some <==> (t is Some && kw(b, p as int) == KIDSOBJ_OBJECT))
            &&& x matches Some((h, tx)) ==> h@ == hex_padded(kw(b, p + 12) as nat, 8) && tx@ == hex_padded(
                t->Some_0 as nat,
                8,
            )
        },
{
    let ghost b = reader.bytes();
    let len = reader.len();
    if p > len || len - p < 24 {
        return Err(eof("KidsObj entry is truncated"));
    }
    let signature = reader.read_u32_at(p)?;
    let hash = reader.read_u32_at(p + 12)?;
    let columns = reader.read_u32_at(p + 20)? as usize;
    if columns > (len - p - 24) / 12 {
        return Err(eof("KidsObj columns are truncated"));
    }
    let v = p + 24 + 12 * columns;
    let room = (len - v) / 4;
    let mut total: usize = 0;
    let mut c: usize = 0;
    while c < columns
        invariant
            reader.wf(),
            b == reader.bytes(),
            reader.order() == Endian::Little,
            len == b.len(),
            columns == kw(b, p + 20),
            v == p + 24 + 12 * columns,
            v <= len,
            room == (len - v) / 4,
            c <= columns,
            total == rows_total(b, p as int, c as int),
            total <= room,
        decreases columns - c,
    {
        let rows = reader.read_u32_at(p + 24 + 12 * c + 4)? as usize;
        if rows > room - total {
            proof {
                lemma_rows_total_grows(b, p as int, c + 1, columns as int);
                assert(4 * rows_total(b, p as int, columns as int) > len - v);
            }
            return Err(eof("KidsObj values are truncated"));
        }
        total = total + rows;
        c = c + 1;
    }
    let ghost n = total as int;
    let mut first: Option<u32> = None;
    let mut i: usize = 0;
    while i < total
        invariant
            reader.wf(),
            b == reader.bytes(),
            reader.order() == Endian::Little,
            len == b.len(),
            v + 4 * total <= len,
            i <= total,
            first == first_nonzero(b, v as int, i as int),
        decreases total - i,
    {
        let value = reader.read_u32_at(v + 4 * i)?;
        if first.is_none() && value != 0 {
            first = Some(value);
        }
        i = i + 1;
    }
    let entry = if signature == KIDSOBJ_OBJECT {
        match first {
            Some(t) => Some((hex8(hash), hex8(t))),
            None => None,
        }
    } else {
        None
    };
    Ok((entry, v + 4 * total))
}

proof fn lemma_rows_total_grows(b: Seq<u8>, p: int, i: int, n: int)
    requires
        0 <= i <= n,
    ensures
        rows_total(b, p, i) <= rows_total(b, p, n),
    decreases n,
{
    if i < n {
        lemma_rows_total_grows(b, p, i, n - 1);
    }
}

/// Reads a KidsObj file: for each object entry, its object hash and the first
/// non-zero value of its rows, the texture hash, both as eight lower-case hexadecimal
/// digits, in file order; a later entry for the same object stands for it. Fails
/// with `InvalidData` on a wrong signature and with `UnexpectedEof` when an entry is
/// cut off.
#[verifier::rlimit(40)]
pub fn parse_kidsobj(data: &[u8]) -> (r: Result<Vec<(String, String)>, Error>)
    ensures
        r is Ok <==> kidsobj_ok(data@),
        r matches Ok(v) ==> {
            let expected = object_textures(data@, walk(28, kw(data@, 16) as nat, entry_step(data@))->Some_0.0);
            &&& v@.len() == expected.len()
            &&& forall|i: int|
                0 <= i < v@.len() ==> (#[trigger] v@[i]).0@ == expected[i].0 && v@[i].1@ == expected[i].1
        },
{
    let ghost b = data@;
    let reader = BinaryReader::with_endian(data, Endian::Little);
    let signature = reader.read_u32_at(0)?;
    if signature != KIDSOBJ_MAGIC {
        return Err(invalid("invalid KidsObj signature"));
    }
    if data.len() < 28 {
        return Err(eof("KidsObj header is truncated"));
    }
    let count = reader.read_u32_at(16)? as usize;
    let ghost step = entry_step(b);
    let mut result: Vec<(String, String)> = Vec::new();
    let mut pos: usize = 28;
    let mut k: usize = 0;
    let ghost mut done: Seq<int> = Seq::empty();
    assert(done + Seq::<int>::empty() =~= done);
    while k < count
        invariant
            reader.wf(),
            reader.bytes() == b,
            reader.order() == Endian::Little,
            b == data@,
            step == entry_step(b),
            k <= count,
            count == kw(b, 16),
            done.len() == k,
            after(Seq::empty(), walk(28, count as nat, step)) == after(done, walk(pos as int, (count - k) as nat, step)),
            result@.len() == object_textures(b, done).len(),
            forall|i: int|
                0 <= i < result@.len() ==> (#[trigger] result@[i]).0@ == object_textures(b, done)[i].0 && result@[i].1@
                    == object_textures(b, done)[i].1,
        decreases count - k,
    {
        let (entry, next) = match read_entry(&reader, pos) {
            Ok(x) => x,
            Err(err) => {
                proof {
                    lemma_walk_fail(done, pos as int, (count - k) as nat, step);
                }
                return Err(err);
            },
        };
        proof {
            lemma_walk_step(done, pos as int, next as int, (count - k) as nat, step);
        }
        let ghost nd = done.push(pos as int);
        assert(nd.drop_last() =~= done);
        match entry {
            Some(pair) => {
                result.push(pair);
            },
            None => {},
        }
        proof {
            done = nd;
        }
        pos = next;
        k = k + 1;
    }
    proof {
        lemma_walk_done(done, pos as int, step);
        assert(Seq::<int>::empty() + done =~= done);
    }
    Ok(result)
}

} // verus!
