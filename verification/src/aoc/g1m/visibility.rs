use vstd::prelude::*;
use crate::aoc::g1m::records::{extended, r32};
use crate::aoc::g1m::walk::{after, lemma_walk_done, lemma_walk_fail, lemma_walk_step, walk};
use crate::binary::{BinaryReader, Endian};
use crate::error::{eof, Error, ErrorKind};

verus! {

/// The header length of a visibility group record.
pub open spec fn group_header(version: u32) -> int {
    if version > 0x3030_3330 {
        if extended(version) {
            36
        } else {
            20
        }
    } else {
        12
    }
}

/// The number of entries of the visibility group record at `p`: the sum of its two
/// submesh counts.
pub open spec fn group_entries(b: Seq<u8>, e: Endian, version: u32, p: int) -> int {
    if version > 0x3030_3330 {
        r32(b, e, p + 12) + r32(b, e, p + 16)
    } else {
        r32(b, e, p + 4) + r32(b, e, p + 8)
    }
}

/// Where the visibility entry at `q` ends: 28 bytes whose last word counts the
/// submesh indices that follow, with one padding word when there are none.
pub open spec fn entry_next(b: Seq<u8>, e: Endian, q: int) -> Option<int> {
    let n = r32(b, e, q + 24);
    let end = q + 28 + if n == 0 { 4 } else { 4 * n };
    if q < 0 || q + 28 > b.len() || end > b.len() {
        None
    } else {
        Some(end)
    }
}

/// The step from one visibility entry to the next.
pub open spec fn entry_step(b: Seq<u8>, e: Endian) -> spec_fn(int) -> Option<int> {
    |q: int| entry_next(b, e, q)
}

/// Where the visibility group record at `p` ends: its header, then its entries.
pub open spec fn group_next(b: Seq<u8>, e: Endian, version: u32, p: int) -> Option<int> {
    let h = p + group_header(version);
    if p < 0 || h > b.len() {
        None
    } else {
        match walk(h, group_entries(b, e, version, p) as nat, entry_step(b, e)) {
            None => None,
            Some((starts, end)) => Some(end),
        }
    }
}

/// The submesh indices the entries starting at `starts` list.
pub open spec fn listed(b: Seq<u8>, e: Endian, starts: Seq<int>) -> Seq<usize>
    decreases starts.len(),
{
    if starts.len() == 0 {
        Seq::empty()
    } else {
        let q = starts.last();
        listed(b, e, starts.drop_last()) + Seq::new(
            r32(b, e, q + 24) as nat,
            |k: int| r32(b, e, q + 28 + 4 * k) as usize,
        )
    }
}

/// The entry starts of the visibility group record at `p`.
pub open spec fn group_entry_starts(b: Seq<u8>, e: Endian, version: u32, p: int) -> Seq<int> {
    walk(p + group_header(version), group_entries(b, e, version, p) as nat, entry_step(b, e))->Some_0.0
}

/// Reads the visibility group record at `p`; for the first group of a section its
/// listed submesh indices are appended to `visible`, which becomes `Some` once the
/// group has an entry.
pub fn read_visibility_group(
    reader: &BinaryReader,
    version: u32,
    p: usize,
    first: bool,
    visible: &mut Option<Vec<usize>>,
) -> (r: Result<usize, Error>)
    requires
        reader.wf(),
    ensures
        r is Ok <==> group_next(reader.bytes(), reader.order(), version, p as int) is Some,
        r matches Ok(q) ==> {
            let b = reader.bytes();
            let e = reader.order();
            let starts = group_entry_starts(b, e, version, p as int);
            &&& group_next(b, e, version, p as int) == Some(q as int)
            &&& (first && starts.len() > 0) ==> (*final(visible) matches Some(v) && v@ == match *old(visible) {
                Some(o) => o@,
                None => Seq::<usize>::empty(),
            } + listed(b, e, starts))
            &&& !(first && starts.len() > 0) ==> *final(visible) == *old(visible)
        },
        r matches Err(e) ==> e.kind == ErrorKind::UnexpectedEof,
{
    let ghost b = reader.bytes();
    let ghost e = reader.order();
    let ghost next = entry_step(b, e);
    let len = reader.len();
    let header: usize = if version > 0x3030_3330 {
        if version > 0x3030_3430 {
            36
        } else {
            20
        }
    } else {
        12
    };
    if p > len || len - p < header {
        return Err(eof("G1M visibility group is truncated"));
    }
    let (c1, c2) = if version > 0x3030_3330 {
        (reader.read_u32_at(p + 12)?, reader.read_u32_at(p + 16)?)
    } else {
        (reader.read_u32_at(p + 4)?, reader.read_u32_at(p + 8)?)
    };
    let count: u64 = c1 as u64 + c2 as u64;
    let ghost total = group_entries(b, e, version, p as int);
    assert(count == total);
    let ghost start_visible = *visible;
    let mut q: usize = p + header;
    let mut k: u64 = 0;
    let ghost mut done: Seq<int> = Seq::empty();
    proof {
        assert(done + Seq::<int>::empty() =~= done);
    }
    while k < count
        invariant
            reader.wf(),
            b == reader.bytes(),
            e == reader.order(),
            len == b.len(),
            k <= count,
            count == total,
            total == group_entries(b, e, version, p as int),
            q <= len,
            p + group_header(version) <= len,
            next == entry_step(b, e),
            done.len() == k,
            after(Seq::empty(), walk(p + group_header(version), total as nat, next)) == after(
                done,
                walk(q as int, (total - k) as nat, next),
            ),
            (first && k > 0) ==> (*visible matches Some(v) && v@ == match start_visible {
                Some(o) => o@,
                None => Seq::<usize>::empty(),
            } + listed(b, e, done)),
            !(first && k > 0) ==> *visible == start_visible,
        decreases count - k,
    {
        if len - q < 28 {
            proof {
                lemma_walk_fail(done, q as int, (total - k) as nat, next);
                assert(walk(p + group_header(version), total as nat, next) is None);

            }
            return Err(eof("G1M visibility entry is truncated"));
        }
        let n = reader.read_u32_at(q + 24)? as usize;
        let room = len - q - 28;
        if (n == 0 && room < 4) || (n > 0 && n > room / 4) {
            proof {
                lemma_walk_fail(done, q as int, (total - k) as nat, next);
                assert(walk(p + group_header(version), total as nat, next) is None);

            }
            return Err(eof("G1M visibility entry is truncated"));
        }
        if first {
            let mut list: Vec<usize> = match visible.take() {
                Some(v) => v,
                None => Vec::new(),
            };
            let ghost base = list@;
            let mut j: usize = 0;
            while j < n
                invariant
                    reader.wf(),
                    b == reader.bytes(),
                    e == reader.order(),
                    j <= n,
                    n == r32(b, e, q + 24),
                    q + 28 + 4 * n <= len,
                    len == b.len(),
                    list@ =~= base + Seq::new(j as nat, |i: int| r32(b, e, q + 28 + 4 * i) as usize),
                decreases n - j,
            {
                let v = reader.read_u32_at(q + 28 + 4 * j)? as usize;
                list.push(v);
                j = j + 1;
            }
            *visible = Some(list);
            proof {
                let nd = done.push(q as int);
                assert(nd.drop_last() =~= done);
                assert(listed(b, e, nd) == listed(b, e, done) + Seq::new(
                    r32(b, e, q + 24) as nat,
                    |i: int| r32(b, e, q + 28 + 4 * i) as usize,
                ));
                if k == 0 {
                    assert(listed(b, e, done) =~= Seq::<usize>::empty());
                }
            }
        }
        let size = if n == 0 {
            4
        } else {
            4 * n
        };
        let ghost q_old = q as int;
        q = q + 28 + size;
        proof {
            assert(next(q_old) == Some(q as int));
            lemma_walk_step(done, q_old, q as int, (total - k) as nat, next);
            done = done.push(q_old);
        }
        k = k + 1;
    }
    proof {
        lemma_walk_done(done, q as int, next);
        assert(Seq::<int>::empty() + done =~= done);
    }
    Ok(q)
}

} // verus!
