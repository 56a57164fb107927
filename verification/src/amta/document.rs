use vstd::prelude::*;
use crate::fmt::push_char;
use crate::text::{string_from_utf8_lossy, utf8_lossy};

verus! {

/// A printable string found in an AMTA file, with where it starts.
#[derive(Clone, Debug)]
pub struct AmtaString {
    pub offset: usize,
    pub value: String,
}

/// Whether a byte is printable ASCII: a graphic character or a space.
pub open spec fn printable(b: u8) -> bool {
    0x20 <= b <= 0x7e
}

/// Whether every byte of `s` is printable ASCII.
pub open spec fn all_printable(s: Seq<u8>) -> bool {
    forall|i: int| 0 <= i < s.len() ==> printable(#[trigger] s[i])
}

/// Whether every byte of `s` is printable ASCII.
fn is_printable(s: &[u8]) -> (r: bool)
    ensures
        r == all_printable(s@),
{
    let mut i: usize = 0;
    while i < s.len()
        invariant
            i <= s@.len(),
            forall|j: int| 0 <= j < i ==> printable(#[trigger] s@[j]),
        decreases s@.len() - i,
    {
        let b = s[i];
        if !(b == 0x20 || (0x21 <= b && b <= 0x7e)) {
            assert(!printable(s@[i as int]));
            return false;
        }
        i = i + 1;
    }
    true
}

/// The first index at or after `at`, before `end`, that holds a zero byte, or `end`.
pub open spec fn zero_from(data: Seq<u8>, at: int, end: int) -> int
    decreases end - at,
{
    if at >= end || data[at] == 0 {
        at
    } else {
        zero_from(data, at + 1, end)
    }
}

/// The first index at or after `at`, before `end`, that holds a non-zero byte, or `end`.
pub open spec fn nonzero_from(data: Seq<u8>, at: int, end: int) -> int
    decreases end - at,
{
    if at >= end || data[at] != 0 {
        at
    } else {
        nonzero_from(data, at + 1, end)
    }
}

proof fn lemma_zero_from(data: Seq<u8>, at: int, end: int)
    requires
        at <= end,
    ensures
        at <= zero_from(data, at, end) <= end,
    decreases end - at,
{
    if at < end && data[at] != 0 {
        lemma_zero_from(data, at + 1, end);
    }
}

proof fn lemma_nonzero_from(data: Seq<u8>, at: int, end: int)
    requires
        at <= end,
    ensures
        at <= nonzero_from(data, at, end) <= end,
    decreases end - at,
{
    if at < end && data[at] == 0 {
        lemma_nonzero_from(data, at + 1, end);
    }
}

/// The printable string at `start`, read up to its first zero byte or `end`, when
/// the range exists and the string is non-empty and printable.
pub open spec fn printable_at(data: Seq<u8>, start: int, end: int) -> Option<Seq<char>> {
    if start > end || end > data.len() {
        None
    } else {
        let value = data.subrange(start, zero_from(data, start, end));
        if value.len() > 0 && all_printable(value) {
            Some(utf8_lossy(value))
        } else {
            None
        }
    }
}

/// The printable string at `start`, read no further than its first zero byte or `end`.
pub fn printable_string_at(data: &[u8], start: usize, end: usize) -> (r: Option<String>)
    ensures
        r is Some <==> printable_at(data@, start as int, end as int) is Some,
        r matches Some(s) ==> s@ == printable_at(data@, start as int, end as int)->Some_0,
{
    if start > end || end > data.len() {
        return None;
    }
    let mut at = start;
    proof {
        lemma_zero_from(data@, start as int, end as int);
    }
    while at < end && data[at] != 0
        invariant
            start <= at <= end <= data@.len(),
            zero_from(data@, start as int, end as int) == zero_from(data@, at as int, end as int),
        decreases end - at,
    {
        at = at + 1;
    }
    let value = &data[start..at];
    if value.len() > 0 && is_printable(value) {
        Some(string_from_utf8_lossy(value))
    } else {
        None
    }
}

/// The name stored in the string table: at 0x24 past its offset in version 5, else
/// at 8 past it.
pub open spec fn explicit_name_at(data: Seq<u8>, file_size: int, version: u8, table: Option<usize>) -> Option<Seq<char>> {
    match table {
        None => None,
        Some(t) => {
            let start = if version == 5 { t + 0x24 } else { t + 8 };
            if start > usize::MAX {
                None
            } else {
                printable_at(data, start, file_size)
            }
        },
    }
}

/// The file's own name, read from its string table when there is one.
pub fn explicit_name(data: &[u8], file_size: usize, version: u8, string_table_offset: Option<usize>) -> (r: Option<String>)
    ensures
        r is Some <==> explicit_name_at(data@, file_size as int, version, string_table_offset) is Some,
        r matches Some(s) ==> s@ == explicit_name_at(data@, file_size as int, version, string_table_offset)->Some_0,
{
    let table = match string_table_offset {
        Some(t) => t,
        None => return None,
    };
    let start = if version == 5 {
        table.checked_add(0x24)
    } else {
        table.checked_add(8)
    };
    match start {
        Some(s) => printable_string_at(data, s, file_size),
        None => None,
    }
}

/// The printable strings of at least two bytes between `at` and `end`: runs of non-zero
/// bytes, split at zero bytes, with where each starts.
pub open spec fn strings_from(data: Seq<u8>, at: int, end: int) -> Seq<(int, Seq<u8>)>
    decreases end - at,
{
    if at >= end {
        Seq::empty()
    } else {
        let vs = nonzero_from(data, at, end);
        let ve = zero_from(data, vs, end);
        let value = data.subrange(vs, ve);
        let next = if ve < end { ve + 1 } else { ve };
        let here: Seq<(int, Seq<u8>)> = if value.len() >= 2 && all_printable(value) {
            seq![(vs, value)]
        } else {
            Seq::empty()
        };
        if next <= at || next > end {
            here
        } else {
            here + strings_from(data, next, end)
        }
    }
}

/// Whether `found` lists, in order, the strings `strings_from` gives.
pub open spec fn strings_match(found: Seq<AmtaString>, expected: Seq<(int, Seq<u8>)>) -> bool {
    &&& found.len() == expected.len()
    &&& forall|k: int|
        #![trigger found[k]]
        0 <= k < found.len() ==> found[k].offset == expected[k].0 && found[k].value@ == utf8_lossy(
            expected[k].1,
        )
}

/// The printable strings of at least two bytes between `start` and `end`.
pub fn strings(data: &[u8], start: usize, end: usize) -> (r: Vec<AmtaString>)
    requires
        end <= data@.len(),
    ensures
        strings_match(r@, strings_from(data@, start as int, end as int)),
{
    let ghost d = data@;
    let mut result: Vec<AmtaString> = Vec::new();
    let mut at = start;
    while at < end
        invariant
            end <= d.len(),
            d == data@,
            at >= start,
            forall|k: int| #![trigger result@[k]] 0 <= k < result@.len() ==> result@[k].offset == strings_from(d, start as int, end as int)[k].0
                && result@[k].value@ == utf8_lossy(strings_from(d, start as int, end as int)[k].1),
            strings_from(d, start as int, end as int) == {
                let done: Seq<(int, Seq<u8>)> = strings_from(d, start as int, end as int).take(result@.len() as int);
                done + strings_from(d, at as int, end as int)
            },
            result@.len() <= strings_from(d, start as int, end as int).len(),
        decreases end - at,
    {
        let from = at;
        proof {
            lemma_nonzero_from(d, from as int, end as int);
        }
        while at < end && data[at] == 0
            invariant
                from <= at <= end <= d.len(),
                d == data@,
                nonzero_from(d, from as int, end as int) == nonzero_from(d, at as int, end as int),
            decreases end - at,
        {
            at = at + 1;
        }
        let value_start = at;
        proof {
            lemma_zero_from(d, value_start as int, end as int);
        }
        while at < end && data[at] != 0
            invariant
                value_start <= at <= end <= d.len(),
                d == data@,
                zero_from(d, value_start as int, end as int) == zero_from(d, at as int, end as int),
            decreases end - at,
        {
            at = at + 1;
        }
        let value = &data[value_start..at];
        let ghost expected = strings_from(d, start as int, end as int);
        let ghost here_len: int = if value@.len() >= 2 && all_printable(value@) { 1 } else { 0 };
        let ghost old_len = result@.len();
        if value.len() >= 2 && is_printable(value) {
            let entry = AmtaString { offset: value_start, value: string_from_utf8_lossy(value) };
            result.push(entry);
        }
        if at < end {
            at = at + 1;
        }
        proof {
            let tail_old = strings_from(d, from as int, end as int);
            let tail_new = strings_from(d, at as int, end as int);
            assert(at > from);
            if here_len == 1 {
                assert(tail_old == seq![(value_start as int, value@)] + tail_new);
            } else {
                assert(tail_old == tail_new);
            }
            assert(expected == expected.take(old_len as int) + tail_old);
            assert(expected.take(old_len as int) + tail_old =~= expected.take(result@.len() as int) + tail_new) by {
                if here_len == 1 {
                    assert(expected[old_len as int] == (value_start as int, value@)) by {
                        assert(expected[old_len as int] == (expected.take(old_len as int) + tail_old)[old_len as int]);
                    }
                    assert(expected.take(result@.len() as int) =~= expected.take(old_len as int).push((value_start as int, value@)));
                }
            }
            if here_len == 1 {
                assert(expected[old_len as int] == (value_start as int, value@)) by {
                    assert(expected[old_len as int] == (expected.take(old_len as int) + tail_old)[old_len as int]);
                }
            }
            assert(result@.len() <= expected.len()) by {
                assert(expected.len() == old_len + tail_old.len());
            }
        }
    }
    proof {
        let expected = strings_from(d, start as int, end as int);
        assert(strings_from(d, at as int, end as int) =~= Seq::<(int, Seq<u8>)>::empty());
        assert(expected.take(result@.len() as int) =~= expected);
    }
    result
}

/// The alignment of an offset: the largest power of two dividing it, at most 4096,
/// and 0 for offset 0.
pub open spec fn alignment_of(offset: nat) -> nat {
    if offset == 0 {
        0
    } else {
        pow2_upto(offset, 0)
    }
}

/// The largest power of two `2^k`, `k` from `done` up to 12, dividing `offset`, given
/// that `2^done` divides it.
pub open spec fn pow2_upto(offset: nat, done: nat) -> nat
    decreases 12 - done,
{
    if done >= 12 || offset % pow2(done + 1) != 0 {
        pow2(done)
    } else {
        pow2_upto(offset, done + 1)
    }
}

/// Two to the power `k`.
pub open spec fn pow2(k: nat) -> nat
    decreases k,
{
    if k == 0 {
        1
    } else {
        2 * pow2((k - 1) as nat)
    }
}

/// The alignment of an offset: its largest power-of-two divisor, capped at 4096.
pub fn alignment(offset: usize) -> (r: usize)
    ensures
        r == alignment_of(offset as nat),
{
    if offset == 0 {
        return 0;
    }
    let mut done: usize = 0;
    let mut p: usize = 1;
    proof {
        reveal_with_fuel(pow2, 14);
    }
    while done < 12 && offset % (p * 2) == 0
        invariant
            done <= 12,
            p == pow2(done as nat),
            1 <= p <= 4096,
            pow2(13) == 8192,
            pow2_upto(offset as nat, 0) == pow2_upto(offset as nat, done as nat),
        decreases 12 - done,
    {
        proof {
            reveal_with_fuel(pow2, 14);
            lemma_pow2_bound(done as nat);
        }
        p = p * 2;
        done = done + 1;
    }
    p
}

proof fn lemma_pow2_bound(k: nat)
    requires
        k < 12,
    ensures
        pow2(k) * 2 <= 4096,
        pow2(k + 1) == pow2(k) * 2,
{
    reveal_with_fuel(pow2, 13);
    if k == 0 {
    } else if k == 1 {
    } else if k == 2 {
    } else if k == 3 {
    } else if k == 4 {
    } else if k == 5 {
    } else if k == 6 {
    } else if k == 7 {
    } else if k == 8 {
    } else if k == 9 {
    } else if k == 10 {
    } else {
    }
}

proof fn lemma_pow2_upto(offset: nat, done: nat)
    requires
        done <= 12,
        offset % pow2(done) == 0,
    ensures
        offset % pow2_upto(offset, done) == 0,
        exists|k: nat| done <= k <= 12 && pow2_upto(offset, done) == #[trigger] pow2(k),
        pow2_upto(offset, done) <= 4096,
        pow2_upto(offset, done) < 4096 ==> offset % (2 * pow2_upto(offset, done)) != 0,
    decreases 12 - done,
{
    reveal_with_fuel(pow2, 13);
    if done >= 12 || offset % pow2(done + 1) != 0 {
        if done < 12 {
            lemma_pow2_bound(done);
        }
        assert(pow2(done) == pow2_upto(offset, done));
    } else {
        lemma_pow2_upto(offset, done + 1);
    }
}

/// The alignment of a nonzero offset is its largest power-of-two divisor when that is
/// at most 4096, else 4096: a power of two `2^k`, `k <= 12`, that divides the offset,
/// and, below 4096, twice it does not. The alignment of 0 is 0.
pub proof fn lemma_alignment_is_largest_power(offset: nat)
    ensures
        offset == 0 ==> alignment_of(offset) == 0,
        offset > 0 ==> offset % alignment_of(offset) == 0,
        offset > 0 ==> exists|k: nat| k <= 12 && alignment_of(offset) == #[trigger] pow2(k),
        offset > 0 ==> 1 <= alignment_of(offset) <= 4096,
        offset > 0 && alignment_of(offset) < 4096 ==> offset % (2 * alignment_of(offset)) != 0,
{
    if offset > 0 {
        reveal_with_fuel(pow2, 2);
        lemma_pow2_upto(offset, 0);
        let k = choose|k: nat| 0 <= k <= 12 && pow2_upto(offset, 0) == #[trigger] pow2(k);
        lemma_pow2_positive(k);
    }
}

proof fn lemma_pow2_positive(k: nat)
    ensures
        pow2(k) >= 1,
    decreases k,
{
    if k > 0 {
        lemma_pow2_positive((k - 1) as nat);
    }
}

/// The upper-case hexadecimal digit for `d`, `0 <= d < 16`.
pub open spec fn hex_upper(d: int) -> char {
    if d < 10 {
        (48 + d) as char
    } else {
        (55 + d) as char
    }
}

/// The first `limit` bytes of `data` as two upper-case hexadecimal digits each,
/// separated by spaces.
pub open spec fn hex_preview_of(data: Seq<u8>, limit: int) -> Seq<char>
    decreases data.len(),
{
    let n = if data.len() < limit { data.len() as int } else { limit };
    if n <= 0 {
        Seq::empty()
    } else {
        let last = data[n - 1];
        let before = hex_preview_of(data.take(n - 1), limit);
        let sep: Seq<char> = if n > 1 { seq![' '] } else { Seq::empty() };
        before + sep + seq![hex_upper((last / 16) as int), hex_upper((last % 16) as int)]
    }
}

/// The first `limit` bytes as spaced upper-case hexadecimal pairs.
pub fn hex_preview(data: &[u8], limit: usize) -> (s: String)
    ensures
        s@ == hex_preview_of(data@, limit as int),
{
    let mut s = String::new();
    let n = if data.len() < limit {
        data.len()
    } else {
        limit
    };
    let mut i: usize = 0;
    proof {
        assert(hex_preview_of(data@.take(0), limit as int) =~= Seq::<char>::empty());
    }
    while i < n
        invariant
            i <= n,
            n <= data@.len(),
            n <= limit,
            s@ == hex_preview_of(data@.take(i as int), limit as int),
        decreases n - i,
    {
        if i > 0 {
            push_char(&mut s, ' ');
        }
        let b = data[i];
        let hi = b / 16;
        let lo = b % 16;
        let c1 = if hi < 10 {
            (48 + hi) as char
        } else {
            (55 + hi) as char
        };
        let c2 = if lo < 10 {
            (48 + lo) as char
        } else {
            (55 + lo) as char
        };
        push_char(&mut s, c1);
        push_char(&mut s, c2);
        proof {
            let t = data@.take(i + 1);
            assert(t.take(i as int) =~= data@.take(i as int));
            assert(t[i as int] == b);
        }
        i = i + 1;
        proof {
            let t = data@.take(i as int);
            assert(s@ =~= hex_preview_of(t, limit as int));
        }
    }
    proof {
        assert(data@.take(n as int) =~= data@.take(n as int));
        if (n as int) < data@.len() {
            assert(hex_preview_of(data@, limit as int) == hex_preview_of(data@.take(n as int), limit as int)) by {
                lemma_preview_prefix(data@, limit as int);
            }
        } else {
            assert(data@.take(n as int) =~= data@);
        }
    }
    s
}

proof fn lemma_preview_prefix(data: Seq<u8>, limit: int)
    requires
        0 <= limit < data.len(),
    ensures
        hex_preview_of(data, limit) == hex_preview_of(data.take(limit), limit),
{
    let t = data.take(limit);
    if limit > 0 {
        assert(t.take(limit - 1) =~= data.take(limit - 1));
        assert(t[limit - 1] == data[limit - 1]);
    }
}

} // verus!
