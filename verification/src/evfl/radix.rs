use vstd::prelude::*;
use vstd::std_specs::bits::u16_trailing_zeros;
use vstd::string::{StrSliceExecFns, StringSliceAdditionalSpecFns};
use crate::error::Error;

verus! {

/// The UTF-16 code units of `s`: one for a character below 0x10000, else a
/// surrogate pair.
pub open spec fn utf16_units(s: Seq<char>) -> Seq<u16>
    decreases s.len(),
{
    if s.len() == 0 {
        Seq::empty()
    } else {
        let c = s.last() as u32;
        utf16_units(s.drop_last()) + if c < 0x10000 {
            seq![c as u16]
        } else {
            seq![(0xd800 + (c - 0x10000) / 0x400) as u16, (0xdc00 + (c - 0x10000) % 0x400) as u16]
        }
    }
}

/// The UTF-16 code units of the text.
fn encode_utf16(value: &str) -> (r: Vec<u16>)
    ensures
        r@ == utf16_units(value@),
{
    let n = value.unicode_len();
    let mut r: Vec<u16> = Vec::new();
    let mut i: usize = 0;
    while i < n
        invariant
            n == value@.len(),
            i <= n,
            r@ == utf16_units(value@.take(i as int)),
        decreases n - i,
    {
        let c = value.get_char(i);
        let code = c as u32;
        assert(value@.take(i + 1).drop_last() =~= value@.take(i as int));
        assert(value@.take(i + 1).last() == c);
        if code < 0x10000 {
            r.push(code as u16);
            assert(r@ =~= utf16_units(value@.take(i + 1)));
        } else {
            assert(code <= 0x10ffff);
            r.push((0xd800 + (code - 0x10000) / 0x400) as u16);
            r.push((0xdc00 + (code - 0x10000) % 0x400) as u16);
            assert(r@ =~= utf16_units(value@.take(i + 1)));
        }
        i = i + 1;
    }
    assert(value@.take(n as int) =~= value@);
    r
}

/// The code unit `index` places from the end of `u`, or zero past its start.
pub open spec fn unit_from_end(u: Seq<u16>, index: int) -> u16 {
    if 0 <= index < u.len() {
        u[u.len() - 1 - index]
    } else {
        0
    }
}

/// Bit `bit` of the code units read from the end, eight bits to a unit: zero for a
/// negative bit, an empty text, or a bit past the units.
pub open spec fn bit_of(u: Seq<u16>, bit: i32) -> usize {
    if u.len() == 0 || bit < 0 || bit / 8 >= u.len() {
        0
    } else {
        ((unit_from_end(u, bit / 8) >> ((bit % 8) as u16)) & 1) as usize
    }
}

/// The position of the first bit where two unit sequences, read from the end, differ,
/// counting eight bits for each unit passed; from `index` on.
pub open spec fn differing_from(l: Seq<u16>, r: Seq<u16>, index: int) -> int
    decreases vstd::math::max(l.len() as int, r.len() as int) - index,
{
    if index < 0 || index >= vstd::math::max(l.len() as int, r.len() as int) {
        0
    } else if unit_from_end(l, index) ^ unit_from_end(r, index) == 0 {
        8 + differing_from(l, r, index + 1)
    } else {
        u16_trailing_zeros(unit_from_end(l, index) ^ unit_from_end(r, index)) as int
    }
}

/// The position of the first set bit of the units read from the end, counting eight
/// bits for each zero unit passed.
pub open spec fn first_set_from_end(u: Seq<u16>) -> int
    decreases u.len(),
{
    if u.len() == 0 {
        0
    } else if u.last() == 0 {
        8 + first_set_from_end(u.drop_last())
    } else {
        u16_trailing_zeros(u.last()) as int
    }
}

/// Bit `bit` of a name, as the EVFL dictionary tree reads it: from the last UTF-16
/// code unit backwards, eight bit positions to each unit.
pub fn next_bit(value: &str, bit: i32) -> (r: usize)
    ensures
        r == bit_of(utf16_units(value@), bit),
{
    let chars = encode_utf16(value);
    if chars.len() == 0 || bit < 0 {
        return 0;
    }
    let byte = (bit as usize) >> 3;
    assert(byte == bit / 8) by (bit_vector)
        requires
            bit >= 0,
            byte == (bit as usize) >> 3,
    ;
    if byte >= chars.len() {
        0
    } else {
        let shift = bit & 7;
        assert(shift == bit % 8) by (bit_vector)
            requires
                bit >= 0,
                shift == bit & 7,
        ;
        ((chars[chars.len() - 1 - byte] >> (shift as u16)) & 1) as usize
    }
}

/// The first bit where two names differ, as the EVFL dictionary tree reads them.
#[verifier::rlimit(40)]
pub fn differing_bit(left: &str, right: &str) -> (r: i32)
    requires
        utf16_units(left@).len() < 0x800_0000,
        utf16_units(right@).len() < 0x800_0000,
    ensures
        r == differing_from(utf16_units(left@), utf16_units(right@), 0),
{
    let l = encode_utf16(left);
    let r = encode_utf16(right);
    let len = if l.len() < r.len() {
        r.len()
    } else {
        l.len()
    };
    let ghost lu = l@;
    let ghost ru = r@;
    let mut bit: i32 = 0;
    let mut index: usize = 0;
    let mut done = false;
    while index < len && !done
        invariant
            lu == l@,
            ru == r@,
            len == vstd::math::max(lu.len() as int, ru.len() as int),
            len < 0x800_0000,
            index <= len,
            !done ==> bit == 8 * index,
            done ==> 0 <= bit <= 8 * index + 16,
            !done ==> differing_from(lu, ru, 0) == bit + differing_from(lu, ru, index as int),
            done ==> differing_from(lu, ru, 0) == bit,
        decreases len - index, if done { 0int } else { 1int },
    {
        let a: u16 = if index < l.len() {
            l[l.len() - 1 - index]
        } else {
            0
        };
        let b: u16 = if index < r.len() {
            r[r.len() - 1 - index]
        } else {
            0
        };
        let diff = a ^ b;
        if diff == 0 {
            bit = bit + 8;
            index = index + 1;
        } else {
            proof {
                vstd::std_specs::bits::axiom_u16_trailing_zeros(diff);
            }
            bit = bit + diff.trailing_zeros() as i32;
            done = true;
        }
    }
    bit
}

/// The first set bit of a name, as the EVFL dictionary tree reads it.
pub fn first_set_bit(value: &str) -> (r: i32)
    requires
        utf16_units(value@).len() < 0x800_0000,
    ensures
        r == first_set_from_end(utf16_units(value@)),
{
    let units = encode_utf16(value);
    let ghost u = units@;
    let mut bit: i32 = 0;
    let mut n: usize = units.len();
    let mut done = false;
    assert(u.subrange(0, n as int) =~= u);
    while n > 0 && !done
        invariant
            u == units@,
            u.len() < 0x800_0000,
            n <= u.len(),
            !done ==> bit == 8 * (u.len() - n),
            done ==> 0 <= bit <= 8 * (u.len() - n) + 16,
            !done ==> first_set_from_end(u) == bit + first_set_from_end(u.subrange(0, n as int)),
            done ==> first_set_from_end(u) == bit,
        decreases n, if done { 0int } else { 1int },
    {
        let ghost p = u.subrange(0, n as int);
        assert(p.drop_last() =~= u.subrange(0, n - 1));
        let character = units[n - 1];
        if character == 0 {
            bit = bit + 8;
            n = n - 1;
        } else {
            proof {
                vstd::std_specs::bits::axiom_u16_trailing_zeros(character);
            }
            bit = bit + character.trailing_zeros() as i32;
            done = true;
        }
    }
    proof {
        if !done {
            assert(u.subrange(0, 0) =~= Seq::<u16>::empty());
        }
    }
    bit
}

/// The byte with its bit order reversed.
pub open spec fn reversed_byte(b: u8) -> u8 {
    ((b & 1) << 7) | ((b & 2) << 5) | ((b & 4) << 3) | ((b & 8) << 1) | ((b & 16) >> 1) | ((b & 32) >> 3) | ((b
        & 64) >> 5) | ((b & 128) >> 7)
}

/// The UTF-8 bytes of a name in reverse order, each with its bits reversed: the key by
/// which the string pool orders names.
pub fn reverse_bits(value: &str) -> (r: Vec<u8>)
    ensures
        r@.len() == value.spec_bytes().len(),
        forall|i: int|
            0 <= i < r@.len() ==> r@[i] == reversed_byte(
                #[trigger] value.spec_bytes()[value.spec_bytes().len() - 1 - i],
            ),
{
    let b = value.as_bytes();
    let mut out: Vec<u8> = Vec::new();
    let mut n: usize = b.len();
    while n > 0
        invariant
            b@ == value.spec_bytes(),
            n <= b@.len(),
            out@.len() == b@.len() - n,
            forall|i: int| 0 <= i < out@.len() ==> out@[i] == reversed_byte(#[trigger] b@[b@.len() - 1 - i]),
        decreases n,
    {
        let x = b[n - 1];
        out.push(
            ((x & 1) << 7) | ((x & 2) << 5) | ((x & 4) << 3) | ((x & 8) << 1) | ((x & 16) >> 1) | ((x & 32)
                >> 3) | ((x & 64) >> 5) | ((x & 128) >> 7),
        );
        n = n - 1;
    }
    out
}

/// The highest bit position a dictionary node can hold for names below the length
/// limit: eight positions for each of at most 2^27 code units, and a final unit's
/// trailing zeros.
pub open spec fn bit_limit() -> int {
    0x4000_0010
}

/// Names short enough that their bit positions fit a 32-bit integer.
pub open spec fn name_fits(s: Seq<char>) -> bool {
    utf16_units(s).len() < 0x800_0000
}

proof fn lemma_differing_bound(l: Seq<u16>, r: Seq<u16>, index: int)
    requires
        0 <= index,
    ensures
        0 <= differing_from(l, r, index) <= 8 * (vstd::math::max(l.len() as int, r.len() as int) - index) + 16
            || index >= vstd::math::max(l.len() as int, r.len() as int) && differing_from(l, r, index) == 0,
    decreases vstd::math::max(l.len() as int, r.len() as int) - index,
{
    if index < vstd::math::max(l.len() as int, r.len() as int) {
        vstd::std_specs::bits::axiom_u16_trailing_zeros(unit_from_end(l, index) ^ unit_from_end(r, index));
        lemma_differing_bound(l, r, index + 1);
    }
}

proof fn lemma_first_set_bound(u: Seq<u16>)
    ensures
        0 <= first_set_from_end(u) <= 8 * u.len() + 16,
    decreases u.len(),
{
    if u.len() > 0 {
        vstd::std_specs::bits::axiom_u16_trailing_zeros(u.last());
        lemma_first_set_bound(u.drop_last());
    }
}

proof fn lemma_bit_of_small(u: Seq<u16>, bit: i32)
    ensures
        bit_of(u, bit) <= 1,
{
    if !(u.len() == 0 || bit < 0 || bit / 8 >= u.len()) {
        let x = unit_from_end(u, bit / 8) >> ((bit % 8) as u16);
        assert(x & 1 <= 1) by (bit_vector);
    }
}

/// A node of an EVFL dictionary tree: a name, the bit it tests, its two children
/// and its parent, as indices of the node list.
#[derive(Clone, Debug)]
pub struct RadixNode {
    pub name: String,
    pub bit: i32,
    pub child: [usize; 2],
    pub parent: usize,
}

/// Whether `nodes` form a dictionary tree ranked by `rank`: node 0 is the root, which
/// tests bit -1 and is its own parent; every index is a node; every other node tests
/// a bit from 0 to the limit and has a parent of lower rank, so that following
/// parents always reaches the root.
pub open spec fn ranked_tree(nodes: Seq<RadixNode>, rank: Seq<int>) -> bool {
    &&& nodes.len() >= 1
    &&& rank.len() == nodes.len()
    &&& nodes[0].bit == -1
    &&& nodes[0].parent == 0
    &&& rank[0] == 0
    &&& forall|i: int|
        0 <= i < nodes.len() ==> (#[trigger] nodes[i]).child@[0] < nodes.len() && nodes[i].child@[1] < nodes.len()
            && nodes[i].parent < nodes.len() && nodes[i].bit <= bit_limit() && name_fits(nodes[i].name@)
    &&& forall|i: int|
        1 <= i < nodes.len() ==> (#[trigger] nodes[i]).bit >= 0 && 0 <= rank[nodes[i].parent as int] < rank[i]
}

/// Whether `nodes` form a dictionary tree.
pub open spec fn dictionary_tree(nodes: Seq<RadixNode>) -> bool {
    exists|rank: Seq<int>| ranked_tree(nodes, rank)
}

/// Whether `nodes` is the dictionary tree of `names`: an empty root, then one node
/// for each name in order.
pub open spec fn dictionary_of(names: Seq<Seq<char>>, nodes: Seq<RadixNode>) -> bool {
    &&& nodes.len() == names.len() + 1
    &&& nodes[0].name@ == Seq::<char>::empty()
    &&& forall|i: int| 0 <= i < names.len() ==> #[trigger] nodes[i + 1].name@ == names[i]
    &&& dictionary_tree(nodes)
}

/// Node `i` with child `d` set to `v`.
fn set_child(nodes: &mut Vec<RadixNode>, i: usize, d: usize, v: usize)
    requires
        i < old(nodes)@.len(),
        d < 2,
    ensures
        final(nodes)@.len() == old(nodes)@.len(),
        forall|j: int| 0 <= j < old(nodes)@.len() && j != i ==> final(nodes)@[j] == old(nodes)@[j],
        final(nodes)@[i as int].name == old(nodes)@[i as int].name,
        final(nodes)@[i as int].bit == old(nodes)@[i as int].bit,
        final(nodes)@[i as int].parent == old(nodes)@[i as int].parent,
        final(nodes)@[i as int].child@ == old(nodes)@[i as int].child@.update(d as int, v),
{
    let mut child = nodes[i].child;
    child[d] = v;
    let node = RadixNode { name: nodes[i].name.clone(), bit: nodes[i].bit, child, parent: nodes[i].parent };
    nodes.set(i, node);
    assert(nodes@[i as int].child@ =~= old(nodes)@[i as int].child@.update(d as int, v));
}

/// Node `i` with its parent set to `v`.
fn set_parent(nodes: &mut Vec<RadixNode>, i: usize, v: usize)
    requires
        i < old(nodes)@.len(),
    ensures
        final(nodes)@.len() == old(nodes)@.len(),
        forall|j: int| 0 <= j < old(nodes)@.len() && j != i ==> final(nodes)@[j] == old(nodes)@[j],
        final(nodes)@[i as int].name == old(nodes)@[i as int].name,
        final(nodes)@[i as int].bit == old(nodes)@[i as int].bit,
        final(nodes)@[i as int].child == old(nodes)@[i as int].child,
        final(nodes)@[i as int].parent == v,
{
    let node = RadixNode { name: nodes[i].name.clone(), bit: nodes[i].bit, child: nodes[i].child, parent: v };
    nodes.set(i, node);
}

/// The dictionary tree of the names `keys`, built by inserting them in order as the
/// EVFL format's radix tree does: node 0 is an empty root and node `i + 1` holds
/// `keys[i]`. Names are compared by their UTF-16 code units, eight bit positions to a
/// unit.
#[verifier::rlimit(40)]
pub fn radix_nodes(keys: &[&str]) -> (r: Result<Vec<RadixNode>, Error>)
    requires
        forall|i: int| 0 <= i < keys@.len() ==> name_fits(#[trigger] keys@[i]@),
    ensures
        r matches Ok(nodes) && dictionary_of(keys@.map_values(|k: &str| k@), nodes@),
{
    let root_name = String::new();
    proof {
        assert(utf16_units(root_name@) =~= Seq::<u16>::empty());
    }
    let mut nodes: Vec<RadixNode> = Vec::new();
    nodes.push(RadixNode { name: root_name, bit: -1, child: [0, 0], parent: 0 });
    let ghost mut rank: Seq<int> = seq![0];
    let mut k: usize = 0;
    while k < keys.len()
        invariant
            k <= keys@.len(),
            forall|i: int| 0 <= i < keys@.len() ==> name_fits(#[trigger] keys@[i]@),
            nodes@.len() == k + 1,
            nodes@[0].name@ == Seq::<char>::empty(),
            forall|i: int| 0 <= i < k ==> #[trigger] nodes@[i + 1].name@ == keys@[i]@,
            ranked_tree(nodes@, rank),
        decreases keys@.len() - k,
    {
        let key = keys[k];
        assert(name_fits(keys@[k as int]@));
        let len = nodes.len();
        let mut previous: usize = 0;
        let mut current: usize = nodes[0].child[0];
        assert(nodes@[0].child@[0] < len);
        if current != 0 {
            let mut stop = false;
            while !stop
                invariant
                    nodes@.len() == len,
                    ranked_tree(nodes@, rank),
                    previous < len,
                    current < len,
                decreases if stop { 0int } else { bit_limit() + 1 - nodes@[current as int].bit },
            {
                assert(nodes@[current as int].child@[0] < len);
                previous = current;
                let d = next_bit(key, nodes[current].bit);
                proof {
                    lemma_bit_of_small(utf16_units(key@), nodes@[current as int].bit);
                }
                current = nodes[current].child[d];
                assert(nodes@[current as int].bit <= bit_limit());
                if nodes[current].bit <= nodes[previous].bit {
                    stop = true;
                }
            }
        }
        current = previous;
        assert(nodes@[current as int].bit <= bit_limit());
        let mut bit = differing_bit(key, nodes[current].name.as_str());
        proof {
            lemma_differing_bound(utf16_units(key@), utf16_units(nodes@[current as int].name@), 0);
        }
        while bit < nodes[nodes[current].parent].bit
            invariant
                nodes@.len() == len,
                ranked_tree(nodes@, rank),
                current < len,
                0 <= bit <= bit_limit(),
            decreases rank[current as int],
        {
            assert(current != 0);
            current = nodes[current].parent;
        }
        let index = len;
        let mut entry_child: [usize; 2] = [index, index];
        let mut entry_parent: usize = current;
        let mut entry_bit: i32 = bit;
        let ghost old_nodes = nodes@;
        if bit < nodes[current].bit {
            assert(current != 0);
            let parent = nodes[current].parent;
            entry_parent = parent;
            let direction = next_bit(key, bit);
            proof {
                lemma_bit_of_small(utf16_units(key@), bit);
            }
            entry_child[1 - direction] = current;
            let parent_direction = next_bit(key, nodes[parent].bit);
            proof {
                lemma_bit_of_small(utf16_units(key@), nodes@[parent as int].bit);
            }
            set_child(&mut nodes, parent, parent_direction, index);
            set_parent(&mut nodes, current, index);
            proof {
                let c = current as int;
                rank = Seq::new((len + 1) as nat, |i: int| if i < len { 2 * rank[i] } else { 2 * rank[c] - 1 });
            }
        } else if bit > nodes[current].bit {
            let direction = next_bit(key, bit);
            proof {
                lemma_bit_of_small(utf16_units(key@), bit);
            }
            let other = next_bit(nodes[current].name.as_str(), bit);
            entry_child[1 - direction] = if other == 1 - direction {
                current
            } else {
                0
            };
            let current_direction = next_bit(key, nodes[current].bit);
            proof {
                lemma_bit_of_small(utf16_units(key@), nodes@[current as int].bit);
            }
            set_child(&mut nodes, current, current_direction, index);
            proof {
                rank = rank.push(rank[current as int] + 1);
            }
        } else {
            let direction = next_bit(key, bit);
            proof {
                lemma_bit_of_small(utf16_units(key@), bit);
            }
            entry_bit = first_set_bit(key);
            proof {
                lemma_first_set_bound(utf16_units(key@));
            }
            let next = nodes[current].child[direction];
            if next != 0 {
                assert(nodes@[next as int].bit <= bit_limit());
                entry_bit = differing_bit(nodes[next].name.as_str(), key);
                proof {
                    lemma_differing_bound(utf16_units(old_nodes[next as int].name@), utf16_units(key@), 0);
                }
            }
            let d = next_bit(key, entry_bit);
            proof {
                lemma_bit_of_small(utf16_units(key@), entry_bit);
            }
            entry_child[1 - d] = next;
            set_child(&mut nodes, current, direction, index);
            proof {
                rank = rank.push(rank[current as int] + 1);
            }
        }
        nodes.push(RadixNode { name: key.to_owned(), bit: entry_bit, child: entry_child, parent: entry_parent });
        proof {
            assert forall|i: int| 0 <= i < k + 1 implies #[trigger] nodes@[i + 1].name@ == keys@[i]@ by {
                if i < k {
                    assert(nodes@[i + 1].name == old_nodes[i + 1].name);
                }
            }
        }
        k = k + 1;
    }
    proof {
        let names = keys@.map_values(|k: &str| k@);
        assert forall|i: int| 0 <= i < names.len() implies #[trigger] nodes@[i + 1].name@ == names[i] by {
            assert(nodes@[i + 1].name@ == keys@[i]@);
        }
    }
    Ok(nodes)
}

/// Whether `a` comes before `b` in lexicographic byte order, a proper prefix first.
pub open spec fn lex_lt(a: Seq<u8>, b: Seq<u8>) -> bool
    decreases a.len(),
{
    if a.len() == 0 {
        b.len() > 0
    } else if b.len() == 0 {
        false
    } else if a[0] != b[0] {
        a[0] < b[0]
    } else {
        lex_lt(a.drop_first(), b.drop_first())
    }
}

/// Whether `a` comes before `b` in lexicographic byte order.
pub fn lex_less(a: &[u8], b: &[u8]) -> (r: bool)
    ensures
        r == lex_lt(a@, b@),
{
    let mut i: usize = 0;
    assert(a@.subrange(0, a@.len() as int) =~= a@);
    assert(b@.subrange(0, b@.len() as int) =~= b@);
    while i < a.len() && i < b.len() && a[i] == b[i]
        invariant
            i <= a@.len(),
            i <= b@.len(),
            lex_lt(a@, b@) == lex_lt(a@.subrange(i as int, a@.len() as int), b@.subrange(i as int, b@.len() as int)),
        decreases a@.len() - i,
    {
        let ghost x = a@.subrange(i as int, a@.len() as int);
        let ghost y = b@.subrange(i as int, b@.len() as int);
        assert(x.drop_first() =~= a@.subrange(i + 1, a@.len() as int));
        assert(y.drop_first() =~= b@.subrange(i + 1, b@.len() as int));
        i = i + 1;
    }
    if i == a.len() {
        i < b.len()
    } else if i == b.len() {
        false
    } else {
        a[i] < b[i]
    }
}

/// An order of `keys` in which no key comes after one that is lexicographically
/// greater: a permutation of their indices, picked smallest first.
#[verifier::rlimit(40)]
pub fn order_by_keys(keys: &Vec<Vec<u8>>) -> (r: Vec<usize>)
    ensures
        r@.len() == keys@.len(),
        forall|i: int, j: int| 0 <= i < j < r@.len() ==> r@[i] != r@[j],
        forall|i: int| 0 <= i < r@.len() ==> (#[trigger] r@[i] as int) < keys@.len(),
        forall|i: int, j: int|
            0 <= i < j < r@.len() ==> !lex_lt(keys@[r@[j] as int]@, keys@[r@[i] as int]@),
{
    let n = keys.len();
    let mut taken: Vec<bool> = Vec::new();
    let mut t: usize = 0;
    while t < n
        invariant
            t <= n,
            taken@.len() == t,
            forall|x: int| 0 <= x < t ==> !taken@[x],
        decreases n - t,
    {
        taken.push(false);
        t = t + 1;
    }
    let mut out: Vec<usize> = Vec::new();
    let mut round: usize = 0;
    while round < n
        invariant
            n == keys@.len(),
            taken@.len() == n,
            round <= n,
            out@.len() == round,
            forall|i: int| 0 <= i < round ==> (#[trigger] out@[i] as int) < n,
            forall|i: int, j: int| 0 <= i < j < round ==> out@[i] != out@[j],
            forall|x: int| 0 <= x < n ==> (taken@[x] <==> #[trigger] listed_in(out@, x)),
            forall|i: int, x: int|
                0 <= i < round && 0 <= x < n && !taken@[x] ==> !lex_lt(keys@[x]@, keys@[out@[i] as int]@),
            forall|i: int, j: int|
                0 <= i < j < round ==> !lex_lt(keys@[out@[j] as int]@, keys@[out@[i] as int]@),
        decreases n - round,
    {
        proof {
            lemma_missing(out@, n as int);
            let w = choose|w: int| 0 <= w < n && !#[trigger] listed_in(out@, w);
            assert(!taken@[w]);
        }
        let mut best: usize = n;
        let mut x: usize = 0;
        while x < n
            invariant
                n == keys@.len(),
                taken@.len() == n,
                x <= n,
                best == n || (best < x && !taken@[best as int]),
                best == n ==> forall|y: int| 0 <= y < x ==> taken@[y],
                best < n ==> forall|y: int| 0 <= y < x && !taken@[y] ==> !lex_lt(keys@[y]@, keys@[best as int]@),
            decreases n - x,
        {
            if !taken[x] {
                if best == n || lex_less(keys[x].as_slice(), keys[best].as_slice()) {
                    proof {
                        if best < n {
                            assert forall|y: int| 0 <= y < x && !taken@[y] implies !lex_lt(keys@[y]@, keys@[x as int]@) by {
                                lemma_lex_trans_not(keys@[y]@, keys@[best as int]@, keys@[x as int]@);
                            }
                        }
                    }
                    best = x;
                    proof {
                        lemma_lex_irreflexive(keys@[x as int]@);
                    }
                }
            }
            x = x + 1;
        }
        proof {
            if best == n {
                let w = choose|w: int| 0 <= w < n && !taken@[w];
                assert(taken@[w]);
            }
        }
        let ghost old_taken = taken@;
        let ghost old_out = out@;
        taken.set(best, true);
        out.push(best);
        proof {
            assert forall|y: int| 0 <= y < n implies (taken@[y] <==> #[trigger] listed_in(out@, y)) by {
                if y == best {
                    assert(out@[round as int] == y);
                } else {
                    if old_taken[y] {
                        assert(listed_in(old_out, y));
                        let i = choose|i: int| 0 <= i < old_out.len() && old_out[i] == y;
                        assert(out@[i] == y);
                    }
                    if listed_in(out@, y) {
                        let i = choose|i: int| 0 <= i < out@.len() && out@[i] == y;
                        assert(i < round);
                        assert(old_out[i] == y);
                        assert(listed_in(old_out, y));
                    }
                }
            }
            assert forall|i: int, j: int| 0 <= i < j < round + 1 implies out@[i] != out@[j] by {
                if j == round {
                    assert(old_taken[out@[i] as int]) by {
                        assert(old_out[i] == out@[i]);
                        assert(listed_in(old_out, out@[i] as int));
                    }
                }
            }
        }
        round = round + 1;
    }
    out
}

/// Whether `x` is one of the values of `out`.
pub open spec fn listed_in(out: Seq<usize>, x: int) -> bool {
    exists|i: int| 0 <= i < out.len() && out[i] == x
}

/// Fewer values than `n` leave some number below `n` out.
proof fn lemma_missing(out: Seq<usize>, n: int)
    requires
        out.len() < n,
    ensures
        exists|x: int| 0 <= x < n && !#[trigger] listed_in(out, x),
    decreases n,
{
    if listed_in(out, n - 1) {
        let k = choose|i: int| 0 <= i < out.len() && out[i] == n - 1;
        let rest = out.remove(k);
        let filtered = rest.filter(|v: usize| (v as int) < n - 1);
        rest.filter_lemma(|v: usize| (v as int) < n - 1);
        assert(filtered.len() <= rest.len()) by {
            rest.lemma_filter_len(|v: usize| (v as int) < n - 1);
        }
        lemma_missing(filtered, n - 1);
        let x = choose|x: int| 0 <= x < n - 1 && !#[trigger] listed_in(filtered, x);
        assert(!listed_in(out, x)) by {
            if listed_in(out, x) {
                let i = choose|i: int| 0 <= i < out.len() && out[i] == x;
                assert(i != k);
                let j = if i < k { i } else { i - 1 };
                assert(rest[j] == x);
                assert(filtered.contains(rest[j]));
                let f = choose|f: int| 0 <= f < filtered.len() && filtered[f] == rest[j];
                assert(listed_in(filtered, x));
            }
        }
    } else {
        assert(0 <= n - 1 < n && !listed_in(out, n - 1));
    }
}

proof fn lemma_lex_irreflexive(a: Seq<u8>)
    ensures
        !lex_lt(a, a),
    decreases a.len(),
{
    if a.len() > 0 {
        lemma_lex_irreflexive(a.drop_first());
    }
}

/// When `a` is not below `b` and `c` is below `b`, `a` is not below `c`.
proof fn lemma_lex_trans_not(a: Seq<u8>, b: Seq<u8>, c: Seq<u8>)
    requires
        !lex_lt(a, b),
        lex_lt(c, b),
    ensures
        !lex_lt(a, c),
    decreases a.len(),
{
    if lex_lt(a, c) {
        lemma_lex_trans(a, c, b);
    }
}

proof fn lemma_lex_trans(a: Seq<u8>, b: Seq<u8>, c: Seq<u8>)
    requires
        lex_lt(a, b),
        lex_lt(b, c),
    ensures
        lex_lt(a, c),
    decreases a.len(),
{
    if a.len() > 0 && b.len() > 0 && c.len() > 0 && a[0] == b[0] && b[0] == c[0] {
        lemma_lex_trans(a.drop_first(), b.drop_first(), c.drop_first());
    }
}

} // verus!
