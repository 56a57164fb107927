use vstd::prelude::*;
use crate::asb::node_tables::read_at;
use crate::binary::{signed32, u32_at, BinaryReader, Endian};
use crate::error::{invalid, Error, ErrorKind};

verus! {

/// A connection of a node to an entry of the file's 0x2C table: from version 0x417 on
/// the table index (none for a negative index) and a node index, else a node index.
#[derive(Clone, Copy, Debug, PartialEq, Eq, Structural)]
pub enum X2cLink {
    Modern { entry: Option<u32>, node_index: u32 },
    Legacy(u32),
}

/// The connections of an ASB node: where its child records lie, and the state, 0x2C,
/// event and frame connections.
#[derive(Clone, Debug)]
pub struct NodeConnections {
    pub child_offsets: Vec<u32>,
    pub state_nodes: Vec<u32>,
    pub x2c: Vec<X2cLink>,
    pub event_nodes: Vec<u32>,
    pub frame_nodes: Vec<u32>,
}

/// The number of offsets of group `g` of the connection block at `c`: the byte at
/// `c + 2g`.
pub open spec fn conn_count(b: Seq<u8>, c: int, g: int) -> int {
    b[c + 2 * g] as int
}

/// The number of offsets of the groups before group `g`.
pub open spec fn conn_before(b: Seq<u8>, c: int, g: int) -> int
    decreases g,
{
    if g <= 0 {
        0
    } else {
        conn_before(b, c, g - 1) + conn_count(b, c, g - 1)
    }
}

/// The `j`-th offset of group `g`; the offsets of all groups follow the twelve count
/// bytes in group order.
pub open spec fn conn_offset(b: Seq<u8>, c: int, e: Endian, g: int, j: int) -> int {
    u32_at(b, c + 12 + 4 * (conn_before(b, c, g) + j), e) as int
}

/// Whether the 0x2C record at `a` can be read: from version 0x417 on an index, whose
/// table entry must exist when it is not negative, and a node index; else a node index.
pub open spec fn x2c_ok(b: Seq<u8>, e: Endian, a: int, version: u32, table_len: int) -> bool {
    if version == 0x417 {
        &&& a + 8 <= b.len()
        &&& signed32(u32_at(b, a, e) as int) >= 0 ==> signed32(u32_at(b, a, e) as int) < table_len
    } else {
        a + 4 <= b.len()
    }
}

/// The 0x2C link the record at `a` holds.
pub open spec fn x2c_link(b: Seq<u8>, e: Endian, a: int, version: u32) -> X2cLink {
    if version == 0x417 {
        X2cLink::Modern {
            entry: if signed32(u32_at(b, a, e) as int) >= 0 {
                Some(u32_at(b, a, e))
            } else {
                None
            },
            node_index: u32_at(b, a + 4, e),
        }
    } else {
        X2cLink::Legacy(u32_at(b, a, e))
    }
}

/// Whether the connection block at `c` can be read: the counts, the offsets, a word
/// at each state, event and frame offset, and a 0x2C record at each 0x2C offset.
pub open spec fn connections_ok(b: Seq<u8>, c: int, e: Endian, version: u32, table_len: int) -> bool {
    &&& c + 12 <= b.len()
    &&& c + 12 + 4 * conn_before(b, c, 6) <= b.len()
    &&& forall|j: int| 0 <= j < conn_count(b, c, 0) ==> #[trigger] conn_offset(b, c, e, 0, j) + 4 <= b.len()
    &&& forall|j: int| 0 <= j < conn_count(b, c, 4) ==> #[trigger] conn_offset(b, c, e, 4, j) + 4 <= b.len()
    &&& forall|j: int| 0 <= j < conn_count(b, c, 5) ==> #[trigger] conn_offset(b, c, e, 5, j) + 4 <= b.len()
    &&& forall|j: int| 0 <= j < conn_count(b, c, 3) ==> x2c_ok(b, e, #[trigger] conn_offset(b, c, e, 3, j), version, table_len)
}

/// Whether the words `v` are those at the offsets of group `g`.
pub open spec fn words_at_group(v: Seq<u32>, b: Seq<u8>, c: int, e: Endian, g: int) -> bool {
    &&& v.len() == conn_count(b, c, g)
    &&& forall|j: int| 0 <= j < v.len() ==> #[trigger] v[j] == u32_at(b, conn_offset(b, c, e, g, j), e)
}

/// Whether `n` is the connection block at `c`: the child offsets as stored (group 2),
/// and the values its state (group 0), 0x2C (group 3), event (group 4) and frame
/// (group 5) offsets point at; group 1 is not used.
pub open spec fn connections_are(n: NodeConnections, b: Seq<u8>, c: int, e: Endian, version: u32) -> bool {
    &&& n.child_offsets@.len() == conn_count(b, c, 2)
    &&& forall|j: int| 0 <= j < n.child_offsets@.len() ==> #[trigger] n.child_offsets@[j] == conn_offset(b, c, e, 2, j)
    &&& words_at_group(n.state_nodes@, b, c, e, 0)
    &&& words_at_group(n.event_nodes@, b, c, e, 4)
    &&& words_at_group(n.frame_nodes@, b, c, e, 5)
    &&& n.x2c@.len() == conn_count(b, c, 3)
    &&& forall|j: int| 0 <= j < n.x2c@.len() ==> #[trigger] n.x2c@[j] == x2c_link(b, e, conn_offset(b, c, e, 3, j), version)
}

proof fn lemma_conn_before_grows(b: Seq<u8>, c: int, g: int, h: int)
    requires
        0 <= g <= h,
    ensures
        0 <= conn_before(b, c, g) <= conn_before(b, c, h),
    decreases h,
{
    if h > 0 {
        if g < h {
            lemma_conn_before_grows(b, c, g, h - 1);
        } else {
            lemma_conn_before_grows(b, c, h - 1, h - 1);
        }
    }
}

/// Reads the offsets of the six groups at the cursor, after their twelve count bytes.
fn read_offset_groups(r: &mut BinaryReader<'_>) -> (res: Result<Vec<Vec<u32>>, Error>)
    requires
        old(r).wf(),
    ensures
        final(r).wf(),
        final(r).bytes() == old(r).bytes(),
        final(r).order() == old(r).order(),
        ({
            let b = old(r).bytes();
            let c = old(r).pos();
            let e = old(r).order();
            &&& res is Ok <==> c + 12 <= b.len() && c + 12 + 4 * conn_before(b, c, 6) <= b.len()
            &&& res matches Ok(v) ==> v@.len() == 6 && (forall|g: int| 0 <= g < 6 ==> (#[trigger] v@[g])@.len() == conn_count(b, c, g))
                && forall|g: int, j: int|
                0 <= g < 6 && 0 <= j < conn_count(b, c, g) ==> #[trigger] v@[g]@[j] == conn_offset(b, c, e, g, j)
        }),
        res matches Err(e) ==> e.kind == ErrorKind::UnexpectedEof,
{
    let ghost b = r.bytes();
    let ghost c = r.pos();
    let ghost e = r.order();
    if r.position() > r.len() || r.len() - r.position() < 12 {
        return Err(crate::error::eof("ASB node connections are truncated"));
    }
    let mut counts: Vec<u8> = Vec::new();
    let mut g: usize = 0;
    while g < 6
        invariant
            r.wf(),
            r.bytes() == b,
            r.order() == e,
            c + 12 <= b.len(),
            g <= 6,
            r.pos() == c + 2 * g,
            counts@.len() == g,
            forall|h: int| 0 <= h < g ==> #[trigger] counts@[h] == conn_count(b, c, h),
        decreases 6 - g,
    {
        let n = r.read_u8()?;
        let _ = r.read_u8()?;
        counts.push(n);
        g = g + 1;
    }
    let mut groups: Vec<Vec<u32>> = Vec::new();
    let mut g: usize = 0;
    while g < 6
        invariant
            r.wf(),
            r.bytes() == b,
            r.order() == e,
            b == old(r).bytes(),
            c == old(r).pos(),
            e == old(r).order(),
            c + 12 <= b.len(),
            g <= 6,
            r.pos() == c + 12 + 4 * conn_before(b, c, g as int),
            counts@.len() == 6,
            forall|h: int| 0 <= h < 6 ==> #[trigger] counts@[h] == conn_count(b, c, h),
            groups@.len() == g,
            forall|h: int| 0 <= h < g ==> (#[trigger] groups@[h])@.len() == conn_count(b, c, h),
            forall|h: int, j: int|
                0 <= h < g && 0 <= j < conn_count(b, c, h) ==> #[trigger] groups@[h]@[j] == conn_offset(b, c, e, h, j),
        decreases 6 - g,
    {
        let n = counts[g] as usize;
        let mut group: Vec<u32> = Vec::new();
        let mut j: usize = 0;
        while j < n
            invariant
                r.wf(),
                r.bytes() == b,
                r.order() == e,
                b == old(r).bytes(),
                c == old(r).pos(),
                e == old(r).order(),
                g < 6,
                n == conn_count(b, c, g as int),
                j <= n,
                r.pos() == c + 12 + 4 * (conn_before(b, c, g as int) + j),
                group@.len() == j,
                forall|i: int| 0 <= i < j ==> #[trigger] group@[i] == conn_offset(b, c, e, g as int, i),
            decreases n - j,
        {
            let o = match r.read_u32() {
                Ok(o) => o,
                Err(err) => {
                    proof {
                        lemma_conn_before_grows(b, c, g + 1, 6);
                    }
                    return Err(err);
                },
            };
            group.push(o);
            j = j + 1;
        }
        groups.push(group);
        g = g + 1;
    }
    Ok(groups)
}

impl NodeConnections {
    /// Reads the connection block at the cursor: six counts (a byte each, then an
    /// unused byte), the offsets of each group in turn, then the word at each state,
    /// event and frame offset and the 0x2C record at each 0x2C offset; `table_len` is
    /// the length of the file's 0x2C table. Fails with `InvalidData` for a 0x2C index
    /// past that table, and with `UnexpectedEof` when a read runs past the input.
    #[verifier::rlimit(60)]
    pub fn read(r: &mut BinaryReader<'_>, version: u32, table_len: usize) -> (res: Result<Self, Error>)
        requires
            old(r).wf(),
        ensures
            final(r).wf(),
            final(r).bytes() == old(r).bytes(),
            final(r).order() == old(r).order(),
            res is Ok <==> connections_ok(old(r).bytes(), old(r).pos(), old(r).order(), version, table_len as int),
            res matches Ok(n) ==> connections_are(n, old(r).bytes(), old(r).pos(), old(r).order(), version),
            res matches Err(e) ==> e.kind == ErrorKind::UnexpectedEof || e.kind == ErrorKind::InvalidData,
    {
        let ghost b = r.bytes();
        let ghost c = r.pos();
        let ghost e = r.order();
        let groups = read_offset_groups(r)?;
        let state_nodes = match read_at(r, groups[0].as_slice()) {
            Ok(v) => v,
            Err(err) => {
                assert(!connections_ok(b, c, e, version, table_len as int)) by {
                    let i = choose|i: int| 0 <= i < groups@[0]@.len() && !(#[trigger] groups@[0]@[i] + 4 <= b.len());
                    assert(groups@[0]@[i] == conn_offset(b, c, e, 0, i));
                }
                return Err(err);
            },
        };
        let child_offsets = groups[2].clone();
        let event_nodes = match read_at(r, groups[4].as_slice()) {
            Ok(v) => v,
            Err(err) => {
                assert(!connections_ok(b, c, e, version, table_len as int)) by {
                    let i = choose|i: int| 0 <= i < groups@[4]@.len() && !(#[trigger] groups@[4]@[i] + 4 <= b.len());
                    assert(groups@[4]@[i] == conn_offset(b, c, e, 4, i));
                }
                return Err(err);
            },
        };
        let frame_nodes = match read_at(r, groups[5].as_slice()) {
            Ok(v) => v,
            Err(err) => {
                assert(!connections_ok(b, c, e, version, table_len as int)) by {
                    let i = choose|i: int| 0 <= i < groups@[5]@.len() && !(#[trigger] groups@[5]@[i] + 4 <= b.len());
                    assert(groups@[5]@[i] == conn_offset(b, c, e, 5, i));
                }
                return Err(err);
            },
        };
        let x2c_offsets = groups[3].as_slice();
        let mut x2c: Vec<X2cLink> = Vec::new();
        let mut j: usize = 0;
        while j < x2c_offsets.len()
            invariant
                r.wf(),
                r.bytes() == b,
                r.order() == e,
                b == old(r).bytes(),
                c == old(r).pos(),
                e == old(r).order(),
                x2c_offsets@.len() == conn_count(b, c, 3),
                forall|i: int| 0 <= i < x2c_offsets@.len() ==> #[trigger] x2c_offsets@[i] == conn_offset(b, c, e, 3, i),
                j <= x2c_offsets@.len(),
                x2c@.len() == j,
                forall|i: int| 0 <= i < j ==> x2c_ok(b, e, #[trigger] conn_offset(b, c, e, 3, i), version, table_len as int),
                forall|i: int| 0 <= i < j ==> #[trigger] x2c@[i] == x2c_link(b, e, conn_offset(b, c, e, 3, i), version),
            decreases x2c_offsets@.len() - j,
        {
            let at = x2c_offsets[j] as usize;
            assert(at == conn_offset(b, c, e, 3, j as int));
            if at > r.len() {
                return Err(crate::error::eof("ASB 0x2C record is past the end"));
            }
            let _ = r.seek(at);
            let link = if version == 0x417 {
                let index = r.read_i32()?;
                if index >= 0 && index as usize >= table_len {
                    return Err(invalid("ASB 0x2C index exceeds table"));
                }
                let node_index = r.read_u32()?;
                let entry = if index >= 0 {
                    Some(index as u32)
                } else {
                    None
                };
                X2cLink::Modern { entry, node_index }
            } else {
                X2cLink::Legacy(r.read_u32()?)
            };
            x2c.push(link);
            j = j + 1;
        }
        assert forall|i: int| 0 <= i < conn_count(b, c, 0) implies #[trigger] conn_offset(b, c, e, 0, i) + 4 <= b.len() by {
            assert(groups@[0]@[i] == conn_offset(b, c, e, 0, i));
        }
        assert forall|i: int| 0 <= i < conn_count(b, c, 4) implies #[trigger] conn_offset(b, c, e, 4, i) + 4 <= b.len() by {
            assert(groups@[4]@[i] == conn_offset(b, c, e, 4, i));
        }
        assert forall|i: int| 0 <= i < conn_count(b, c, 5) implies #[trigger] conn_offset(b, c, e, 5, i) + 4 <= b.len() by {
            assert(groups@[5]@[i] == conn_offset(b, c, e, 5, i));
        }
        Ok(NodeConnections { child_offsets, state_nodes, x2c, event_nodes, frame_nodes })
    }
}

} // verus!
