use vstd::prelude::*;
use crate::aoc::g1m::meshes::{is_skeleton_signature, skeleton_ok, skeletons_ok};
use crate::binary::{signed32, u16_at, u32_at, BinaryReader, Endian};
use crate::error::{eof, Error, ErrorKind};
use crate::fmt::{decimal, push_decimal};
use vstd::string::StringExecFns;

verus! {

/// A joint of a G1M skeleton: its name, its parent's index (-1 for a root or a parent
/// that does not fit 16 bits), the matrix indices it does not use, how its rotation is
/// given, and its scale, rotation quaternion and translation as float bit patterns.
#[derive(Clone, Debug)]
pub struct G1mBone {
    pub name: String,
    pub parent_index: i16,
    pub smooth_matrix_index: i16,
    pub rigid_matrix_index: i16,
    pub rotation_mode: String,
    pub scale: [u32; 3],
    pub rotation: [u32; 4],
    pub translation: [u32; 3],
}

/// The joint table offset of the skeleton chunk `d`.
pub open spec fn joint_offset(d: Seq<u8>, e: Endian) -> int {
    u32_at(d, 12, e) as int
}

/// The number of joints of the skeleton chunk `d`.
pub open spec fn joint_count(d: Seq<u8>, e: Endian) -> int {
    u16_at(d, 20, e) as int
}

/// Whether the skeleton chunk `d` can be read: its header, its index list, and 48
/// bytes per joint at the joint table offset.
pub open spec fn bones_ok(d: Seq<u8>, e: Endian) -> bool {
    &&& d.len() >= 24
    &&& 28 + 2 * (u16_at(d, 22, e) as int) <= d.len()
    &&& joint_offset(d, e) + 48 * joint_count(d, e) <= d.len()
}

/// The name of joint `i`: the first name `table` gives for it, else `bone_<i>`.
pub open spec fn joint_name(table: Seq<(usize, String)>, i: int) -> Seq<char>
    decreases table.len(),
{
    if table.len() == 0 {
        "bone_"@ + decimal(i as nat)
    } else if table[0].0 == i {
        table[0].1@
    } else {
        joint_name(table.drop_first(), i)
    }
}

/// Whether `x` is joint `i` of the skeleton chunk `d`.
pub open spec fn bone_is(x: G1mBone, d: Seq<u8>, e: Endian, i: int, table: Seq<(usize, String)>) -> bool {
    let q = joint_offset(d, e) + 48 * i;
    let parent = signed32(u32_at(d, q + 12, e) as int);
    &&& x.name@ == joint_name(table, i)
    &&& x.parent_index == (if -32768 <= parent <= 32767 { parent } else { -1 })
    &&& x.smooth_matrix_index == -1
    &&& x.rigid_matrix_index == -1
    &&& x.rotation_mode@ == "quaternion"@
    &&& forall|k: int| 0 <= k < 3 ==> #[trigger] x.scale@[k] == u32_at(d, q + 4 * k, e)
    &&& forall|k: int| 0 <= k < 4 ==> #[trigger] x.rotation@[k] == u32_at(d, q + 16 + 4 * k, e)
    &&& forall|k: int| 0 <= k < 3 ==> #[trigger] x.translation@[k] == u32_at(d, q + 32 + 4 * k, e)
}

/// The name of joint `i`, as `joint_name` says.
fn name_of_joint(table: &Vec<(usize, String)>, i: usize) -> (r: String)
    ensures
        r@ == joint_name(table@, i as int),
{
    let mut k: usize = 0;
    assert(table@.skip(0) =~= table@);
    while k < table.len()
        invariant
            k <= table@.len(),
            joint_name(table@, i as int) == joint_name(table@.skip(k as int), i as int),
        decreases table@.len() - k,
    {
        assert(table@.skip(k as int).drop_first() =~= table@.skip(k + 1));
        if table[k].0 == i {
            return table[k].1.clone();
        }
        k = k + 1;
    }
    assert(table@.skip(k as int) =~= Seq::<(usize, String)>::empty());
    let mut s = String::from_str("bone_");
    push_decimal(&mut s, i as u64);
    s
}

/// Reads the joints of the skeleton chunk `d`, named by `table`, the joint-name table;
/// fails with `UnexpectedEof` when the chunk is too short for its header, index list
/// or joint table.
pub fn parse_skeleton(d: &[u8], endian: Endian, table: &Vec<(usize, String)>) -> (r: Result<Vec<G1mBone>, Error>)
    ensures
        r is Ok <==> bones_ok(d@, endian),
        r matches Ok(v) ==> v@.len() == joint_count(d@, endian) && forall|i: int|
            0 <= i < v@.len() ==> bone_is(#[trigger] v@[i], d@, endian, i, table@),
        r matches Err(e) ==> e.kind == ErrorKind::UnexpectedEof,
{
    let ghost b = d@;
    let reader = BinaryReader::with_endian(d, endian);
    if d.len() < 24 {
        return Err(eof("G1M skeleton is truncated"));
    }
    let jo = reader.read_u32_at(12)? as usize;
    let jc = reader.read_u16_at(20)? as usize;
    let ic = reader.read_u16_at(22)? as usize;
    if 28 + 2 * ic > d.len() || jo > d.len() || 48 * jc > d.len() - jo {
        return Err(eof("G1M skeleton is truncated"));
    }
    let mut bones: Vec<G1mBone> = Vec::new();
    let mut i: usize = 0;
    while i < jc
        invariant
            reader.wf(),
            reader.bytes() == b,
            reader.order() == endian,
            b == d@,
            jo == joint_offset(b, endian),
            jc == joint_count(b, endian),
            jo + 48 * jc <= b.len(),
            i <= jc,
            bones@.len() == i,
            forall|j: int| 0 <= j < i ==> bone_is(#[trigger] bones@[j], b, endian, j, table@),
        decreases jc - i,
    {
        let q = jo + 48 * i;
        let s0 = reader.read_u32_at(q)?;
        let s1 = reader.read_u32_at(q + 4)?;
        let s2 = reader.read_u32_at(q + 8)?;
        let parent = reader.read_u32_at(q + 12)?;
        let r0 = reader.read_u32_at(q + 16)?;
        let r1 = reader.read_u32_at(q + 20)?;
        let r2 = reader.read_u32_at(q + 24)?;
        let r3 = reader.read_u32_at(q + 28)?;
        let t0 = reader.read_u32_at(q + 32)?;
        let t1 = reader.read_u32_at(q + 36)?;
        let t2 = reader.read_u32_at(q + 40)?;
        let p = crate::binary::to_i32(parent);
        let parent_index: i16 = if -32768 <= p && p <= 32767 {
            p as i16
        } else {
            -1
        };
        let bone = G1mBone {
            name: name_of_joint(table, i),
            parent_index,
            smooth_matrix_index: -1,
            rigid_matrix_index: -1,
            rotation_mode: String::from_str("quaternion"),
            scale: [s0, s1, s2],
            rotation: [r0, r1, r2, r3],
            translation: [t0, t1, t2],
        };
        assert(bone_is(bone, b, endian, i as int, table@));
        bones.push(bone);
        i = i + 1;
    }
    Ok(bones)
}

/// The chunk, among those at `starts` from the `k`-th on, whose skeleton gives the
/// model's bones: the first skeleton chunk with joints, if any.
pub open spec fn bones_chunk(b: Seq<u8>, e: Endian, starts: Seq<int>, k: int) -> Option<int>
    decreases starts.len() - k,
{
    if k < 0 || k >= starts.len() {
        None
    } else if is_skeleton_signature(b.subrange(starts[k], starts[k] + 4)) && u16_at(b, starts[k] + 20, e) != 0 {
        Some(k)
    } else {
        bones_chunk(b, e, starts, k + 1)
    }
}

pub proof fn lemma_bones_chunk_in_range(b: Seq<u8>, e: Endian, starts: Seq<int>, k: int)
    ensures
        bones_chunk(b, e, starts, k) matches Some(j) ==> k <= j < starts.len(),
    decreases starts.len() - k,
{
    if 0 <= k < starts.len() {
        lemma_bones_chunk_in_range(b, e, starts, k + 1);
    }
}

/// The bytes of the chunk at `s`, as long as its size field says.
pub open spec fn chunk_bytes(b: Seq<u8>, e: Endian, s: int) -> Seq<u8> {
    b.subrange(s, s + u32_at(b, s + 8, e))
}

proof fn lemma_chunk_fields(b: Seq<u8>, e: Endian, s: int)
    requires
        0 <= s,
        s + 12 <= b.len(),
        s + u32_at(b, s + 8, e) <= b.len(),
        u32_at(b, s + 8, e) >= 24,
    ensures
        ({
            let d = chunk_bytes(b, e, s);
            &&& d.len() == u32_at(b, s + 8, e)
            &&& u32_at(d, 12, e) == u32_at(b, s + 12, e)
            &&& u16_at(d, 20, e) == u16_at(b, s + 20, e)
            &&& u16_at(d, 22, e) == u16_at(b, s + 22, e)
        }),
{
    let d = chunk_bytes(b, e, s);
    assert(d.subrange(12, 16) =~= b.subrange(s + 12, s + 16));
    assert(d.subrange(20, 22) =~= b.subrange(s + 20, s + 22));
    assert(d.subrange(22, 24) =~= b.subrange(s + 22, s + 24));
}

/// Reads the model's bones: the joints of the first skeleton chunk, among the chunks
/// at `starts` with signatures `sigs`, that has joints, each skeleton chunk before it
/// read too; named by `table`. Fails with `UnexpectedEof` when one of those cannot be
/// read, as `skeletons_ok` says.
pub fn read_bones(data: &[u8], endian: Endian, starts: &Vec<u64>, sigs: &Vec<[u8; 4]>, table: &Vec<(usize, String)>) -> (res: Result<Vec<G1mBone>, Error>)
    requires
        sigs@.len() == starts@.len(),
        forall|k: int|
            0 <= k < starts@.len() ==> (#[trigger] starts@[k]) + 12 <= data@.len() && starts@[k] + u32_at(
                data@,
                starts@[k] + 8,
                endian,
            ) <= data@.len() && sigs@[k]@ == data@.subrange(starts@[k] as int, starts@[k] + 4),
    ensures
        res is Ok <==> skeletons_ok(data@, endian, starts@.map_values(|x: u64| x as int), 0),
        res matches Ok(v) ==> match bones_chunk(data@, endian, starts@.map_values(|x: u64| x as int), 0) {
            Some(k) => {
                let d = chunk_bytes(data@, endian, starts@[k] as int);
                &&& v@.len() == joint_count(d, endian)
                &&& forall|i: int| 0 <= i < v@.len() ==> bone_is(#[trigger] v@[i], d, endian, i, table@)
            },
            None => v@.len() == 0,
        },
        res matches Err(e) ==> e.kind == ErrorKind::UnexpectedEof,
{
    let ghost b = data@;
    let ghost st = starts@.map_values(|x: u64| x as int);
    let reader = BinaryReader::with_endian(data, endian);
    let mut k: usize = 0;
    while k < starts.len()
        invariant
            reader.wf(),
            reader.bytes() == b,
            reader.order() == endian,
            b == data@,
            st == starts@.map_values(|x: u64| x as int),
            sigs@.len() == starts@.len(),
            forall|j: int|
                0 <= j < starts@.len() ==> (#[trigger] starts@[j]) + 12 <= b.len() && starts@[j] + u32_at(b, starts@[j] + 8, endian)
                    <= b.len() && sigs@[j]@ == b.subrange(starts@[j] as int, starts@[j] + 4),
            k <= starts@.len(),
            skeletons_ok(b, endian, st, 0) == skeletons_ok(b, endian, st, k as int),
            bones_chunk(b, endian, st, 0) == bones_chunk(b, endian, st, k as int),
        decreases starts@.len() - k,
    {
        let s = starts[k] as usize;
        let sig = sigs[k];
        assert(st[k as int] == s);
        let skeleton = (sig[0] == 0x47 && sig[1] == 0x31 && sig[2] == 0x4d && sig[3] == 0x53) || (sig[0] == 0x53
            && sig[1] == 0x4d && sig[2] == 0x31 && sig[3] == 0x47);
        assert(skeleton == is_skeleton_signature(b.subrange(s as int, s + 4))) by {
            let m = b.subrange(s as int, s + 4);
            assert(sig@ == m);
            if m == seq![0x47u8, 0x31u8, 0x4du8, 0x53u8] {
                assert(m[0] == 0x47 && m[1] == 0x31 && m[2] == 0x4d && m[3] == 0x53);
            }
            if m == seq![0x53u8, 0x4du8, 0x31u8, 0x47u8] {
                assert(m[0] == 0x53 && m[1] == 0x4d && m[2] == 0x31 && m[3] == 0x47);
            }
            if skeleton {
                assert(m =~= seq![0x47u8, 0x31u8, 0x4du8, 0x53u8] || m =~= seq![0x53u8, 0x4du8, 0x31u8, 0x47u8]);
            }
        }
        if skeleton {
            let z = reader.read_u32_at(s + 8)? as usize;
            if z < 24 {
                return Err(eof("G1M skeleton is truncated"));
            }
            proof {
                lemma_chunk_fields(b, endian, s as int);
            }
            let chunk = &data[s..s + z];
            assert(chunk@ == chunk_bytes(b, endian, s as int));
            let bones = parse_skeleton(chunk, endian, table)?;
            if bones.len() != 0 {
                return Ok(bones);
            }
        }
        k = k + 1;
    }
    Ok(Vec::new())
}

} // verus!
