use vstd::prelude::*;
use crate::binary::{decode_u32, BinaryReader, Endian};
use crate::error::{invalid, Error, ErrorKind};
use std::collections::HashMap;

verus! {

/// The map that a list of key/value pairs describes when later pairs override
/// earlier ones with the same key.
pub open spec fn pairs_map(pairs: Seq<(u32, u32)>) -> Map<u32, u32>
    decreases pairs.len(),
{
    if pairs.len() == 0 {
        Map::empty()
    } else {
        pairs_map(pairs.drop_last()).insert(pairs.last().0, pairs.last().1)
    }
}

/// The key/value pairs stored in the complete eight-byte records of `data`.
pub open spec fn ktid_pairs(data: Seq<u8>) -> Seq<(u32, u32)> {
    Seq::new(
        data.len() / 8,
        |i: int|
            (
                decode_u32(data.subrange(8 * i, 8 * i + 4), Endian::Little) as u32,
                decode_u32(data.subrange(8 * i + 4, 8 * i + 8), Endian::Little) as u32,
            ),
    )
}

/// A KTID table: a map from texture slot to texture hash.
#[derive(Debug)]
pub struct KtidFile {
    entries: HashMap<u32, u32>,
}

impl View for KtidFile {
    type V = Map<u32, u32>;

    /// The slot-to-hash map.
    closed spec fn view(&self) -> Map<u32, u32> {
        self.entries@
    }
}

impl KtidFile {
    /// Reads every complete little-endian (slot, hash) pair of `data`; a trailing
    /// incomplete record is ignored, and a later pair overrides an earlier one.
    /// Fails with `InvalidData` when `data` holds no complete pair.
    pub fn parse(data: &[u8]) -> (r: Result<Self, Error>)
        ensures
            r is Ok <==> data@.len() >= 8,
            r matches Ok(f) ==> f@ == pairs_map(ktid_pairs(data@)),
            r matches Err(e) ==> e.kind == ErrorKind::InvalidData,
    {
        broadcast use vstd::std_specs::hash::group_hash_axioms;
        if data.len() < 8 {
            return Err(invalid("KTID contains no complete entries"));
        }
        let reader = BinaryReader::new(data);
        let mut entries: HashMap<u32, u32> = HashMap::with_capacity(data.len() / 8);
        let n = data.len();
        let count = n / 8;
        let mut i: usize = 0;
        while i < count
            invariant
                n == data@.len(),
                count == data@.len() / 8,
                i <= count,
                reader.bytes() == data@,
                reader.order() == Endian::Little,
                entries@ == pairs_map(ktid_pairs(data@).take(i as int)),
            decreases count - i,
        {
            let key = match reader.read_u32_at(8 * i) {
                Ok(v) => v,
                Err(e) => return Err(e),
            };
            let value = match reader.read_u32_at(8 * i + 4) {
                Ok(v) => v,
                Err(e) => return Err(e),
            };
            proof {
                let q = ktid_pairs(data@);
                assert(q.take(i + 1).drop_last() =~= q.take(i as int));
                assert(q.take(i + 1).last() == (key, value));
            }
            entries.insert(key, value);
            i = i + 1;
        }
        assert(ktid_pairs(data@).take(count as int) =~= ktid_pairs(data@));
        Ok(KtidFile { entries })
    }

    /// The hash stored for `index`, if any.
    pub fn get(&self, index: u32) -> (r: Option<u32>)
        ensures
            r == (if self@.contains_key(index) {
                Some(self@[index])
            } else {
                None
            }),
    {
        broadcast use vstd::std_specs::hash::group_hash_axioms;
        match self.entries.get(&index) {
            Some(v) => Some(*v),
            None => None,
        }
    }
}

} // verus!
