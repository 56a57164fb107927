use vstd::prelude::*;
use crate::ainb::common::{parse_hex, radix16};
use crate::error::{invalid, Error, ErrorKind};
use vstd::string::StringSliceAdditionalSpecFns;

verus! {

/// The bytes that a text of two-digit hexadecimal fields spells, when every field is
/// one that `from_str_radix` reads as a byte.
pub open spec fn hex_pairs(s: Seq<u8>) -> Option<Seq<u8>>
    decreases s.len(),
{
    if s.len() < 2 {
        if s.len() == 0 {
            Some(Seq::empty())
        } else {
            None
        }
    } else {
        match (radix16(s.subrange(0, 2), 255), hex_pairs(s.skip(2))) {
            (Some(v), Some(rest)) => Some(seq![v as u8] + rest),
            _ => None,
        }
    }
}

/// Decodes a hexadecimal node tail: two digits per byte. Fails with `InvalidData` on
/// an odd length or a field that is not a byte in hexadecimal.
pub fn decode_hex(value: &str) -> (r: Result<Vec<u8>, Error>)
    ensures
        r is Ok <==> hex_pairs(value.spec_bytes()) is Some,
        r matches Ok(v) ==> hex_pairs(value.spec_bytes()) == Some(v@),
        r matches Err(e) ==> e.kind == ErrorKind::InvalidData,
{
    let bytes = value.as_bytes();
    let ghost s = bytes@;
    if bytes.len() % 2 != 0 {
        proof {
            lemma_odd_hex(s);
        }
        return Err(invalid("node parameter tail has an odd hex length"));
    }
    let mut out: Vec<u8> = Vec::new();
    let mut i: usize = 0;
    assert(s.skip(0) =~= s);
    proof {
        if let Some(rest) = hex_pairs(s) {
            assert(out@ + rest =~= rest);
        }
    }
    while i < bytes.len()
        invariant
            s == bytes@,
            s == value.spec_bytes(),
            s.len() % 2 == 0,
            i % 2 == 0,
            i <= s.len(),
            hex_pairs(s) == match hex_pairs(s.skip(i as int)) {
                Some(rest) => Some(out@ + rest),
                None => None::<Seq<u8>>,
            },
        decreases s.len() - i,
    {
        let pair = &bytes[i..i + 2];
        let ghost t = s.skip(i as int);
        assert(t.subrange(0, 2) == pair@);
        assert(t.skip(2) =~= s.skip(i + 2));
        match parse_hex(pair, 255) {
            Some(v) => {
                let ghost old_out = out@;
                out.push(v as u8);
                proof {
                    match hex_pairs(s.skip(i + 2)) {
                        Some(rest) => {
                            assert(old_out + (seq![v as u8] + rest) =~= out@ + rest);
                        },
                        None => {},
                    }
                }
            },
            None => {
                assert(hex_pairs(t) is None);
                return Err(invalid("node parameter tail contains invalid hex"));
            },
        }
        i = i + 2;
    }
    assert(s.skip(i as int) =~= Seq::<u8>::empty());
    assert(out@ + Seq::<u8>::empty() =~= out@);
    Ok(out)
}

proof fn lemma_odd_hex(s: Seq<u8>)
    requires
        s.len() % 2 == 1,
    ensures
        hex_pairs(s) is None,
    decreases s.len(),
{
    if s.len() >= 2 {
        lemma_odd_hex(s.skip(2));
    }
}

/// A transition of a node plug: its type, whether it updates after the calculation,
/// and its command's name.
#[derive(Clone, Debug)]
pub struct Transition {
    pub transition_type: u32,
    pub update_post_calc: bool,
    pub command_name: String,
}

/// The bytes a list of transitions takes: a four-byte offset each, then eight bytes
/// for each type-0 transition and four for any other.
pub open spec fn transitions_size(t: Seq<Transition>) -> int
    decreases t.len(),
{
    if t.len() == 0 {
        0
    } else {
        transitions_size(t.drop_last()) + 4 + if t.last().transition_type == 0 {
            8int
        } else {
            4int
        }
    }
}

proof fn lemma_transitions_size_bound(t: Seq<Transition>)
    ensures
        transitions_size(t) <= 12 * t.len(),
    decreases t.len(),
{
    if t.len() > 0 {
        lemma_transitions_size_bound(t.drop_last());
    }
}

/// The bytes the transitions take when written.
pub fn transition_binary_size(transitions: &[Transition]) -> (n: usize)
    requires
        12 * transitions@.len() <= usize::MAX,
    ensures
        n == transitions_size(transitions@),
{
    let mut total: usize = 0;
    let mut i: usize = 0;
    while i < transitions.len()
        invariant
            i <= transitions@.len(),
            12 * transitions@.len() <= usize::MAX,
            total == transitions_size(transitions@.subrange(0, i as int)),
        decreases transitions@.len() - i,
    {
        proof {
            lemma_transitions_size_bound(transitions@.subrange(0, i + 1));
            assert(transitions@.subrange(0, i + 1).drop_last() =~= transitions@.subrange(0, i as int));
        }
        let extra: usize = if transitions[i].transition_type == 0 {
            8
        } else {
            4
        };
        total = total + 4 + extra;
        i = i + 1;
    }
    assert(transitions@.subrange(0, i as int) =~= transitions@);
    total
}

/// Decoding a hexadecimal tail gives one byte for every two digits.
pub proof fn lemma_hex_pairs_length(s: Seq<u8>)
    ensures
        hex_pairs(s) matches Some(v) ==> 2 * v.len() == s.len(),
    decreases s.len(),
{
    if s.len() >= 2 {
        lemma_hex_pairs_length(s.skip(2));
    }
}

} // verus!
