use vstd::prelude::*;
use crate::binary::{u32_at, BinaryReader, Endian};
use crate::error::{invalid, Error, ErrorKind};
use crate::fmt::{hex_padded, push_hex};

verus! {

/// The triangle of window `i` of a strip: every other window is wound the other way.
pub open spec fn strip_window(s: Seq<u32>, i: int) -> Seq<u32> {
    if i % 2 == 0 {
        seq![s[i], s[i + 1], s[i + 2]]
    } else {
        seq![s[i], s[i + 2], s[i + 1]]
    }
}

/// Whether a triangle repeats a vertex.
pub open spec fn degenerate(t: Seq<u32>) -> bool {
    t[0] == t[1] || t[1] == t[2] || t[0] == t[2]
}

/// The triangle list of the first `n` windows of a strip, degenerate triangles left out.
pub open spec fn strip_triangles(s: Seq<u32>, n: int) -> Seq<u32>
    decreases n,
{
    if n <= 0 {
        Seq::empty()
    } else {
        let t = strip_window(s, n - 1);
        strip_triangles(s, n - 1) + if degenerate(t) {
            Seq::<u32>::empty()
        } else {
            t
        }
    }
}

/// Converts a triangle strip to a triangle list, dropping degenerate triangles.
pub fn strip_to_triangles(strip: &[u32]) -> (r: Vec<u32>)
    ensures
        r@ == strip_triangles(strip@, strip@.len() - 2),
{
    let mut output: Vec<u32> = Vec::new();
    let n = if strip.len() >= 2 {
        strip.len() - 2
    } else {
        0
    };
    let mut index: usize = 0;
    while index < n
        invariant
            index <= n,
            n + 2 <= strip@.len() || n == 0,
            n == (if strip@.len() >= 2 { strip@.len() - 2 } else { 0 }),
            output@ == strip_triangles(strip@, index as int),
        decreases n - index,
    {
        let (a, b, c) = if index % 2 == 0 {
            (strip[index], strip[index + 1], strip[index + 2])
        } else {
            (strip[index], strip[index + 2], strip[index + 1])
        };
        let ghost t = strip_window(strip@, index as int);
        assert(t == seq![a, b, c]);
        if a != b && b != c && a != c {
            output.push(a);
            output.push(b);
            output.push(c);
            assert(output@ =~= strip_triangles(strip@, index as int) + t);
        } else {
            assert(strip_triangles(strip@, index as int) + Seq::<u32>::empty() =~= strip_triangles(strip@, index as int));
        }
        index = index + 1;
    }
    output
}

/// The sampler suffix and texture role of a material texture's kind and subtype.
pub open spec fn texture_class(kind: u16, subtype: u16) -> (Seq<char>, Seq<char>) {
    if kind == 1 {
        ("_a0"@, "Diffuse"@)
    } else if kind == 3 {
        ("_n0"@, "Normal"@)
    } else if (kind == 19 && subtype == 0) || kind == 2 {
        ("_e0"@, "Emission"@)
    } else if kind == 5 && subtype == 5 {
        ("_ao0"@, "AmbientOcclusion"@)
    } else if (kind == 37 && subtype == 37) || (kind == 66 && subtype == 66) {
        ("_s0"@, "Specular"@)
    } else {
        (Seq::empty(), "Unknown"@)
    }
}

/// The roles of material textures and their sampler suffixes: kind 1 is the diffuse
/// map (`_a0`), kind 3 the normal map (`_n0`), kind 2 of any subtype or kind 19 of
/// subtype 0 the emission map (`_e0`), kind 5 of subtype 5 the ambient occlusion map
/// (`_ao0`), kinds 37 and 66 with a subtype equal to the kind the specular map (`_s0`);
/// anything else is unknown and has no suffix. Each role has its own suffix.
pub proof fn lemma_texture_roles(kind: u16, subtype: u16)
    ensures
        texture_class(kind, subtype).1 == "Diffuse"@ <==> kind == 1,
        texture_class(kind, subtype).1 == "Normal"@ <==> kind == 3,
        texture_class(kind, subtype).1 == "Emission"@ <==> (kind == 2 || (kind == 19 && subtype == 0)),
        texture_class(kind, subtype).1 == "AmbientOcclusion"@ <==> (kind == 5 && subtype == 5),
        texture_class(kind, subtype).1 == "Specular"@ <==> ((kind == 37 || kind == 66) && subtype == kind),
        texture_class(kind, subtype).1 == "Unknown"@ <==> !(kind == 1 || kind == 3 || kind == 2 || (kind == 19 && subtype
            == 0) || (kind == 5 && subtype == 5) || ((kind == 37 || kind == 66) && subtype == kind)),
        texture_class(kind, subtype).1 == "Diffuse"@ ==> texture_class(kind, subtype).0 == "_a0"@,
        texture_class(kind, subtype).1 == "Normal"@ ==> texture_class(kind, subtype).0 == "_n0"@,
        texture_class(kind, subtype).1 == "Emission"@ ==> texture_class(kind, subtype).0 == "_e0"@,
        texture_class(kind, subtype).1 == "AmbientOcclusion"@ ==> texture_class(kind, subtype).0 == "_ao0"@,
        texture_class(kind, subtype).1 == "Specular"@ ==> texture_class(kind, subtype).0 == "_s0"@,
        texture_class(kind, subtype).1 == "Unknown"@ ==> texture_class(kind, subtype).0.len() == 0,
{
    reveal_strlit("Diffuse");
    reveal_strlit("Normal");
    reveal_strlit("Emission");
    reveal_strlit("AmbientOcclusion");
    reveal_strlit("Specular");
    reveal_strlit("Unknown");
    assert("Diffuse"@ != "Normal"@ && "Diffuse"@ != "Emission"@ && "Diffuse"@ != "Specular"@ && "Diffuse"@
        != "Unknown"@ && "Diffuse"@ != "AmbientOcclusion"@) by {
        assert("Diffuse"@[0] != "Normal"@[0] && "Diffuse"@[0] != "Emission"@[0] && "Diffuse"@[0] != "Specular"@[0]
            && "Diffuse"@[0] != "Unknown"@[0] && "Diffuse"@[0] != "AmbientOcclusion"@[0]);
    }
    assert("Normal"@ != "Emission"@ && "Normal"@ != "Specular"@ && "Normal"@ != "Unknown"@ && "Normal"@
        != "AmbientOcclusion"@) by {
        assert("Normal"@[0] != "Emission"@[0] && "Normal"@[0] != "Specular"@[0] && "Normal"@[0] != "Unknown"@[0]
            && "Normal"@[0] != "AmbientOcclusion"@[0]);
    }
    assert("Emission"@ != "Specular"@ && "Emission"@ != "Unknown"@ && "Emission"@ != "AmbientOcclusion"@) by {
        assert("Emission"@[0] != "Specular"@[0] && "Emission"@[0] != "Unknown"@[0] && "Emission"@[0]
            != "AmbientOcclusion"@[0]);
    }
    assert("Specular"@ != "Unknown"@ && "Specular"@ != "AmbientOcclusion"@) by {
        assert("Specular"@[0] != "Unknown"@[0] && "Specular"@[0] != "AmbientOcclusion"@[0]);
    }
    assert("Unknown"@ != "AmbientOcclusion"@) by {
        assert("Unknown"@[0] != "AmbientOcclusion"@[0]);
    }
}

/// The sampler suffix and texture role of a material texture.
pub fn classify_texture(kind: u16, subtype: u16) -> (r: (String, String))
    ensures
        r.0@ == texture_class(kind, subtype).0,
        r.1@ == texture_class(kind, subtype).1,
{
    if kind == 1 {
        ("_a0".to_owned(), "Diffuse".to_owned())
    } else if kind == 3 {
        ("_n0".to_owned(), "Normal".to_owned())
    } else if (kind == 19 && subtype == 0) || kind == 2 {
        ("_e0".to_owned(), "Emission".to_owned())
    } else if kind == 5 && subtype == 5 {
        ("_ao0".to_owned(), "AmbientOcclusion".to_owned())
    } else if (kind == 37 && subtype == 37) || (kind == 66 && subtype == 66) {
        ("_s0".to_owned(), "Specular".to_owned())
    } else {
        (String::new(), "Unknown".to_owned())
    }
}

/// The slot and texture-hash text of each eight-byte record of a KTID table: the
/// hash as eight lower-case hexadecimal digits.
pub open spec fn ktid_names(data: Seq<u8>) -> Seq<(u32, Seq<char>)> {
    Seq::new(
        data.len() / 8,
        |i: int| (u32_at(data, 8 * i, Endian::Little), hex_padded(u32_at(data, 8 * i + 4, Endian::Little) as nat, 8)),
    )
}

/// Reads a KTID table as (slot, hash text) pairs in file order; a later pair for the
/// same slot stands for it. Fails with `InvalidData` when the size is not a multiple
/// of eight.
pub fn parse_ktid(data: &[u8]) -> (r: Result<Vec<(u32, String)>, Error>)
    ensures
        r is Ok <==> data@.len() % 8 == 0,
        r matches Ok(v) ==> v@.len() == data@.len() / 8 && forall|i: int|
            #![trigger v@[i]]
            0 <= i < v@.len() ==> v@[i].0 == ktid_names(data@)[i].0 && v@[i].1@ == ktid_names(
                data@,
            )[i].1,
        r matches Err(e) ==> e.kind == ErrorKind::InvalidData,
{
    if data.len() % 8 != 0 {
        return Err(invalid("KTID size is not a multiple of 8"));
    }
    let reader = BinaryReader::with_endian(data, Endian::Little);
    let mut result: Vec<(u32, String)> = Vec::new();
    let mut offset: usize = 0;
    while offset < data.len()
        invariant
            reader.bytes() == data@,
            reader.order() == Endian::Little,
            data@.len() % 8 == 0,
            offset % 8 == 0,
            offset <= data@.len(),
            result@.len() == offset / 8,
            forall|i: int|
                #![trigger result@[i]]
                0 <= i < result@.len() ==> result@[i].0 == ktid_names(data@)[i].0 && result@[i].1@
                    == ktid_names(data@)[i].1,
        decreases data@.len() - offset,
    {
        let slot = reader.read_u32_at(offset)?;
        let hash = reader.read_u32_at(offset + 4)?;
        let mut text = String::new();
        push_hex(&mut text, hash as u64, 8);
        assert(text@ =~= hex_padded(hash as nat, 8));
        result.push((slot, text));
        offset = offset + 8;
    }
    Ok(result)
}

/// Every triangle list `strip_to_triangles` gives has whole triangles only, none of
/// them repeating a vertex, all taken from the strip.
pub proof fn lemma_strip_triangles_wellformed(s: Seq<u32>, n: int)
    requires
        n <= s.len() - 2,
    ensures
        strip_triangles(s, n).len() % 3 == 0,
        forall|t: int|
            0 <= t < strip_triangles(s, n).len() / 3 ==> !degenerate(
                #[trigger] strip_triangles(s, n).subrange(3 * t, 3 * t + 3),
            ),
        forall|i: int| 0 <= i < strip_triangles(s, n).len() ==> s.contains(#[trigger] strip_triangles(s, n)[i]),
    decreases n,
{
    if n > 0 {
        lemma_strip_triangles_wellformed(s, n - 1);
        let prev = strip_triangles(s, n - 1);
        let t = strip_window(s, n - 1);
        let cur = strip_triangles(s, n);
        assert(s.contains(s[n - 1]) && s.contains(s[n]) && s.contains(s[n + 1]));
        if !degenerate(t) {
            assert(cur == prev + t);
            assert forall|k: int| 0 <= k < cur.len() / 3 implies !degenerate(#[trigger] cur.subrange(3 * k, 3 * k + 3)) by {
                if k < prev.len() / 3 {
                    assert(cur.subrange(3 * k, 3 * k + 3) =~= prev.subrange(3 * k, 3 * k + 3));
                } else {
                    assert(cur.subrange(3 * k, 3 * k + 3) =~= t);
                }
            }
            assert forall|i: int| 0 <= i < cur.len() implies s.contains(#[trigger] cur[i]) by {
                if i >= prev.len() {
                    assert(cur[i] == t[i - prev.len()]);
                }
            }
        } else {
            assert(cur =~= prev);
        }
    }
}

} // verus!
