use vstd::prelude::*;
use vstd::string::StringSliceAdditionalSpecFns;
use crate::aoc::g1m::records::{G1mMaterial, G1mTextureSlot};
use crate::error::{error, Error, ErrorKind};
use crate::text::str_eq;

verus! {

/// How textures are written beside an exported model: not at all, as PNG or as DDS.
#[derive(Clone, Copy, Debug, PartialEq, Eq, Structural)]
pub enum TextureExportFormat {
    NoTextures,
    Png,
    Dds,
}

/// A byte with ASCII upper-case letters made lower-case, as `to_ascii_lowercase` does.
pub open spec fn ascii_lower(c: u8) -> u8 {
    if 65 <= c <= 90 {
        (c + 32) as u8
    } else {
        c
    }
}

/// Whether the text `s`, ASCII letters compared without case, is the lower-case word `w`.
pub open spec fn names(s: Seq<u8>, w: Seq<u8>) -> bool {
    s.len() == w.len() && forall|i: int| 0 <= i < s.len() ==> ascii_lower(s[i]) == w[i]
}

/// Whether `s`, compared without case, is the lower-case word `w`.
fn is_word(s: &[u8], w: &[u8]) -> (r: bool)
    ensures
        r == names(s@, w@),
{
    if s.len() != w.len() {
        return false;
    }
    let mut i: usize = 0;
    while i < s.len()
        invariant
            s@.len() == w@.len(),
            i <= s@.len(),
            forall|j: int| 0 <= j < i ==> ascii_lower(s@[j]) == w@[j],
        decreases s@.len() - i,
    {
        let c = s[i];
        let lower = if 65 <= c && c <= 90 {
            c + 32
        } else {
            c
        };
        if lower != w[i] {
            return false;
        }
        i = i + 1;
    }
    true
}

impl TextureExportFormat {
    /// The format that `value` names, in any case: `none`, `png` or `dds`; fails with
    /// `InvalidInput` for anything else.
    pub fn parse(value: &str) -> (r: Result<Self, Error>)
        ensures
            names(value.spec_bytes(), seq![110u8, 111u8, 110u8, 101u8]) ==> r == Ok::<Self, Error>(
                TextureExportFormat::NoTextures,
            ),
            names(value.spec_bytes(), seq![112u8, 110u8, 103u8]) ==> r == Ok::<Self, Error>(TextureExportFormat::Png),
            names(value.spec_bytes(), seq![100u8, 100u8, 115u8]) ==> r == Ok::<Self, Error>(TextureExportFormat::Dds),
            r is Err <==> !names(value.spec_bytes(), seq![110u8, 111u8, 110u8, 101u8]) && !names(
                value.spec_bytes(),
                seq![112u8, 110u8, 103u8],
            ) && !names(value.spec_bytes(), seq![100u8, 100u8, 115u8]),
            r matches Err(e) ==> e.kind == ErrorKind::InvalidInput,
    {
        let s = value.as_bytes();
        let none: [u8; 4] = [110, 111, 110, 101];
        let png: [u8; 3] = [112, 110, 103];
        let dds: [u8; 3] = [100, 100, 115];
        assert(none@ =~= seq![110u8, 111u8, 110u8, 101u8]);
        assert(png@ =~= seq![112u8, 110u8, 103u8]);
        assert(dds@ =~= seq![100u8, 100u8, 115u8]);
        if is_word(s, &none) {
            Ok(TextureExportFormat::NoTextures)
        } else if is_word(s, &png) {
            Ok(TextureExportFormat::Png)
        } else if is_word(s, &dds) {
            Ok(TextureExportFormat::Dds)
        } else {
            Err(error(ErrorKind::InvalidInput, "texture format must be none, png, or dds"))
        }
    }
}

/// The first slot from `from` on whose texture type is `ty`.
pub open spec fn first_slot(slots: Seq<G1mTextureSlot>, ty: Seq<char>, from: int) -> Option<int>
    decreases slots.len() - from,
{
    if from < 0 || from >= slots.len() {
        None
    } else if slots[from].texture_type@ == ty {
        Some(from)
    } else {
        first_slot(slots, ty, from + 1)
    }
}

/// The first slot whose texture type is `ty`.
fn find_slot<'a>(slots: &'a Vec<G1mTextureSlot>, ty: &str) -> (r: Option<&'a G1mTextureSlot>)
    ensures
        r is Some <==> first_slot(slots@, ty@, 0) is Some,
        r matches Some(s) ==> *s == slots@[first_slot(slots@, ty@, 0)->Some_0],
{
    let mut i: usize = 0;
    while i < slots.len()
        invariant
            i <= slots@.len(),
            first_slot(slots@, ty@, 0) == first_slot(slots@, ty@, i as int),
        decreases slots@.len() - i,
    {
        if str_eq(slots[i].texture_type.as_str(), ty) {
            return Some(&slots[i]);
        }
        i = i + 1;
    }
    None
}

/// The texture slots an exported material links: its first diffuse texture as its
/// diffuse colour, then its first normal texture as its normal map, each when there
/// is one.
pub fn material_texture_slots(material: &G1mMaterial) -> (r: Vec<(&'static str, &G1mTextureSlot)>)
    ensures
        ({
            let slots = material.texture_slots@;
            let diffuse = first_slot(slots, "Diffuse"@, 0);
            let normal = first_slot(slots, "Normal"@, 0);
            let d: int = if diffuse is Some { 1 } else { 0 };
            &&& r@.len() == d + if normal is Some { 1int } else { 0int }
            &&& diffuse matches Some(i) ==> r@[0].0@ == "DiffuseColor"@ && *r@[0].1 == slots[i]
            &&& normal matches Some(i) ==> r@[d].0@ == "NormalMap"@ && *r@[d].1 == slots[i]
        }),
{
    let mut result: Vec<(&'static str, &G1mTextureSlot)> = Vec::new();
    if let Some(slot) = find_slot(&material.texture_slots, "Diffuse") {
        result.push(("DiffuseColor", slot));
    }
    if let Some(slot) = find_slot(&material.texture_slots, "Normal") {
        result.push(("NormalMap", slot));
    }
    result
}

} // verus!
