use vstd::prelude::*;
use vstd::string::StringSliceAdditionalSpecFns;
use crate::aoc::g1m::rebuild::{layout_attrs, layout_fits, layout_of, layout_ok, source_layout};
use crate::aoc::g1m::replace::{decimal_value, mesh_index, mesh_number_text};
use crate::aoc::g1m::source::{Attr, Geometry, SubmeshWords};
use crate::error::{invalid, Error, ErrorKind};
use crate::fmt::{decimal, push_decimal};
use crate::text::str_eq;
use vstd::string::{StrSliceExecFns, StringExecFns};

verus! {

/// A mesh read from an FBX file for replacing the meshes of a G1M model; floats are
/// kept by their bit patterns.
#[derive(Clone, Debug)]
pub struct ImportedMesh {
    pub name: String,
    pub material: String,
    pub positions: Vec<[u32; 3]>,
    pub normals: Vec<[u32; 3]>,
    pub tangents: Vec<[u32; 4]>,
    pub uv_maps: Vec<Vec<[u32; 2]>>,
    pub colors: Vec<Vec<[u32; 4]>>,
    pub bone_indices: Vec<[u16; 8]>,
    pub bone_weights: Vec<[u32; 8]>,
    pub palette_bones: Vec<u16>,
    pub source_vertices: Vec<usize>,
    pub indices: Vec<u32>,
}

/// The armature-bound meshes and the bones (name and parent name) of an FBX file.
#[derive(Clone, Debug)]
pub struct ImportedFbx {
    pub meshes: Vec<ImportedMesh>,
    pub bones: Vec<(String, Option<String>)>,
}

/// A bone of the G1M model being replaced: its name and its parent's index, negative
/// for a root.
#[derive(Clone, Debug)]
pub struct ModelBone {
    pub name: String,
    pub parent_index: i16,
}

/// What the replacement is checked against from the G1M model: its number of meshes,
/// its bones in order, and the local index of each global joint (`u16::MAX` where the
/// model has none).
#[derive(Clone, Debug)]
pub struct ModelSkeleton {
    pub mesh_count: usize,
    pub bones: Vec<ModelBone>,
    pub global_to_local_bones: Vec<u16>,
}

/// The number of submeshes from `i` on that belong to group `g` (word 4), up to the
/// first that does not.
pub open spec fn group_run(subs: Seq<SubmeshWords>, g: u32, i: int) -> int
    decreases subs.len() - i,
{
    if 0 <= i < subs.len() && subs[i].values@[4] == g {
        1 + group_run(subs, g, i + 1)
    } else {
        0
    }
}

/// The number of leading submeshes in the first submesh's group: the meshes that are
/// replaced.
pub open spec fn replace_count(subs: Seq<SubmeshWords>) -> int {
    group_run(subs, subs[0].values@[4], 0)
}

proof fn lemma_group_run(subs: Seq<SubmeshWords>, g: u32, j: int, k: int)
    requires
        0 <= j <= k <= subs.len(),
        forall|m: int| j <= m < k ==> #[trigger] subs[m].values@[4] == g,
        k == subs.len() || subs[k].values@[4] != g,
    ensures
        group_run(subs, g, j) == k - j,
    decreases k - j,
{
    if j < k {
        lemma_group_run(subs, g, j + 1, k);
    }
}

/// The number of leading submeshes in the group of the first; `None` when there is
/// none.
pub fn leading_group(subs: &Vec<SubmeshWords>) -> (r: Option<usize>)
    ensures
        r is None <==> subs@.len() == 0,
        r matches Some(n) ==> n == replace_count(subs@) && n <= subs@.len(),
{
    if subs.len() == 0 {
        return None;
    }
    let g = subs[0].values[4];
    let mut k: usize = 0;
    while k < subs.len() && subs[k].values[4] == g
        invariant
            k <= subs@.len(),
            g == subs@[0].values@[4],
            forall|j: int| 0 <= j < k ==> #[trigger] subs@[j].values@[4] == g,
        decreases subs@.len() - k,
    {
        k = k + 1;
    }
    proof {
        lemma_group_run(subs@, g, 0, k as int);
    }
    Some(k)
}

/// Whether imported bone `i` is one the exporter generates at the end of a chain: its
/// name is its parent's followed by `_end`.
pub open spec fn generated_end(bones: Seq<(String, Option<String>)>, i: int) -> bool {
    bones[i].1 matches Some(p) && bones[i].0@ == p@ + "_end"@
}

/// Whether every imported bone that is not a generated end names, through the global
/// joint index `globals` gives for it, a joint of the model.
pub open spec fn bones_known(bones: Seq<(String, Option<String>)>, globals: Seq<Option<usize>>, g2l: Seq<u16>) -> bool {
    forall|i: int|
        0 <= i < bones.len() ==> #[trigger] generated_end(bones, i) || (globals[i] matches Some(g) && g < g2l.len()
            && g2l[g as int] != 0xffff)
}

/// Whether the names of `names` are pairwise distinct.
pub open spec fn distinct_names(names: Seq<Seq<char>>) -> bool {
    forall|i: int, j: int| 0 <= i < j < names.len() ==> #[trigger] names[i] != #[trigger] names[j]
}

/// Whether imported bone `i` is a generated end.
fn is_generated_end(bones: &Vec<(String, Option<String>)>, i: usize) -> (r: bool)
    requires
        i < bones@.len(),
    ensures
        r == generated_end(bones@, i as int),
{
    match &bones[i].1 {
        Some(p) => {
            let mut expected = p.clone();
            let tail = String::from_str("_end");
            let joined = expected.concat(tail.as_str());
            str_eq(bones[i].0.as_str(), joined.as_str())
        },
        None => false,
    }
}

/// Checks that every imported bone but a generated end is a joint of the model; fails
/// with `InvalidData` otherwise.
pub fn check_bones(bones: &Vec<(String, Option<String>)>, globals: &Vec<Option<usize>>, g2l: &Vec<u16>) -> (r: Result<(), Error>)
    requires
        globals@.len() == bones@.len(),
    ensures
        r is Ok <==> bones_known(bones@, globals@, g2l@),
        r matches Err(e) ==> e.kind == ErrorKind::InvalidData,
{
    let mut i: usize = 0;
    while i < bones.len()
        invariant
            i <= bones@.len(),
            globals@.len() == bones@.len(),
            forall|j: int|
                0 <= j < i ==> #[trigger] generated_end(bones@, j) || (globals@[j] matches Some(g) && g < g2l@.len()
                    && g2l@[g as int] != 0xffff),
        decreases bones@.len() - i,
    {
        if !is_generated_end(bones, i) {
            match globals[i] {
                Some(g) => {
                    if g >= g2l.len() || g2l[g] == 0xffff {
                        return Err(invalid("FBX armature bone is not present in the G1M skeleton"));
                    }
                },
                None => {
                    return Err(invalid("FBX armature contains an unknown bone"));
                },
            }
        }
        i = i + 1;
    }
    Ok(())
}

/// Whether the strings of `names` are pairwise distinct.
pub fn names_distinct(names: &Vec<String>) -> (r: bool)
    ensures
        r == distinct_names(names@.map_values(|s: String| s@)),
{
    let ghost v = names@.map_values(|s: String| s@);
    let mut i: usize = 0;
    while i < names.len()
        invariant
            i <= names@.len(),
            v == names@.map_values(|s: String| s@),
            forall|a: int, b: int| 0 <= a < i && a < b < v.len() ==> #[trigger] v[a] != #[trigger] v[b],
        decreases names@.len() - i,
    {
        let mut j: usize = i + 1;
        while j < names.len()
            invariant
                i < names@.len(),
                i < j <= names@.len(),
                v == names@.map_values(|s: String| s@),
                forall|a: int, b: int| 0 <= a < i && a < b < v.len() ==> #[trigger] v[a] != #[trigger] v[b],
                forall|b: int| i < b < j ==> v[i as int] != #[trigger] v[b],
            decreases names@.len() - j,
        {
            if str_eq(names[i].as_str(), names[j].as_str()) {
                assert(v[i as int] == v[j as int]);
                return false;
            }
            j = j + 1;
        }
        i = i + 1;
    }
    true
}

/// The first of `names` equal to `s`, if any.
pub open spec fn position_of(names: Seq<Seq<char>>, s: Seq<char>) -> Option<int>
    decreases names.len(),
{
    if names.len() == 0 {
        None
    } else {
        match position_of(names.drop_last(), s) {
            Some(i) => Some(i),
            None => if names.last() == s {
                Some(names.len() - 1)
            } else {
                None
            },
        }
    }
}

proof fn lemma_position_of(names: Seq<Seq<char>>, s: Seq<char>)
    ensures
        position_of(names, s) matches Some(i) ==> 0 <= i < names.len() && names[i] == s && forall|j: int|
            0 <= j < i ==> #[trigger] names[j] != s,
        position_of(names, s) is None ==> forall|j: int| 0 <= j < names.len() ==> #[trigger] names[j] != s,
    decreases names.len(),
{
    if names.len() > 0 {
        lemma_position_of(names.drop_last(), s);
        assert forall|j: int| 0 <= j < names.len() - 1 implies #[trigger] names[j] == names.drop_last()[j] by {}
    }
}

/// The names of the imported bones.
pub open spec fn imported_names(bones: Seq<(String, Option<String>)>) -> Seq<Seq<char>> {
    bones.map_values(|b: (String, Option<String>)| b.0@)
}

/// The names of the model's bones.
pub open spec fn model_names(bones: Seq<ModelBone>) -> Seq<Seq<char>> {
    bones.map_values(|b: ModelBone| b.name@)
}

/// Walking up from the bone at `pi`, at most `fuel` bones: the first whose name is
/// among `names` (`Some(Some(..))`), the root (`Some(None)`), or `None` when the walk
/// leaves the bones or does not end.
pub open spec fn ancestor(bones: Seq<ModelBone>, names: Seq<Seq<char>>, pi: int, fuel: nat) -> Option<Option<int>>
    decreases fuel,
{
    if pi < 0 {
        Some(None)
    } else if fuel == 0 || pi >= bones.len() {
        None
    } else if names.contains(bones[pi].name@) {
        Some(Some(pi))
    } else {
        ancestor(bones, names, bones[pi].parent_index as int, (fuel - 1) as nat)
    }
}

/// Whether, for every model bone, the walk up from its parent to the nearest bone that
/// the FBX also has ends.
pub open spec fn ancestry_ends(bones: Seq<ModelBone>, names: Seq<Seq<char>>) -> bool {
    forall|k: int|
        0 <= k < bones.len() ==> #[trigger] ancestor(bones, names, bones[k].parent_index as int, bones.len() as nat) is Some
}

/// The name of the nearest ancestor of model bone `k` that the FBX also has.
pub open spec fn expected_parent(bones: Seq<ModelBone>, names: Seq<Seq<char>>, k: int) -> Option<Seq<char>> {
    match ancestor(bones, names, bones[k].parent_index as int, bones.len() as nat) {
        Some(Some(c)) => Some(bones[c].name@),
        _ => None,
    }
}

/// The parent name of an imported bone, as text.
pub open spec fn parent_text(p: Option<String>) -> Option<Seq<char>> {
    match p {
        Some(s) => Some(s@),
        None => None,
    }
}

/// Whether each model bone that the FBX also has keeps its parent: the FBX bone's
/// parent is the nearest ancestor the FBX also has, and its index fits 16 bits.
pub open spec fn parents_kept(bones: Seq<ModelBone>, imported: Seq<(String, Option<String>)>) -> bool {
    let names = imported_names(imported);
    forall|k: int|
        0 <= k < bones.len() ==> (#[trigger] position_of(names, bones[k].name@) matches Some(i) ==> parent_text(
            imported[i].1,
        ) == expected_parent(bones, names, k) && k <= 0xffff)
}

/// The first imported bone named `s`.
fn find_bone(imported: &Vec<(String, Option<String>)>, s: &str) -> (r: Option<usize>)
    ensures
        r matches Some(i) ==> position_of(imported_names(imported@), s@) == Some(i as int),
        r is None ==> position_of(imported_names(imported@), s@) is None,
{
    let ghost v = imported_names(imported@);
    proof {
        lemma_position_of(v, s@);
    }
    let mut i: usize = 0;
    while i < imported.len()
        invariant
            i <= imported@.len(),
            v == imported_names(imported@),
            forall|j: int| 0 <= j < i ==> #[trigger] v[j] != s@,
            forall|j: int| 0 <= j < v.len() ==> #[trigger] v[j] == imported@[j].0@,
            position_of(v, s@) matches Some(q) ==> 0 <= q < v.len() && v[q] == s@ && forall|j: int|
                0 <= j < q ==> #[trigger] v[j] != s@,
            position_of(v, s@) is None ==> forall|j: int| 0 <= j < v.len() ==> #[trigger] v[j] != s@,
        decreases imported@.len() - i,
    {
        if str_eq(imported[i].0.as_str(), s) {
            proof {
                assert(v[i as int] == imported@[i as int].0@);
                if let Some(q) = position_of(v, s@) {
                    if q < i {
                        assert(v[q] != s@);
                    } else if q > i {
                        assert(v[i as int] != s@);
                    }
                }
            }
            return Some(i);
        }
        i = i + 1;
    }
    None
}

proof fn lemma_ancestor_in_bones(bones: Seq<ModelBone>, names: Seq<Seq<char>>, pi: int, fuel: nat)
    ensures
        ancestor(bones, names, pi, fuel) matches Some(Some(c)) ==> 0 <= c < bones.len(),
    decreases fuel,
{
    if pi >= 0 && fuel > 0 && pi < bones.len() && !names.contains(bones[pi].name@) {
        lemma_ancestor_in_bones(bones, names, bones[pi].parent_index as int, (fuel - 1) as nat);
    }
}

/// The nearest ancestor of the bone at `start` whose name the FBX also has.
fn find_ancestor(bones: &Vec<ModelBone>, imported: &Vec<(String, Option<String>)>, start: i16) -> (r: Option<usize>)
    requires
        ancestor(bones@, imported_names(imported@), start as int, bones@.len() as nat) is Some,
    ensures
        ancestor(bones@, imported_names(imported@), start as int, bones@.len() as nat) == Some(
            match r {
                Some(c) => Some(c as int),
                None => None::<int>,
            },
        ),
{
    let ghost names = imported_names(imported@);
    let mut pi = start;
    let mut fuel: usize = bones.len();
    while pi >= 0
        invariant
            ancestor(bones@, names, pi as int, fuel as nat) == ancestor(bones@, names, start as int, bones@.len() as nat),
            ancestor(bones@, names, pi as int, fuel as nat) is Some,
            names == imported_names(imported@),
        decreases fuel,
    {
        let c = pi as usize;
        match find_bone(imported, bones[c].name.as_str()) {
            Some(_) => {
                proof {
                    lemma_position_of(names, bones@[c as int].name@);
                }
                return Some(c);
            },
            None => {
                proof {
                    lemma_position_of(names, bones@[c as int].name@);
                }
                pi = bones[c].parent_index;
                fuel = fuel - 1;
            },
        }
    }
    None
}

/// Checks that every model bone the FBX also has keeps its parent there; fails with
/// `InvalidData` otherwise.
pub fn check_parents(bones: &Vec<ModelBone>, imported: &Vec<(String, Option<String>)>) -> (r: Result<(), Error>)
    requires
        ancestry_ends(bones@, imported_names(imported@)),
    ensures
        r is Ok <==> parents_kept(bones@, imported@),
        r matches Err(e) ==> e.kind == ErrorKind::InvalidData,
{
    let ghost names = imported_names(imported@);
    let mut k: usize = 0;
    while k < bones.len()
        invariant
            k <= bones@.len(),
            names == imported_names(imported@),
            ancestry_ends(bones@, names),
            forall|j: int|
                0 <= j < k ==> (#[trigger] position_of(names, bones@[j].name@) matches Some(i) ==> parent_text(
                    imported@[i].1,
                ) == expected_parent(bones@, names, j) && j <= 0xffff),
        decreases bones@.len() - k,
    {
        let found = find_ancestor(bones, imported, bones[k].parent_index);
        proof {
            lemma_ancestor_in_bones(bones@, names, bones@[k as int].parent_index as int, bones@.len() as nat);
        }
        match find_bone(imported, bones[k].name.as_str()) {
            None => {},
            Some(i) => {
                proof {
                    lemma_position_of(names, bones@[k as int].name@);
                }
                let same = match (&imported[i].1, found) {
                    (Some(p), Some(c)) => str_eq(p.as_str(), bones[c].name.as_str()),
                    (None, None) => true,
                    _ => false,
                };
                if !same {
                    return Err(invalid("FBX bone has a different parent"));
                }
                if k > 0xffff {
                    return Err(invalid("armature exceeds G1M bone index range"));
                }
            },
        }
        k = k + 1;
    }
    Ok(())
}

/// The code of a character, with an ASCII capital letter lowered.
pub open spec fn ascii_lower(c: char) -> int {
    if 65 <= (c as u32) <= 90 {
        (c as u32) + 32
    } else {
        c as int
    }
}

/// Whether two texts are equal but for the case of ASCII letters.
pub open spec fn equal_ignoring_case(a: Seq<char>, b: Seq<char>) -> bool {
    a.len() == b.len() && forall|i: int| 0 <= i < a.len() ==> ascii_lower(#[trigger] a[i]) == ascii_lower(b[i])
}

/// Whether two texts are equal but for the case of ASCII letters.
fn eq_ignoring_case(a: &str, b: &str) -> (r: bool)
    ensures
        r == equal_ignoring_case(a@, b@),
{
    let n = a.unicode_len();
    if n != b.unicode_len() {
        return false;
    }
    let mut i: usize = 0;
    while i < n
        invariant
            n == a@.len(),
            n == b@.len(),
            i <= n,
            forall|j: int| 0 <= j < i ==> ascii_lower(#[trigger] a@[j]) == ascii_lower(b@[j]),
        decreases n - i,
    {
        let x = a.get_char(i);
        let y = b.get_char(i);
        let cx = x as u32;
        let cy = y as u32;
        let lx = if 65 <= cx && cx <= 90 {
            cx + 32
        } else {
            cx
        };
        let ly = if 65 <= cy && cy <= 90 {
            cy + 32
        } else {
            cy
        };
        if lx != ly {
            return false;
        }
        i = i + 1;
    }
    true
}

/// The slot an imported mesh's name names: the number in `12.vb`, `Mesh 12` or `12`.
#[verifier::opaque]
pub open spec fn slot_of(m: ImportedMesh) -> Option<int> {
    decimal_value(mesh_number_text(vstd::utf8::encode_utf8(m.name@)))
}

/// Whether an imported mesh's material is the one of its slot, whose material index is
/// `mi`: `Material <mi>` or `<name>_<mi>`, ignoring the case of ASCII letters.
#[verifier::opaque]
pub open spec fn material_matches(m: ImportedMesh, name: Seq<char>, mi: nat) -> bool {
    equal_ignoring_case(m.material@, "Material "@ + decimal(mi)) || equal_ignoring_case(
        m.material@,
        name + "_"@ + decimal(mi),
    )
}

/// Whether some imported mesh names slot `s`.
pub open spec fn slot_named(meshes: Seq<ImportedMesh>, s: int) -> bool {
    exists|i: int| 0 <= i < meshes.len() && #[trigger] slot_of(meshes[i]) == Some(s)
}

/// Whether the imported meshes fill the `rc` replaced slots one each: each names a
/// slot below `rc`, no two the same, each with its slot's material, and every slot is
/// named.
pub open spec fn slots_ok(meshes: Seq<ImportedMesh>, subs: Seq<SubmeshWords>, rc: int, name: Seq<char>) -> bool {
    &&& forall|i: int|
        0 <= i < meshes.len() ==> ((#[trigger] slot_of(meshes[i])) matches Some(s) && s < rc && material_matches(
            meshes[i],
            name,
            subs[s].values@[6] as nat,
        ))
    &&& forall|i: int, j: int| 0 <= i < j < meshes.len() ==> #[trigger] slot_of(meshes[i]) != #[trigger] slot_of(meshes[j])
    &&& forall|s: int| 0 <= s < rc ==> #[trigger] slot_named(meshes, s)
}

/// Whether the mesh's material is `Material <mi>` or `<name>_<mi>`, ignoring the case
/// of ASCII letters.
fn material_ok(mesh: &ImportedMesh, name: &str, mi: u32) -> (r: bool)
    ensures
        r == material_matches(*mesh, name@, mi as nat),
{
    let mut first = String::from_str("Material ");
    push_decimal(&mut first, mi as u64);
    let named = name.to_string();
    let underscore = String::from_str("_");
    let mut second = named.concat(underscore.as_str());
    push_decimal(&mut second, mi as u64);
    proof {
        reveal(material_matches);
    }
    eq_ignoring_case(mesh.material.as_str(), first.as_str()) || eq_ignoring_case(mesh.material.as_str(), second.as_str())
}

/// The slot each imported mesh names, in the order of the meshes; fails with
/// `InvalidData` when a name names no slot, a slot past `rc` or one named before, when a
/// material is not its slot's, or when a slot is left unnamed.
#[verifier::rlimit(100)]
pub fn mesh_slots(meshes: &Vec<ImportedMesh>, subs: &Vec<SubmeshWords>, rc: usize, name: &str) -> (r: Result<Vec<usize>, Error>)
    requires
        rc <= subs@.len(),
    ensures
        r is Ok <==> slots_ok(meshes@, subs@, rc as int, name@),
        r matches Ok(v) ==> v@.len() == meshes@.len() && forall|i: int|
            0 <= i < meshes@.len() ==> #[trigger] slot_of(meshes@[i]) == Some(v@[i] as int),
        r matches Err(e) ==> e.kind == ErrorKind::InvalidData,
{
    let mut taken: Vec<bool> = Vec::new();
    let mut k: usize = 0;
    while k < rc
        invariant
            k <= rc,
            taken@.len() == k,
            forall|j: int| 0 <= j < k ==> !#[trigger] taken@[j],
        decreases rc - k,
    {
        taken.push(false);
        k = k + 1;
    }
    let mut slots: Vec<usize> = Vec::new();
    let mut i: usize = 0;
    while i < meshes.len()
        invariant
            rc <= subs@.len(),
            i <= meshes@.len(),
            taken@.len() == rc,
            slots@.len() == i,
            forall|j: int| 0 <= j < i ==> #[trigger] slot_of(meshes@[j]) == Some(slots@[j] as int),
            forall|j: int|
                0 <= j < i ==> ((#[trigger] slot_of(meshes@[j])) matches Some(s) && s < rc && material_matches(
                    meshes@[j],
                    name@,
                    subs@[s].values@[6] as nat,
                )),
            forall|j1: int, j2: int| 0 <= j1 < j2 < i ==> #[trigger] slot_of(meshes@[j1]) != #[trigger] slot_of(meshes@[j2]),
            forall|s: int| 0 <= s < rc ==> (#[trigger] taken@[s] <==> exists|j: int| 0 <= j < i && #[trigger] slot_of(meshes@[j]) == Some(s)),
        decreases meshes@.len() - i,
    {
        let mesh = &meshes[i];
        let idx = match mesh_index(mesh.name.as_str()) {
            Some(v) => v,
            None => {
                assert(slot_of(meshes@[i as int]) is None) by {
                    reveal(slot_of);
                }
                return Err(invalid("mesh name does not identify a G1M mesh"));
            },
        };
        assert(slot_of(meshes@[i as int]) == Some(idx as int)) by {
            reveal(slot_of);
        }
        if idx >= rc || taken[idx] {
            proof {
                if idx < rc {
                    let j = choose|j: int| 0 <= j < i && #[trigger] slot_of(meshes@[j]) == Some(idx as int);
                    assert(slot_of(meshes@[j]) == slot_of(meshes@[i as int]));
                }
            }
            return Err(invalid("mesh name is out of range or duplicated"));
        }
        if !material_ok(mesh, name, subs[idx].values[6]) {
            return Err(invalid("mesh material does not match the G1M material"));
        }
        taken.set(idx, true);
        slots.push(idx);
        i = i + 1;
    }
    let mut s: usize = 0;
    while s < rc
        invariant
            s <= rc,
            taken@.len() == rc,
            i == meshes@.len(),
            forall|t: int| 0 <= t < rc ==> (#[trigger] taken@[t] <==> exists|j: int| 0 <= j < i && #[trigger] slot_of(meshes@[j]) == Some(t)),
            forall|t: int| 0 <= t < s ==> #[trigger] slot_named(meshes@, t),
        decreases rc - s,
    {
        if !taken[s] {
            assert(!slot_named(meshes@, s as int)) by {
                if slot_named(meshes@, s as int) {
                    let j = choose|j: int| 0 <= j < meshes@.len() && #[trigger] slot_of(meshes@[j]) == Some(s as int);
                    assert(taken@[s as int]);
                }
            }
            return Err(invalid("FBX is missing a mesh"));
        }
        assert(taken@[s as int]);
        s = s + 1;
    }
    Ok(slots)
}

/// The UV maps a layout needs: for each texture coordinate attribute (semantic 5) two
/// for a four-component one (kind 3), else its layer plus one; the most of these, or
/// none.
pub open spec fn uv_required(a: Seq<Attr>) -> int
    decreases a.len(),
{
    if a.len() == 0 {
        0
    } else {
        let rest = uv_required(a.drop_last());
        let x = a.last();
        let need: int = if x.semantic == 5 {
            if x.kind == 3 {
                2
            } else {
                x.layer + 1
            }
        } else {
            0
        };
        if need > rest {
            need
        } else {
            rest
        }
    }
}

/// Whether a layout has a normal attribute (semantic 3).
pub open spec fn has_normals(a: Seq<Attr>) -> bool {
    exists|i: int| 0 <= i < a.len() && (#[trigger] a[i]).semantic == 3
}

/// Whether imported mesh `m` can replace submesh `k` of `source`: the submesh has a
/// layout, a normal per position where the layout has normals, and as many UV maps as
/// the layout needs, each with a coordinate per position.
pub open spec fn layout_matches(source: Geometry, k: int, m: ImportedMesh) -> bool {
    let a = layout_attrs(source.vertex_buffers@, source.attrs@, source.submeshes@, k);
    &&& layout_ok(source.vertex_buffers@, source.attrs@, source.submeshes@, k)
    &&& has_normals(a) ==> m.normals@.len() == m.positions@.len()
    &&& m.uv_maps@.len() == uv_required(a)
    &&& forall|u: int| 0 <= u < m.uv_maps@.len() ==> (#[trigger] m.uv_maps@[u])@.len() == m.positions@.len()
}

/// Whether every layout the replaced submeshes can name fits a machine word.
pub open spec fn layouts_fit(source: Geometry) -> bool {
    forall|k: int|
        0 <= k < source.submeshes@.len() && (source.submeshes@[k].values@[1] as int) < source.attrs@.len() ==> #[trigger] layout_fits(
            source.vertex_buffers@,
            source.attrs@,
            source.submeshes@,
            k,
        )
}

/// Checks that imported mesh `m` can replace submesh `k`; fails with `InvalidData`
/// otherwise.
pub fn check_layout(source: &Geometry<'_>, k: usize, m: &ImportedMesh) -> (r: Result<(), Error>)
    requires
        layouts_fit(*source),
    ensures
        r is Ok <==> layout_matches(*source, k as int, *m),
        r matches Err(e) ==> e.kind == ErrorKind::InvalidData,
{
    let (attrs, _) = source_layout(source, k)?;
    let ghost a = attrs@;
    let mut normals = false;
    let mut required: usize = 0;
    let mut i: usize = 0;
    while i < attrs.len()
        invariant
            i <= attrs@.len(),
            a == attrs@,
            normals == exists|j: int| 0 <= j < i && (#[trigger] a[j]).semantic == 3,
            required == uv_required(a.take(i as int)),
            required <= 256,
        decreases attrs@.len() - i,
    {
        assert(a.take(i + 1).drop_last() =~= a.take(i as int));
        let x = &attrs[i];
        if x.semantic == 3 {
            normals = true;
        }
        if x.semantic == 5 {
            let need: usize = if x.kind == 3 {
                2
            } else {
                x.layer as usize + 1
            };
            if need > required {
                required = need;
            }
        }
        i = i + 1;
    }
    assert(a.take(i as int) =~= a);
    if normals && m.normals.len() != m.positions.len() {
        return Err(invalid("mesh does not provide one normal per vertex"));
    }
    if m.uv_maps.len() != required {
        return Err(invalid("mesh UV map count differs from the G1M layout"));
    }
    let mut u: usize = 0;
    while u < m.uv_maps.len()
        invariant
            u <= m.uv_maps@.len(),
            forall|j: int| 0 <= j < u ==> (#[trigger] m.uv_maps@[j])@.len() == m.positions@.len(),
        decreases m.uv_maps@.len() - u,
    {
        if m.uv_maps[u].len() != m.positions.len() {
            return Err(invalid("mesh UV map layout differs from the G1M layout"));
        }
        u = u + 1;
    }
    Ok(())
}

/// The local joint index that imported bone `i` stands for: the model's local index of
/// the global joint its name gives, or 0 where there is none.
pub open spec fn remap_value(globals: Seq<Option<usize>>, g2l: Seq<u16>, i: int) -> u16 {
    match globals[i] {
        Some(g) => if g < g2l.len() && g2l[g as int] != 0xffff {
            g2l[g as int]
        } else {
            0
        },
        None => 0,
    }
}

/// Whether every joint index of the mesh names one of `n` imported bones.
pub open spec fn joints_in_range(m: ImportedMesh, n: int) -> bool {
    &&& forall|v: int, c: int| 0 <= v < m.bone_indices@.len() && 0 <= c < 8 ==> (#[trigger] m.bone_indices@[v]@[c]) < n
    &&& forall|p: int| 0 <= p < m.palette_bones@.len() ==> (#[trigger] m.palette_bones@[p]) < n
}

/// Whether `x` is `m` with each joint index `j` replaced by `remap[j]`.
pub open spec fn remapped(x: ImportedMesh, m: ImportedMesh, remap: Seq<u16>) -> bool {
    &&& x.name == m.name
    &&& x.material == m.material
    &&& x.positions == m.positions
    &&& x.normals == m.normals
    &&& x.tangents == m.tangents
    &&& x.uv_maps == m.uv_maps
    &&& x.colors == m.colors
    &&& x.bone_weights == m.bone_weights
    &&& x.source_vertices == m.source_vertices
    &&& x.indices == m.indices
    &&& x.bone_indices@.len() == m.bone_indices@.len()
    &&& forall|v: int, c: int|
        0 <= v < m.bone_indices@.len() && 0 <= c < 8 ==> (#[trigger] x.bone_indices@[v]@[c]) == remap[m.bone_indices@[v]@[c] as int]
    &&& x.palette_bones@.len() == m.palette_bones@.len()
    &&& forall|p: int| 0 <= p < m.palette_bones@.len() ==> (#[trigger] x.palette_bones@[p]) == remap[m.palette_bones@[p] as int]
}

/// The local joint index of each imported bone.
pub fn bone_remap(globals: &Vec<Option<usize>>, g2l: &Vec<u16>) -> (r: Vec<u16>)
    ensures
        r@.len() == globals@.len(),
        forall|i: int| 0 <= i < globals@.len() ==> #[trigger] r@[i] == remap_value(globals@, g2l@, i),
{
    let mut r: Vec<u16> = Vec::new();
    let mut i: usize = 0;
    while i < globals.len()
        invariant
            i <= globals@.len(),
            r@.len() == i,
            forall|j: int| 0 <= j < i ==> #[trigger] r@[j] == remap_value(globals@, g2l@, j),
        decreases globals@.len() - i,
    {
        let v = match globals[i] {
            Some(g) => if g < g2l.len() && g2l[g] != 0xffff {
                g2l[g]
            } else {
                0
            },
            None => 0,
        };
        r.push(v);
        i = i + 1;
    }
    r
}

/// The mesh with each joint index `j` replaced by `remap[j]`.
fn remap_mesh(m: ImportedMesh, remap: &Vec<u16>) -> (x: ImportedMesh)
    requires
        joints_in_range(m, remap@.len() as int),
    ensures
        remapped(x, m, remap@),
{
    let ghost old_m = m;
    let ImportedMesh {
        name,
        material,
        positions,
        normals,
        tangents,
        uv_maps,
        colors,
        bone_indices,
        bone_weights,
        palette_bones,
        source_vertices,
        indices,
    } = m;
    let mut joints: Vec<[u16; 8]> = Vec::new();
    let mut v: usize = 0;
    while v < bone_indices.len()
        invariant
            v <= bone_indices@.len(),
            bone_indices == old_m.bone_indices,
            joints_in_range(old_m, remap@.len() as int),
            joints@.len() == v,
            forall|w: int, c: int|
                0 <= w < v && 0 <= c < 8 ==> (#[trigger] joints@[w]@[c]) == remap@[bone_indices@[w]@[c] as int],
        decreases bone_indices@.len() - v,
    {
        let old = bone_indices[v];
        let mut new: [u16; 8] = [0; 8];
        let mut c: usize = 0;
        while c < 8
            invariant
                c <= 8,
                v < bone_indices@.len(),
                old == bone_indices@[v as int],
                joints_in_range(old_m, remap@.len() as int),
                bone_indices == old_m.bone_indices,
                forall|d: int| 0 <= d < c ==> #[trigger] new@[d] == remap@[old@[d] as int],
            decreases 8 - c,
        {
            assert(old@[c as int] == bone_indices@[v as int]@[c as int]);
            new.set(c, remap[old[c] as usize]);
            c = c + 1;
        }
        joints.push(new);
        v = v + 1;
    }
    let mut palette: Vec<u16> = Vec::new();
    let mut p: usize = 0;
    while p < palette_bones.len()
        invariant
            p <= palette_bones@.len(),
            palette_bones == old_m.palette_bones,
            joints_in_range(old_m, remap@.len() as int),
            palette@.len() == p,
            forall|q: int| 0 <= q < p ==> (#[trigger] palette@[q]) == remap@[palette_bones@[q] as int],
        decreases palette_bones@.len() - p,
    {
        palette.push(remap[palette_bones[p] as usize]);
        p = p + 1;
    }
    ImportedMesh {
        name,
        material,
        positions,
        normals,
        tangents,
        uv_maps,
        colors,
        bone_indices: joints,
        bone_weights,
        palette_bones: palette,
        source_vertices,
        indices,
    }
}

/// Whether `x` is what imported mesh `m` becomes: itself, or with its joints remapped.
pub open spec fn placed(x: ImportedMesh, m: ImportedMesh, remap: Seq<u16>, apply: bool) -> bool {
    if apply {
        remapped(x, m, remap)
    } else {
        x == m
    }
}

/// Whether some mesh goes to slot `s`.
pub open spec fn slot_taken(slots: Seq<usize>, s: int) -> bool {
    exists|i: int| 0 <= i < slots.len() && #[trigger] slots[i] == s
}

/// Whether `slots` sends the `n` meshes one to one onto the slots below `n`.
pub open spec fn is_permutation(slots: Seq<usize>, n: int) -> bool {
    &&& slots.len() == n
    &&& forall|i: int| 0 <= i < n ==> (#[trigger] slots[i] as int) < n
    &&& forall|i: int, j: int| 0 <= i < j < n ==> #[trigger] slots[i] != #[trigger] slots[j]
    &&& forall|s: int| 0 <= s < n ==> #[trigger] slot_taken(slots, s)
}

/// The meshes put in their slots, with their joints remapped when `apply` holds.
fn place(meshes: Vec<ImportedMesh>, slots: &Vec<usize>, remap: &Vec<u16>, apply: bool) -> (r: Vec<ImportedMesh>)
    requires
        is_permutation(slots@, meshes@.len() as int),
        apply ==> forall|i: int| 0 <= i < meshes@.len() ==> joints_in_range(#[trigger] meshes@[i], remap@.len() as int),
    ensures
        r@.len() == meshes@.len(),
        forall|i: int| 0 <= i < meshes@.len() ==> placed(#[trigger] r@[slots@[i] as int], meshes@[i], remap@, apply),
{
    let ghost orig = meshes@;
    let n = meshes.len();
    let mut cells: Vec<Option<ImportedMesh>> = Vec::new();
    let mut k: usize = 0;
    while k < n
        invariant
            k <= n,
            cells@.len() == k,
        decreases n - k,
    {
        cells.push(None);
        k = k + 1;
    }
    let mut meshes = meshes;
    let mut i: usize = n;
    while i > 0
        invariant
            i <= n,
            n == orig.len(),
            meshes@ == orig.take(i as int),
            cells@.len() == n,
            is_permutation(slots@, n as int),
            apply ==> forall|j: int| 0 <= j < n ==> joints_in_range(#[trigger] orig[j], remap@.len() as int),
            forall|j: int|
                i <= j < n ==> ((#[trigger] cells@[slots@[j] as int]) matches Some(x) && placed(x, orig[j], remap@, apply)),
        decreases i,
    {
        i = i - 1;
        let m = match meshes.pop() {
            Some(m) => m,
            None => {
                assert(false);
                return Vec::new();
            },
        };
        assert(m == orig[i as int]);
        assert(meshes@ =~= orig.take(i as int));
        let x = if apply {
            remap_mesh(m, remap)
        } else {
            m
        };
        let ghost before = cells@;
        cells.set(slots[i], Some(x));
        assert forall|j: int| i <= j < n implies ((#[trigger] cells@[slots@[j] as int]) matches Some(y) && placed(y, orig[j], remap@, apply)) by {
            if j > i {
                assert(slots@[j] != slots@[i as int]);
                assert(cells@[slots@[j] as int] == before[slots@[j] as int]);
            }
        }
    }
    assert forall|s: int| 0 <= s < n implies (#[trigger] cells@[s]) is Some by {
        assert(slot_taken(slots@, s));
        let j = choose|j: int| 0 <= j < slots@.len() && #[trigger] slots@[j] == s;
        assert(cells@[slots@[j] as int] is Some);
    }
    let ghost full = cells@;
    let mut result: Vec<ImportedMesh> = Vec::new();
    let mut k: usize = n;
    while k > 0
        invariant
            k <= n,
            n == orig.len(),
            full.len() == n,
            cells@ == full.take(k as int),
            forall|s: int| 0 <= s < n ==> (#[trigger] full[s]) is Some,
            result@.len() == n - k,
            forall|s: int| k <= s < n ==> Some(#[trigger] result@[s - k]) == full[s],
        decreases k,
    {
        k = k - 1;
        let c = cells.pop();
        assert(c == Some(full[k as int]));
        assert(cells@ =~= full.take(k as int));
        if let Some(Some(x)) = c {
            let ghost before = result@;
            let ghost kk = k + 1;
            assert(forall|s: int| kk <= s < n ==> Some(#[trigger] before[s - kk]) == full[s]);
            result.insert(0, x);
            assert forall|s: int| k <= s < n implies Some(#[trigger] result@[s - k]) == full[s] by {
                if s > k {
                    assert(result@[s - k] == before[s - kk]);
                } else {
                    assert(result@[0] == x);
                }
            }
        }
    }
    assert forall|i: int| 0 <= i < n implies placed(#[trigger] result@[slots@[i] as int], orig[i], remap@, apply) by {
        let s = slots@[i] as int;
        assert(k == 0);
        assert(Some(result@[s - k]) == full[s]);
    }
    result
}

/// The checks made before the meshes are ordered: the model's submeshes match its mesh
/// list and there is one, the FBX has as many meshes as are replaced, its bones are
/// joints of the model, the names of the model's bones and of the FBX bones are each
/// distinct, and the FBX bones keep the model's parents.
pub open spec fn armature_ok(model: ModelSkeleton, source: Geometry, imported: ImportedFbx, globals: Seq<Option<usize>>) -> bool {
    &&& source.submeshes@.len() == model.mesh_count
    &&& source.submeshes@.len() > 0
    &&& imported.meshes@.len() == replace_count(source.submeshes@)
    &&& bones_known(imported.bones@, globals, model.global_to_local_bones@)
    &&& distinct_names(model_names(model.bones@))
    &&& distinct_names(imported_names(imported.bones@))
    &&& parents_kept(model.bones@, imported.bones@)
}

/// The checks before the parents are compared.
pub open spec fn before_parents(model: ModelSkeleton, source: Geometry, imported: ImportedFbx, globals: Seq<Option<usize>>) -> bool {
    &&& source.submeshes@.len() == model.mesh_count
    &&& source.submeshes@.len() > 0
    &&& imported.meshes@.len() == replace_count(source.submeshes@)
    &&& bones_known(imported.bones@, globals, model.global_to_local_bones@)
    &&& distinct_names(model_names(model.bones@))
    &&& distinct_names(imported_names(imported.bones@))
}

/// Whether each imported mesh fits the layout of the slot it names.
pub open spec fn layouts_ok(source: Geometry, meshes: Seq<ImportedMesh>) -> bool {
    forall|i: int| 0 <= i < meshes.len() ==> layout_matches(source, slot_of(#[trigger] meshes[i])->Some_0, meshes[i])
}

/// The local joint index of each imported bone, as `remap_value` gives it.
pub open spec fn remap_of(globals: Seq<Option<usize>>, g2l: Seq<u16>) -> Seq<u16> {
    Seq::new(globals.len(), |i: int| remap_value(globals, g2l, i))
}

/// Whether the FBX can replace the model's meshes: the armature checks, the slots, and
/// the layouts.
pub open spec fn replacement_ok(model: ModelSkeleton, source: Geometry, imported: ImportedFbx, globals: Seq<Option<usize>>, name: Seq<char>) -> bool {
    &&& armature_ok(model, source, imported, globals)
    &&& slots_ok(imported.meshes@, source.submeshes@, replace_count(source.submeshes@), name)
    &&& layouts_ok(source, imported.meshes@)
}

fn names_of_bones(bones: &Vec<ModelBone>) -> (r: Vec<String>)
    ensures
        r@.map_values(|s: String| s@) == model_names(bones@),
{
    let mut r: Vec<String> = Vec::new();
    let mut i: usize = 0;
    while i < bones.len()
        invariant
            i <= bones@.len(),
            r@.len() == i,
            forall|j: int| 0 <= j < i ==> (#[trigger] r@[j])@ == bones@[j].name@,
        decreases bones@.len() - i,
    {
        r.push(bones[i].name.clone());
        i = i + 1;
    }
    assert(r@.map_values(|s: String| s@) =~= model_names(bones@));
    r
}

fn names_of_imported(bones: &Vec<(String, Option<String>)>) -> (r: Vec<String>)
    ensures
        r@.map_values(|s: String| s@) == imported_names(bones@),
{
    let mut r: Vec<String> = Vec::new();
    let mut i: usize = 0;
    while i < bones.len()
        invariant
            i <= bones@.len(),
            r@.len() == i,
            forall|j: int| 0 <= j < i ==> (#[trigger] r@[j])@ == bones@[j].0@,
        decreases bones@.len() - i,
    {
        r.push(bones[i].0.clone());
        i = i + 1;
    }
    assert(r@.map_values(|s: String| s@) =~= imported_names(bones@));
    r
}

/// Checks that the FBX meshes and armature can replace the leading meshes of the G1M
/// model, puts the meshes in the order of the slots their names give, and replaces
/// their joint indices by the model's local ones. `globals` holds the global joint
/// index each FBX bone's name stands for. Fails with `InvalidData` when a check fails:
/// the meshes are then left as they were when an armature check fails, gone when a
/// mesh names no fitting slot, and ordered but not remapped when a layout differs.
#[verifier::rlimit(100)]
pub fn validate_and_order(
    model: &ModelSkeleton,
    source: &Geometry<'_>,
    imported: &mut ImportedFbx,
    globals: &Vec<Option<usize>>,
    name: &str,
) -> (r: Result<(), Error>)
    requires
        globals@.len() == old(imported).bones@.len(),
        before_parents(*model, *source, *old(imported), globals@) ==> ancestry_ends(model.bones@, imported_names(old(imported).bones@)),
        layouts_fit(*source),
        replacement_ok(*model, *source, *old(imported), globals@, name@) ==> forall|i: int|
            0 <= i < old(imported).meshes@.len() ==> joints_in_range(#[trigger] old(imported).meshes@[i], globals@.len() as int),
    ensures
        r is Ok <==> replacement_ok(*model, *source, *old(imported), globals@, name@),
        final(imported).bones == old(imported).bones,
        !armature_ok(*model, *source, *old(imported), globals@) ==> final(imported).meshes == old(imported).meshes,
        armature_ok(*model, *source, *old(imported), globals@) && !slots_ok(
            old(imported).meshes@,
            source.submeshes@,
            replace_count(source.submeshes@),
            name@,
        ) ==> final(imported).meshes@.len() == 0,
        armature_ok(*model, *source, *old(imported), globals@) && slots_ok(
            old(imported).meshes@,
            source.submeshes@,
            replace_count(source.submeshes@),
            name@,
        ) ==> {
            let apply = layouts_ok(*source, old(imported).meshes@);
            &&& final(imported).meshes@.len() == old(imported).meshes@.len()
            &&& forall|i: int|
                0 <= i < old(imported).meshes@.len() ==> placed(
                    #[trigger] final(imported).meshes@[slot_of(old(imported).meshes@[i])->Some_0],
                    old(imported).meshes@[i],
                    remap_of(globals@, model.global_to_local_bones@),
                    apply,
                )
        },
        r matches Err(e) ==> e.kind == ErrorKind::InvalidData,
{
    let ghost start = *imported;
    if source.submeshes.len() != model.mesh_count {
        return Err(invalid("G1M mesh metadata is inconsistent"));
    }
    let rc = match leading_group(&source.submeshes) {
        Some(n) => n,
        None => return Err(invalid("G1M contains no meshes")),
    };
    if imported.meshes.len() != rc {
        return Err(invalid("mesh count differs between the G1M and the FBX"));
    }
    check_bones(&imported.bones, globals, &model.global_to_local_bones)?;
    let model_bone_names = names_of_bones(&model.bones);
    if !names_distinct(&model_bone_names) {
        return Err(invalid("G1M bone names are not unique"));
    }
    let imported_bone_names = names_of_imported(&imported.bones);
    if !names_distinct(&imported_bone_names) {
        return Err(invalid("FBX bone names are not unique"));
    }
    check_parents(&model.bones, &imported.bones)?;
    assert(armature_ok(*model, *source, start, globals@));
    let slots = match mesh_slots(&imported.meshes, &source.submeshes, rc, name) {
        Ok(v) => v,
        Err(err) => {
            imported.meshes = Vec::new();
            return Err(err);
        },
    };
    proof {
        assert forall|s: int| 0 <= s < rc implies #[trigger] slot_taken(slots@, s) by {
            assert(slot_named(start.meshes@, s));
            let i = choose|i: int| 0 <= i < start.meshes@.len() && #[trigger] slot_of(start.meshes@[i]) == Some(s);
            assert(slots@[i] == s);
        }
        assert forall|i: int, j: int| 0 <= i < j < rc implies #[trigger] slots@[i] != #[trigger] slots@[j] by {
            assert(slot_of(start.meshes@[i]) != slot_of(start.meshes@[j]));
        }
        assert forall|i: int| 0 <= i < rc implies (#[trigger] slots@[i] as int) < rc by {
            assert(slot_of(start.meshes@[i]) == Some(slots@[i] as int));
        }
    }
    let remap = bone_remap(globals, &model.global_to_local_bones);
    assert(remap@ =~= remap_of(globals@, model.global_to_local_bones@));
    let mut fits = true;
    let mut i: usize = 0;
    while i < rc
        invariant
            i <= rc,
            rc == start.meshes@.len(),
            imported.meshes == start.meshes,
            slots@.len() == rc,
            forall|j: int| 0 <= j < rc ==> #[trigger] slot_of(start.meshes@[j]) == Some(slots@[j] as int),
            layouts_fit(*source),
            fits == forall|j: int| 0 <= j < i ==> layout_matches(*source, slot_of(#[trigger] start.meshes@[j])->Some_0, start.meshes@[j]),
        decreases rc - i,
    {
        if fits {
            let ok = check_layout(source, slots[i], &imported.meshes[i]);
            if ok.is_err() {
                fits = false;
            }
        } else {
            proof {
                assert(!(forall|j: int| 0 <= j < i + 1 ==> layout_matches(*source, slot_of(#[trigger] start.meshes@[j])->Some_0, start.meshes@[j]))) by {
                    let j = choose|j: int| 0 <= j < i && !layout_matches(*source, slot_of(#[trigger] start.meshes@[j])->Some_0, start.meshes@[j]);
                }
            }
        }
        proof {
            if fits {
                assert forall|j: int| 0 <= j < i + 1 implies layout_matches(*source, slot_of(#[trigger] start.meshes@[j])->Some_0, start.meshes@[j]) by {}
            }
        }
        i = i + 1;
    }
    let mut meshes: Vec<ImportedMesh> = Vec::new();
    core::mem::swap(&mut imported.meshes, &mut meshes);
    let ordered = place(meshes, &slots, &remap, fits);
    imported.meshes = ordered;
    if !fits {
        return Err(invalid("mesh layout differs from the G1M layout"));
    }
    Ok(())
}

} // verus!
