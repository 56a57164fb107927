use vstd::prelude::*;
use crate::ainb::parameter::{param_type_name, ParamType};
use crate::ainb::property::{kind_at, kind_of, sorted_kind, AinbValue, Property};
use crate::binary::{c_string_at, u32_at, BinaryReader, Endian};
use crate::error::{invalid, Error, ErrorKind};
use crate::text::str_eq;
use vstd::string::StringExecFns;

verus! {

/// The same value, with a string taken by its text.
pub open spec fn same_value(a: AinbValue, v: AinbValue) -> bool {
    match (a, v) {
        (AinbValue::String(x), AinbValue::String(y)) => x@ == y@,
        _ => a == v,
    }
}

/// The same property: name, class name, default value and flags, strings taken by
/// their text.
pub open spec fn same_property(a: Property, x: Property) -> bool {
    &&& a.name@ == x.name@
    &&& match (a.classname, x.classname) {
        (Some(c), Some(d)) => c@ == d@,
        (None, None) => true,
        _ => false,
    }
    &&& same_value(a.default_value, x.default_value)
    &&& a.flags.view() == x.flags.view()
}

fn copy_value(v: &AinbValue) -> (r: AinbValue)
    ensures
        same_value(r, *v),
{
    match v {
        AinbValue::Int(x) => AinbValue::Int(*x),
        AinbValue::Bool(x) => AinbValue::Bool(*x),
        AinbValue::Float(x) => AinbValue::Float(*x),
        AinbValue::String(s) => AinbValue::String(s.clone()),
        AinbValue::Vector3F(x, y, z) => AinbValue::Vector3F(*x, *y, *z),
        AinbValue::Null => AinbValue::Null,
    }
}

fn copy_property(x: &Property) -> (r: Property)
    ensures
        same_property(r, *x),
{
    let classname = match &x.classname {
        Some(c) => Some(c.clone()),
        None => None,
    };
    Property {
        name: x.name.clone(),
        classname,
        default_value: copy_value(&x.default_value),
        flags: x.flags.duplicate(),
    }
}

/// The first group of `props` named `name`, if any.
pub open spec fn group_index(props: Seq<(String, Vec<Property>)>, name: Seq<char>) -> Option<int>
    decreases props.len(),
{
    if props.len() == 0 {
        None
    } else {
        match group_index(props.drop_last(), name) {
            Some(i) => Some(i),
            None => if props.last().0@ == name {
                Some(props.len() - 1)
            } else {
                None
            },
        }
    }
}

/// The properties of `props` named `name`: those of its first group of that name, or
/// none.
pub open spec fn named_group(props: Seq<(String, Vec<Property>)>, name: Seq<char>) -> Seq<Property> {
    match group_index(props, name) {
        Some(i) => props[i].1@,
        None => Seq::empty(),
    }
}

proof fn lemma_group_index(props: Seq<(String, Vec<Property>)>, name: Seq<char>)
    ensures
        group_index(props, name) matches Some(i) ==> 0 <= i < props.len() && props[i].0@ == name && forall|j: int|
            0 <= j < i ==> (#[trigger] props[j]).0@ != name,
        group_index(props, name) is None ==> forall|j: int| 0 <= j < props.len() ==> (#[trigger] props[j]).0@ != name,
    decreases props.len(),
{
    if props.len() > 0 {
        lemma_group_index(props.drop_last(), name);
        assert forall|j: int| 0 <= j < props.len() - 1 implies #[trigger] props[j] == props.drop_last()[j] by {}
    }
}

/// The properties of `props` named `name`.
fn find_group<'a>(props: &'a Vec<(String, Vec<Property>)>, name: &str) -> (r: &'a [Property])
    ensures
        r@ == named_group(props@, name@),
{
    proof {
        lemma_group_index(props@, name@);
    }
    let mut i: usize = 0;
    while i < props.len()
        invariant
            i <= props@.len(),
            forall|j: int| 0 <= j < i ==> (#[trigger] props@[j]).0@ != name@,
            group_index(props@, name@) matches Some(g) ==> 0 <= g < props@.len() && props@[g].0@ == name@ && forall|j: int|
                0 <= j < g ==> (#[trigger] props@[j]).0@ != name@,
            group_index(props@, name@) is None ==> forall|j: int| 0 <= j < props@.len() ==> (#[trigger] props@[j]).0@ != name@,
        decreases props@.len() - i,
    {
        if str_eq(props[i].0.as_str(), name) {
            proof {
                if let Some(g) = group_index(props@, name@) {
                    assert(g == i) by {
                        if g < i {
                            assert(props@[g].0@ != name@);
                        } else if g > i {
                            assert(props@[i as int].0@ != name@);
                        }
                    }
                }
            }
            return props[i].1.as_slice();
        }
        i = i + 1;
    }
    let empty: &[Property] = &[];
    assert(empty@ =~= Seq::<Property>::empty());
    empty
}

/// An attachment of a node: its name, its debug word, and the properties it selects
/// from the file's property table, grouped by type name in the order of the names.
#[derive(Clone, Debug)]
pub struct Attachment {
    pub name: String,
    pub debug: u32,
    pub properties: Vec<(String, Vec<Property>)>,
}

/// Where the record of an attachment at `q` ends: after the name and parameter offsets
/// and two 16-bit fields, and from version 0x407 on one more 32-bit field.
pub open spec fn attachment_end(q: int, version: u32) -> int {
    if version >= 0x407 {
        q + 16
    } else {
        q + 12
    }
}

/// The first property of group `k` that the attachment at `q` selects.
pub open spec fn selected_base(b: Seq<u8>, q: int, e: Endian, k: int) -> int {
    u32_at(b, u32_at(b, q + 4, e) + 4 + 8 * k, e) as int
}

/// The number of properties of group `k` that the attachment at `q` selects.
pub open spec fn selected_count(b: Seq<u8>, q: int, e: Endian, k: int) -> int {
    u32_at(b, u32_at(b, q + 4, e) + 8 + 8 * k, e) as int
}

/// Whether the attachment record at `q` can be read: its name in the pool at `pool`,
/// its fields, its parameter block (a debug word and six selections), and selections
/// that lie within the property table's groups.
pub open spec fn attachment_ok(b: Seq<u8>, pool: int, q: int, e: Endian, version: u32, props: Seq<(String, Vec<Property>)>) -> bool {
    &&& q + 4 <= b.len()
    &&& c_string_at(b, pool + u32_at(b, q, e)) is Some
    &&& attachment_end(q, version) <= b.len()
    &&& u32_at(b, q + 4, e) + 52 <= b.len()
    &&& forall|k: int|
        0 <= k < 6 ==> #[trigger] selected_base(b, q, e, k) + selected_count(b, q, e, k) <= named_group(
            props,
            param_type_name(kind_at(k)),
        ).len()
}

/// Whether `g` is the selection of group `k` by the attachment at `q`.
pub open spec fn selection_is(g: Seq<Property>, b: Seq<u8>, q: int, e: Endian, k: int, props: Seq<(String, Vec<Property>)>) -> bool {
    let base = selected_base(b, q, e, k);
    &&& g.len() == selected_count(b, q, e, k)
    &&& forall|i: int|
        0 <= i < g.len() ==> same_property(#[trigger] g[i], named_group(props, param_type_name(kind_at(k)))[base + i])
}

/// The groups, in name order among the first `t`, that the attachment at `q` selects
/// at least one property of.
pub open spec fn selected_groups(b: Seq<u8>, q: int, e: Endian, t: int) -> Seq<int>
    decreases t,
{
    if t <= 0 {
        Seq::empty()
    } else {
        let r = selected_groups(b, q, e, t - 1);
        if selected_count(b, q, e, sorted_kind(t - 1)) > 0 {
            r.push(sorted_kind(t - 1))
        } else {
            r
        }
    }
}

/// Whether `groups` are the first `t` non-empty selections of the attachment at `q`, in
/// name order.
pub open spec fn selections_are(groups: Seq<(String, Vec<Property>)>, b: Seq<u8>, q: int, e: Endian, t: int, props: Seq<(String, Vec<Property>)>) -> bool {
    let kinds = selected_groups(b, q, e, t);
    &&& groups.len() == kinds.len()
    &&& forall|m: int|
        0 <= m < groups.len() ==> (#[trigger] groups[m]).0@ == param_type_name(kind_at(kinds[m])) && selection_is(
            groups[m].1@,
            b,
            q,
            e,
            kinds[m],
            props,
        )
}

proof fn lemma_selection_step(
    before: Seq<(String, Vec<Property>)>,
    after: Seq<(String, Vec<Property>)>,
    g: Seq<Property>,
    b: Seq<u8>,
    q: int,
    e: Endian,
    t: int,
    props: Seq<(String, Vec<Property>)>,
)
    requires
        0 <= t < 6,
        selections_are(before, b, q, e, t, props),
        selection_is(g, b, q, e, sorted_kind(t), props),
        g.len() > 0 ==> after.len() == before.len() + 1 && after.drop_last() == before && after.last().0@
            == param_type_name(kind_at(sorted_kind(t))) && after.last().1@ == g,
        g.len() == 0 ==> after == before,
    ensures
        selections_are(after, b, q, e, t + 1, props),
{
    let k = sorted_kind(t);
    if g.len() > 0 {
        assert(selected_groups(b, q, e, t + 1) == selected_groups(b, q, e, t).push(k));
        assert forall|m: int| 0 <= m < after.len() implies (#[trigger] after[m]).0@ == param_type_name(
            kind_at(selected_groups(b, q, e, t + 1)[m]),
        ) && selection_is(after[m].1@, b, q, e, selected_groups(b, q, e, t + 1)[m], props) by {
            if m < before.len() {
                assert(after[m] == after.drop_last()[m]);
            }
        }
    } else {
        assert(selected_groups(b, q, e, t + 1) == selected_groups(b, q, e, t));
    }
}

/// Appends `g` under the name of `kind`, unless it is empty.
fn push_selection(groups: &mut Vec<(String, Vec<Property>)>, kind: ParamType, g: Vec<Property>)
    ensures
        g@.len() > 0 ==> final(groups)@.len() == old(groups)@.len() + 1 && final(groups)@.drop_last() == old(groups)@
            && final(groups)@.last().0@ == param_type_name(kind) && final(groups)@.last().1@ == g@,
        g@.len() == 0 ==> final(groups)@ == old(groups)@,
{
    if g.len() > 0 {
        groups.push((String::from_str(kind.name()), g));
    }
}

/// The properties of a group of the property table from `base` on, `count` of them;
/// fails with `InvalidData` when they run past the group.
fn select(group: &[Property], base: u32, count: u32) -> (r: Result<Vec<Property>, Error>)
    ensures
        r is Ok <==> base + count <= group@.len(),
        r matches Ok(v) ==> v@.len() == count && forall|i: int|
            0 <= i < count ==> same_property(#[trigger] v@[i], group@[base + i]),
        r matches Err(e) ==> e.kind == ErrorKind::InvalidData,
{
    let base = base as usize;
    let count = count as usize;
    if base > group.len() || count > group.len() - base {
        return Err(invalid("attachment property range exceeds table"));
    }
    let n = group.len();
    let mut v: Vec<Property> = Vec::new();
    let mut i: usize = 0;
    while i < count
        invariant
            n == group@.len(),
            i <= count,
            base + count <= group@.len(),
            v@.len() == i,
            forall|j: int| 0 <= j < i ==> same_property(#[trigger] v@[j], group@[base + j]),
        decreases count - i,
    {
        v.push(copy_property(&group[base + i]));
        i = i + 1;
    }
    Ok(v)
}

impl Attachment {
    /// Reads the attachment record at the cursor: the name's offset in the pool at
    /// `pool`, the offset of its parameter block, two 16-bit fields and, from version
    /// 0x407 on, a 32-bit field. The parameter block holds a debug word and, for each
    /// type in file order, the first index and the number of the properties it selects
    /// from that type's group of `properties`. Fails with `InvalidData` when a
    /// selection runs past its group, and as the reads do otherwise. The cursor ends
    /// after the record.
    #[verifier::rlimit(60)]
    pub fn read(reader: &mut BinaryReader<'_>, pool: usize, version: u32, properties: &Vec<(String, Vec<Property>)>) -> (r: Result<Self, Error>)
        requires
            old(reader).wf(),
        ensures
            final(reader).wf(),
            final(reader).bytes() == old(reader).bytes(),
            final(reader).order() == old(reader).order(),
            r is Ok <==> attachment_ok(old(reader).bytes(), pool as int, old(reader).pos(), old(reader).order(), version, properties@),
            r matches Ok(a) ==> {
                let b = old(reader).bytes();
                let q = old(reader).pos();
                let e = old(reader).order();
                &&& c_string_at(b, pool + u32_at(b, q, e)) == Some(a.name@)
                &&& a.debug == u32_at(b, u32_at(b, q + 4, e) as int, e)
                &&& selections_are(a.properties@, b, q, e, 6, properties@)
                &&& final(reader).pos() == attachment_end(q, version)
            },
            r matches Err(e) ==> e.kind == ErrorKind::UnexpectedEof || e.kind == ErrorKind::InvalidData,
    {
        let ghost b = reader.bytes();
        let ghost q = reader.pos();
        let ghost e = reader.order();
        let ghost props = properties@;
        let name_offset = reader.read_u32()?;
        let name = crate::ainb::node::read_pool_string(reader, pool, name_offset)?;
        let parameter_offset = reader.read_u32()?;
        let _ = reader.read_u16()?;
        let _ = reader.read_u16()?;
        if version >= 0x407 {
            let _ = reader.read_u32()?;
        }
        let position = reader.position();
        let po = parameter_offset as usize;
        if po > reader.len() || reader.len() - po < 52 {
            return Err(crate::error::eof("attachment parameters are past the end"));
        }
        let _ = reader.seek(po);
        let debug = reader.read_u32()?;
        let mut s0: Vec<Property> = Vec::new();
        let mut s1: Vec<Property> = Vec::new();
        let mut s2: Vec<Property> = Vec::new();
        let mut s3: Vec<Property> = Vec::new();
        let mut s4: Vec<Property> = Vec::new();
        let mut s5: Vec<Property> = Vec::new();
        let mut k: usize = 0;
        while k < 6
            invariant
                reader.wf(),
                reader.bytes() == b,
                reader.order() == e,
                b == old(reader).bytes(),
                e == old(reader).order(),
                props == properties@,
                q == old(reader).pos(),
                po == u32_at(b, q + 4, e),
                po + 52 <= b.len(),
                k <= 6,
                reader.pos() == po + 4 + 8 * k,
                forall|j: int|
                    0 <= j < k ==> #[trigger] selected_base(b, q, e, j) + selected_count(b, q, e, j) <= named_group(
                        props,
                        param_type_name(kind_at(j)),
                    ).len(),
                k > 0 ==> selection_is(s0@, b, q, e, 0, props),
                k > 1 ==> selection_is(s1@, b, q, e, 1, props),
                k > 2 ==> selection_is(s2@, b, q, e, 2, props),
                k > 3 ==> selection_is(s3@, b, q, e, 3, props),
                k > 4 ==> selection_is(s4@, b, q, e, 4, props),
                k > 5 ==> selection_is(s5@, b, q, e, 5, props),
            decreases 6 - k,
        {
            let base = reader.read_u32()?;
            let count = reader.read_u32()?;
            assert(base == selected_base(b, q, e, k as int) && count == selected_count(b, q, e, k as int));
            let kind = kind_of(k);
            let group = find_group(properties, kind.name());
            let values = match select(group, base, count) {
                Ok(v) => v,
                Err(err) => {
                    assert(!(selected_base(b, q, e, k as int) + selected_count(b, q, e, k as int) <= named_group(
                        props,
                        param_type_name(kind_at(k as int)),
                    ).len()));
                    return Err(err);
                },
            };
            if k == 0 {
                s0 = values;
            } else if k == 1 {
                s1 = values;
            } else if k == 2 {
                s2 = values;
            } else if k == 3 {
                s3 = values;
            } else if k == 4 {
                s4 = values;
            } else {
                s5 = values;
            }
            k = k + 1;
        }
        let _ = reader.seek(position);
        let mut groups: Vec<(String, Vec<Property>)> = Vec::new();
        assert(selections_are(groups@, b, q, e, 0, props));
        let ghost before = groups@;
        let ghost gv = s1@;
        push_selection(&mut groups, ParamType::Bool, s1);
        proof {
            lemma_selection_step(before, groups@, gv, b, q, e, 0, props);
        }
        let ghost before = groups@;
        let ghost gv = s2@;
        push_selection(&mut groups, ParamType::Float, s2);
        proof {
            lemma_selection_step(before, groups@, gv, b, q, e, 1, props);
        }
        let ghost before = groups@;
        let ghost gv = s0@;
        push_selection(&mut groups, ParamType::Int, s0);
        proof {
            lemma_selection_step(before, groups@, gv, b, q, e, 2, props);
        }
        let ghost before = groups@;
        let ghost gv = s5@;
        push_selection(&mut groups, ParamType::Pointer, s5);
        proof {
            lemma_selection_step(before, groups@, gv, b, q, e, 3, props);
        }
        let ghost before = groups@;
        let ghost gv = s3@;
        push_selection(&mut groups, ParamType::String, s3);
        proof {
            lemma_selection_step(before, groups@, gv, b, q, e, 4, props);
        }
        let ghost before = groups@;
        let ghost gv = s4@;
        push_selection(&mut groups, ParamType::Vector3F, s4);
        proof {
            lemma_selection_step(before, groups@, gv, b, q, e, 5, props);
        }
        Ok(Attachment { name, debug, properties: groups })
    }
}

} // verus!
