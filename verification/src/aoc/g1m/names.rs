use vstd::prelude::*;
use crate::fmt::push_char;
use crate::text::str_eq;
use vstd::string::{StrSliceExecFns, StringExecFns};

verus! {

/// A character with an ASCII capital letter lowered.
pub open spec fn lower_char(c: char) -> char {
    if 65 <= (c as u32) <= 90 {
        ((c as u32) + 32) as char
    } else {
        c
    }
}

/// A character with a space replaced by an underscore.
pub open spec fn underscore_char(c: char) -> char {
    if c == ' ' {
        '_'
    } else {
        c
    }
}

/// The first entry of `table` whose key is `k`, if any.
pub open spec fn lookup(table: Seq<(String, String)>, k: Seq<char>) -> Option<int>
    decreases table.len(),
{
    if table.len() == 0 {
        None
    } else {
        match lookup(table.drop_last(), k) {
            Some(i) => Some(i),
            None => if table.last().0@ == k {
                Some(table.len() - 1)
            } else {
                None
            },
        }
    }
}

/// The name a model is shown under: the non-empty name the table gives for the
/// model's name with ASCII letters lowered, spaces turned into underscores; else the
/// model's name.
pub open spec fn display_name_of(name: Seq<char>, table: Seq<(String, String)>) -> Seq<char> {
    match lookup(table, name.map_values(|c: char| lower_char(c))) {
        Some(i) => if table[i].1@.len() > 0 {
            table[i].1@.map_values(|c: char| underscore_char(c))
        } else {
            name
        },
        None => name,
    }
}

proof fn lemma_lookup(table: Seq<(String, String)>, k: Seq<char>)
    ensures
        lookup(table, k) matches Some(i) ==> 0 <= i < table.len() && table[i].0@ == k && forall|j: int|
            0 <= j < i ==> (#[trigger] table[j]).0@ != k,
        lookup(table, k) is None ==> forall|j: int| 0 <= j < table.len() ==> (#[trigger] table[j]).0@ != k,
    decreases table.len(),
{
    if table.len() > 0 {
        lemma_lookup(table.drop_last(), k);
        assert forall|j: int| 0 <= j < table.len() - 1 implies #[trigger] table[j] == table.drop_last()[j] by {}
    }
}

/// The text with each character mapped: ASCII capitals lowered, or spaces turned
/// into underscores.
fn map_text(s: &str, lower: bool) -> (r: String)
    ensures
        lower ==> r@ == s@.map_values(|c: char| lower_char(c)),
        !lower ==> r@ == s@.map_values(|c: char| underscore_char(c)),
{
    let n = s.unicode_len();
    let mut r = String::new();
    let mut i: usize = 0;
    while i < n
        invariant
            n == s@.len(),
            i <= n,
            lower ==> r@ == s@.take(i as int).map_values(|c: char| lower_char(c)),
            !lower ==> r@ == s@.take(i as int).map_values(|c: char| underscore_char(c)),
        decreases n - i,
    {
        let c = s.get_char(i);
        let code = c as u32;
        let d = if lower {
            if 65 <= code && code <= 90 {
                ((code as u8) + 32) as char
            } else {
                c
            }
        } else {
            if c == ' ' {
                '_'
            } else {
                c
            }
        };
        push_char(&mut r, d);
        proof {
            assert(s@.take(i + 1) =~= s@.take(i as int).push(c));
            if lower {
                assert(r@ =~= s@.take(i + 1).map_values(|c: char| lower_char(c)));
            } else {
                assert(r@ =~= s@.take(i + 1).map_values(|c: char| underscore_char(c)));
            }
        }
        i = i + 1;
    }
    assert(s@.take(n as int) =~= s@);
    r
}

/// The name a model is shown under, as `display_name_of` says.
pub fn display_name(name: &str, table: &Vec<(String, String)>) -> (r: String)
    ensures
        r@ == display_name_of(name@, table@),
{
    let key = map_text(name, true);
    proof {
        lemma_lookup(table@, key@);
    }
    let mut i: usize = 0;
    while i < table.len()
        invariant
            i <= table@.len(),
            key@ == name@.map_values(|c: char| lower_char(c)),
            forall|j: int| 0 <= j < i ==> (#[trigger] table@[j]).0@ != key@,
            lookup(table@, key@) matches Some(q) ==> 0 <= q < table@.len() && table@[q].0@ == key@ && forall|j: int|
                0 <= j < q ==> (#[trigger] table@[j]).0@ != key@,
            lookup(table@, key@) is None ==> forall|j: int| 0 <= j < table@.len() ==> (#[trigger] table@[j]).0@ != key@,
        decreases table@.len() - i,
    {
        if str_eq(table[i].0.as_str(), key.as_str()) {
            proof {
                if let Some(q) = lookup(table@, key@) {
                    if q < i {
                        assert(table@[q].0@ != key@);
                    } else if q > i {
                        assert(table@[i as int].0@ != key@);
                    }
                }
            }
            if table[i].1.as_str().unicode_len() > 0 {
                return map_text(table[i].1.as_str(), false);
            }
            return name.to_string();
        }
        i = i + 1;
    }
    name.to_string()
}

} // verus!
