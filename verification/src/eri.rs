//! The Eridanus document model that records, tags and projects are stored
//! in: a schema, a version, a map of named values and an optional body.

use vstd::prelude::*;
use crate::types::{IdV, TagId, opt_str_view, tag_ids_view};

verus! {

broadcast use vstd::string::group_string_axioms;

/// A value of an Eridanus document.
pub enum EriValue {
    Str(String),
    Date(String),
    DateTime(String),
    Id(String, String),
    Array(Vec<EriValue>),
    Object(Vec<(String, EriValue)>),
}

/// An Eridanus document.
pub struct Eri {
    pub schema: String,
    pub version: String,
    pub content: Vec<(String, EriValue)>,
    pub body: Option<String>,
}

/// A value with its texts taken as character sequences.
pub enum EriValueV {
    Str(Seq<char>),
    Date(Seq<char>),
    DateTime(Seq<char>),
    Id(Seq<char>, Seq<char>),
    Array(Seq<EriValueV>),
    Object(Seq<(Seq<char>, EriValueV)>),
}

pub struct EriV {
    pub schema: Seq<char>,
    pub version: Seq<char>,
    pub content: Seq<(Seq<char>, EriValueV)>,
    pub body: Option<Seq<char>>,
}

impl EriValue {
    pub open spec fn view_v(&self) -> EriValueV
        decreases self,
    {
        match self {
            EriValue::Str(s) => EriValueV::Str(s@),
            EriValue::Date(s) => EriValueV::Date(s@),
            EriValue::DateTime(s) => EriValueV::DateTime(s@),
            EriValue::Id(a, b) => EriValueV::Id(a@, b@),
            EriValue::Array(v) => EriValueV::Array(values_v(v@)),
            EriValue::Object(m) => EriValueV::Object(entries_v(m@)),
        }
    }
}

/// The views of a sequence of values.
pub open spec fn values_v(s: Seq<EriValue>) -> Seq<EriValueV>
    decreases s,
{
    if s.len() == 0 {
        seq![]
    } else {
        values_v(s.subrange(0, s.len() - 1)).push(s[s.len() - 1].view_v())
    }
}

/// The views of a sequence of named values.
pub open spec fn entries_v(s: Seq<(String, EriValue)>) -> Seq<(Seq<char>, EriValueV)>
    decreases s,
{
    if s.len() == 0 {
        seq![]
    } else {
        entries_v(s.subrange(0, s.len() - 1)).push((s[s.len() - 1].0@, s[s.len() - 1].1.view_v()))
    }
}

pub proof fn lemma_values_v(s: Seq<EriValue>)
    ensures
        values_v(s).len() == s.len(),
        forall|i: int| 0 <= i < s.len() ==> #[trigger] values_v(s)[i] == s[i].view_v(),
    decreases s.len(),
{
    if s.len() > 0 {
        lemma_values_v(s.subrange(0, s.len() - 1));
    }
}

pub proof fn lemma_entries_v(s: Seq<(String, EriValue)>)
    ensures
        entries_v(s).len() == s.len(),
        forall|i: int| 0 <= i < s.len() ==> #[trigger] entries_v(s)[i] == (s[i].0@, s[i].1.view_v()),
    decreases s.len(),
{
    if s.len() > 0 {
        lemma_entries_v(s.subrange(0, s.len() - 1));
    }
}

impl View for Eri {
    type V = EriV;

    open spec fn view(&self) -> EriV {
        EriV {
            schema: self.schema@,
            version: self.version@,
            content: entries_v(self.content@),
            body: opt_str_view(self.body),
        }
    }
}

/// The value of the first entry named `k`.
pub open spec fn lookup(m: Seq<(Seq<char>, EriValueV)>, k: Seq<char>) -> Option<EriValueV>
    decreases m.len(),
{
    if m.len() == 0 {
        None
    } else if m[0].0 == k {
        Some(m[0].1)
    } else {
        lookup(m.drop_first(), k)
    }
}

/// The text of a string value.
pub open spec fn as_str(v: Option<EriValueV>) -> Option<Seq<char>> {
    match v {
        Some(EriValueV::Str(s)) => Some(s),
        _ => None,
    }
}

/// The text of a date or date-time value.
pub open spec fn as_date_str(v: Option<EriValueV>) -> Option<Seq<char>> {
    match v {
        Some(EriValueV::Date(s)) => Some(s),
        Some(EriValueV::DateTime(s)) => Some(s),
        _ => None,
    }
}

/// The items of an array value.
pub open spec fn as_array(v: Option<EriValueV>) -> Option<Seq<EriValueV>> {
    match v {
        Some(EriValueV::Array(a)) => Some(a),
        _ => None,
    }
}

/// The entries of an object value.
pub open spec fn as_object(v: Option<EriValueV>) -> Option<Seq<(Seq<char>, EriValueV)>> {
    match v {
        Some(EriValueV::Object(m)) => Some(m),
        _ => None,
    }
}

/// The identifier and name of an identifier value.
pub open spec fn as_id(v: Option<EriValueV>) -> Option<IdV> {
    match v {
        Some(EriValueV::Id(a, b)) => Some(IdV { id: a, name: b }),
        _ => None,
    }
}

/// The identifier values among the items, in order; other items are skipped.
pub open spec fn id_items(s: Seq<EriValueV>) -> Seq<IdV>
    decreases s.len(),
{
    if s.len() == 0 {
        seq![]
    } else {
        let rest = id_items(s.drop_last());
        match s.last() {
            EriValueV::Id(a, b) => rest.push(IdV { id: a, name: b }),
            _ => rest,
        }
    }
}

/// The string values among the items, in order; other items are skipped.
pub open spec fn str_items(s: Seq<EriValueV>) -> Seq<Seq<char>>
    decreases s.len(),
{
    if s.len() == 0 {
        seq![]
    } else {
        let rest = str_items(s.drop_last());
        match s.last() {
            EriValueV::Str(t) => rest.push(t),
            _ => rest,
        }
    }
}

/// Position of the first entry named `key`.
fn position(m: &Vec<(String, EriValue)>, key: &str) -> (r: Option<usize>)
    ensures
        match r {
            Some(i) => i < m@.len() && lookup(entries_v(m@), key@) == Some(m@[i as int].1.view_v()),
            None => lookup(entries_v(m@), key@).is_none(),
        },
{
    let k = key.to_string();
    proof {
        lemma_entries_v(m@);
    }
    proof {
        assert(entries_v(m@).subrange(0, m@.len() as int) =~= entries_v(m@));
    }
    let mut i: usize = 0;
    while i < m.len()
        invariant
            i <= m@.len(),
            k@ == key@,
            entries_v(m@).len() == m@.len(),
            forall|j: int| 0 <= j < m@.len() ==> #[trigger] entries_v(m@)[j] == (m@[j].0@, m@[j].1.view_v()),
            lookup(entries_v(m@), key@) == lookup(entries_v(m@).subrange(i as int, m@.len() as int), key@),
        decreases m@.len() - i,
    {
        let ghost rest = entries_v(m@).subrange(i as int, m@.len() as int);
        if m[i].0 == k {
            return Some(i);
        }
        proof {
            assert(rest.drop_first() =~= entries_v(m@).subrange(i + 1, m@.len() as int));
        }
        i = i + 1;
    }
    None
}

/// The value named `key`, if the map holds it.
pub fn get<'a>(m: &'a Vec<(String, EriValue)>, key: &str) -> (r: Option<&'a EriValue>)
    ensures
        match r {
            Some(v) => lookup(entries_v(m@), key@) == Some(v.view_v()),
            None => lookup(entries_v(m@), key@).is_none(),
        },
{
    match position(m, key) {
        Some(i) => Some(&m[i].1),
        None => None,
    }
}

/// The text of the string value named `key`.
pub fn get_str(m: &Vec<(String, EriValue)>, key: &str) -> (r: Option<String>)
    ensures
        opt_str_view(r) == as_str(lookup(entries_v(m@), key@)),
{
    match get(m, key) {
        Some(EriValue::Str(s)) => Some(s.clone()),
        _ => None,
    }
}

/// The text of the date or date-time value named `key`.
pub fn get_date_str(m: &Vec<(String, EriValue)>, key: &str) -> (r: Option<String>)
    ensures
        opt_str_view(r) == as_date_str(lookup(entries_v(m@), key@)),
{
    match get(m, key) {
        Some(EriValue::Date(s)) => Some(s.clone()),
        Some(EriValue::DateTime(s)) => Some(s.clone()),
        _ => None,
    }
}

/// The identifier values among the items of an array.
pub fn collect_ids(items: &Vec<EriValue>) -> (r: Vec<TagId>)
    ensures
        tag_ids_view(r@) == id_items(values_v(items@)),
{
    proof {
        lemma_values_v(items@);
    }
    let mut out: Vec<TagId> = Vec::new();
    let mut i: usize = 0;
    while i < items.len()
        invariant
            i <= items@.len(),
            values_v(items@).len() == items@.len(),
            forall|j: int| 0 <= j < items@.len() ==> #[trigger] values_v(items@)[j] == items@[j].view_v(),
            tag_ids_view(out@) == id_items(values_v(items@).subrange(0, i as int)),
        decreases items@.len() - i,
    {
        let ghost pre = values_v(items@).subrange(0, i as int);
        let ghost post = values_v(items@).subrange(0, i + 1);
        proof {
            assert(post.drop_last() =~= pre);
            assert(post.last() == items@[i as int].view_v());
        }
        match &items[i] {
            EriValue::Id(a, b) => {
                let ghost before = out@;
                out.push(TagId { id: a.clone(), name: b.clone() });
                proof {
                    assert(tag_ids_view(out@) =~= tag_ids_view(before).push(IdV { id: a@, name: b@ }));
                }
            },
            _ => {},
        }
        i = i + 1;
    }
    proof {
        assert(values_v(items@).subrange(0, items@.len() as int) =~= values_v(items@));
    }
    out
}

/// The string values among the items of an array.
pub fn collect_strs(items: &Vec<EriValue>) -> (r: Vec<String>)
    ensures
        r@.map_values(|s: String| s@) == str_items(values_v(items@)),
{
    proof {
        lemma_values_v(items@);
    }
    let mut out: Vec<String> = Vec::new();
    let mut i: usize = 0;
    while i < items.len()
        invariant
            i <= items@.len(),
            values_v(items@).len() == items@.len(),
            forall|j: int| 0 <= j < items@.len() ==> #[trigger] values_v(items@)[j] == items@[j].view_v(),
            out@.map_values(|s: String| s@) == str_items(values_v(items@).subrange(0, i as int)),
        decreases items@.len() - i,
    {
        let ghost pre = values_v(items@).subrange(0, i as int);
        let ghost post = values_v(items@).subrange(0, i + 1);
        proof {
            assert(post.drop_last() =~= pre);
            assert(post.last() == items@[i as int].view_v());
        }
        match &items[i] {
            EriValue::Str(s) => {
                let ghost before = out@;
                out.push(s.clone());
                proof {
                    assert(out@.map_values(|s: String| s@) =~= before.map_values(|s: String| s@).push(s@));
                }
            },
            _ => {},
        }
        i = i + 1;
    }
    proof {
        assert(values_v(items@).subrange(0, items@.len() as int) =~= values_v(items@));
    }
    out
}

} // verus!
