//! TOML documents as plain values.
use crate::text;
use vstd::prelude::*;

verus! {

#[verifier::external_type_specification]
#[verifier::external_body]
pub struct ExDatetime(toml::value::Datetime);

#[verifier::external_type_specification]
#[verifier::external_body]
pub struct ExTomlValue(toml::Value);

#[verifier::external_type_specification]
#[verifier::external_body]
pub struct ExTomlReadError(toml::de::Error);

#[verifier::external_type_specification]
#[verifier::external_body]
pub struct ExTomlWriteError(toml::ser::Error);

/// A value of a TOML document. A float is held by its decimal text.
pub enum TomlValue {
    Str(String),
    Int(i64),
    Float(String),
    Bool(bool),
    Datetime(toml::value::Datetime),
    Array(Vec<TomlValue>),
    Table(Vec<(String, TomlValue)>),
}

/// A value of a TOML document, with its tables as lists of entries.
pub ghost enum TomlV {
    Str(Seq<char>),
    Int(i64),
    Float(Seq<char>),
    Bool(bool),
    Datetime(toml::value::Datetime),
    Array(Seq<TomlV>),
    Table(Seq<(Seq<char>, TomlV)>),
}

/// The entries of a table.
pub type Table = Vec<(String, TomlValue)>;

/// The entries of a table.
pub type TableV = Seq<(Seq<char>, TomlV)>;

pub open spec fn toml_view(v: TomlValue) -> TomlV
    decreases v,
{
    match v {
        TomlValue::Str(s) => TomlV::Str(s@),
        TomlValue::Int(n) => TomlV::Int(n),
        TomlValue::Float(s) => TomlV::Float(s@),
        TomlValue::Bool(b) => TomlV::Bool(b),
        TomlValue::Datetime(d) => TomlV::Datetime(d),
        TomlValue::Array(a) => TomlV::Array(
            Seq::new(
                a@.len(),
                |i: int|
                    if 0 <= i < a@.len() {
                        toml_view(a@[i])
                    } else {
                        TomlV::Bool(false)
                    },
            ),
        ),
        TomlValue::Table(t) => TomlV::Table(
            Seq::new(
                t@.len(),
                |i: int|
                    if 0 <= i < t@.len() {
                        (t@[i].0@, toml_view(t@[i].1))
                    } else {
                        (Seq::empty(), TomlV::Bool(false))
                    },
            ),
        ),
    }
}

impl View for TomlValue {
    type V = TomlV;

    open spec fn view(&self) -> TomlV {
        toml_view(*self)
    }
}

/// The values of an array.
pub open spec fn array_view(a: Seq<TomlValue>) -> Seq<TomlV> {
    a.map_values(|v: TomlValue| v@)
}

/// The entries of a table.
pub open spec fn table_view(t: Seq<(String, TomlValue)>) -> TableV {
    t.map_values(|e: (String, TomlValue)| (e.0@, e.1@))
}

pub proof fn lemma_array_view(a: Vec<TomlValue>)
    ensures
        toml_view(TomlValue::Array(a)) == TomlV::Array(array_view(a@)),
{
    assert(toml_view(TomlValue::Array(a))->Array_0 =~= array_view(a@));
}

pub proof fn lemma_table_view(t: Vec<(String, TomlValue)>)
    ensures
        toml_view(TomlValue::Table(t)) == TomlV::Table(table_view(t@)),
{
    assert(toml_view(TomlValue::Table(t))->Table_0 =~= table_view(t@));
}

/// The value of a key.
pub open spec fn lookup(t: TableV, key: Seq<char>) -> Option<TomlV>
    decreases t.len(),
{
    if t.len() == 0 {
        None
    } else if t[0].0 == key {
        Some(t[0].1)
    } else {
        lookup(t.skip(1), key)
    }
}

/// The table with a value at a key: in the place of the old one, or at the end.
pub open spec fn with_entry(t: TableV, key: Seq<char>, value: TomlV) -> TableV
    decreases t.len(),
{
    if t.len() == 0 {
        seq![(key, value)]
    } else if t[0].0 == key {
        seq![(key, value)] + t.skip(1)
    } else {
        seq![t[0]] + with_entry(t.skip(1), key, value)
    }
}

/// The table without a key.
pub open spec fn without_entry(t: TableV, key: Seq<char>) -> TableV
    decreases t.len(),
{
    if t.len() == 0 {
        t
    } else if t[0].0 == key {
        t.skip(1)
    } else {
        seq![t[0]] + without_entry(t.skip(1), key)
    }
}

/// Writing a key is seen at that key and nowhere else.
pub proof fn lemma_with_entry(t: TableV, key: Seq<char>, value: TomlV, other: Seq<char>)
    ensures
        lookup(with_entry(t, key, value), key) == Some(value),
        other != key ==> lookup(with_entry(t, key, value), other) == lookup(t, other),
    decreases t.len(),
{
    if t.len() > 0 {
        if t[0].0 == key {
            assert((seq![(key, value)] + t.skip(1)).skip(1) =~= t.skip(1));
        } else {
            lemma_with_entry(t.skip(1), key, value, other);
            let rest = with_entry(t.skip(1), key, value);
            assert((seq![t[0]] + rest).skip(1) =~= rest);
        }
    } else {
        assert(seq![(key, value)].skip(1) =~= t);
    }
}

/// Whether no key occurs twice.
pub open spec fn distinct_keys(t: TableV) -> bool {
    forall|i: int, j: int| 0 <= i < j < t.len() ==> (#[trigger] t[i]).0 != (#[trigger] t[j]).0
}

/// The value that a key has anywhere in a document: in a table itself before anything below it,
/// then in the order of the entries and items.
pub open spec fn find_nested(v: TomlV, key: Seq<char>) -> Option<TomlV>
    decreases v, 0int,
{
    match v {
        TomlV::Table(t) => if lookup(t, key) is Some {
            lookup(t, key)
        } else {
            find_in_entries(t, key, 0)
        },
        TomlV::Array(a) => find_in_items(a, key, 0),
        _ => None,
    }
}

pub open spec fn find_in_entries(t: TableV, key: Seq<char>, i: int) -> Option<TomlV>
    decreases t, t.len() - i,
{
    if 0 <= i < t.len() {
        let found = find_nested(t[i].1, key);
        if found is Some {
            found
        } else {
            find_in_entries(t, key, i + 1)
        }
    } else {
        None
    }
}

pub open spec fn find_in_items(a: Seq<TomlV>, key: Seq<char>, i: int) -> Option<TomlV>
    decreases a, a.len() - i,
{
    if 0 <= i < a.len() {
        let found = find_nested(a[i], key);
        if found is Some {
            found
        } else {
            find_in_items(a, key, i + 1)
        }
    } else {
        None
    }
}

/// The value of a key.
pub fn get<'a>(t: &'a Table, key: &str) -> (r: Option<&'a TomlValue>)
    ensures
        match r {
            Some(v) => lookup(table_view(t@), key@) == Some(v@),
            None => lookup(table_view(t@), key@) is None,
        },
{
    let ghost all = table_view(t@);
    let mut i: usize = 0;
    assert(all.skip(0) =~= all);
    while i < t.len()
        invariant
            i <= t@.len(),
            all == table_view(t@),
            lookup(all, key@) == lookup(all.skip(i as int), key@),
        decreases t@.len() - i,
    {
        assert(all.skip(i as int)[0] == all[i as int]);
        assert(all[i as int] == (t@[i as int].0@, t@[i as int].1@));
        if text::same(t[i].0.as_str(), key) {
            return Some(&t[i].1);
        }
        assert(all.skip(i as int).skip(1) =~= all.skip(i + 1));
        i = i + 1;
    }
    None
}

fn index_of(t: &Table, key: &str) -> (r: usize)
    ensures
        r <= t@.len(),
        forall|k: int| 0 <= k < r ==> (#[trigger] table_view(t@)[k]).0 != key@,
        r < t@.len() ==> table_view(t@)[r as int].0 == key@,
{
    let ghost all = table_view(t@);
    let mut i: usize = 0;
    while i < t.len()
        invariant
            i <= t@.len(),
            all == table_view(t@),
            forall|k: int| 0 <= k < i ==> (#[trigger] all[k]).0 != key@,
        decreases t@.len() - i,
    {
        assert(all[i as int] == (t@[i as int].0@, t@[i as int].1@));
        if text::same(t[i].0.as_str(), key) {
            return i;
        }
        i = i + 1;
    }
    i
}

proof fn lemma_at(t: TableV, key: Seq<char>, value: TomlV, i: int)
    requires
        0 <= i <= t.len(),
        forall|k: int| 0 <= k < i ==> (#[trigger] t[k]).0 != key,
        i < t.len() ==> t[i].0 == key,
    ensures
        with_entry(t, key, value) == (if i < t.len() {
            t.update(i, (key, value))
        } else {
            t.push((key, value))
        }),
        without_entry(t, key) == (if i < t.len() {
            t.remove(i)
        } else {
            t
        }),
    decreases t.len(),
{
    if t.len() == 0 {
        assert(seq![(key, value)] =~= t.push((key, value)));
    } else if i == 0 {
        assert(seq![(key, value)] + t.skip(1) =~= t.update(0, (key, value)));
        assert(t.skip(1) =~= t.remove(0));
    } else {
        assert(t[0].0 != key);
        let rest = t.skip(1);
        assert forall|k: int| 0 <= k < i - 1 implies (#[trigger] rest[k]).0 != key by {
            assert(rest[k] == t[k + 1]);
        }
        lemma_at(rest, key, value, i - 1);
        if i < t.len() {
            assert(seq![t[0]] + rest.update(i - 1, (key, value)) =~= t.update(i, (key, value)));
            assert(seq![t[0]] + rest.remove(i - 1) =~= t.remove(i));
        } else {
            assert(seq![t[0]] + rest.push((key, value)) =~= t.push((key, value)));
            assert(seq![t[0]] + rest =~= t);
        }
    }
}

/// Writes a value at a key.
pub fn put(t: &mut Table, key: &str, value: TomlValue)
    ensures
        table_view(final(t)@) == with_entry(table_view(old(t)@), key@, value@),
{
    let i = index_of(t, key);
    let ghost before = table_view(t@);
    proof {
        lemma_at(before, key@, value@, i as int);
    }
    if i < t.len() {
        t.set(i, (key.to_owned(), value));
        assert(table_view(t@) =~= before.update(i as int, (key@, value@)));
    } else {
        t.push((key.to_owned(), value));
        assert(table_view(t@) =~= before.push((key@, value@)));
    }
}

/// Removes a key.
pub fn remove(t: &mut Table, key: &str)
    ensures
        table_view(final(t)@) == without_entry(table_view(old(t)@), key@),
{
    let i = index_of(t, key);
    let ghost before = table_view(t@);
    proof {
        lemma_at(before, key@, TomlV::Bool(false), i as int);
    }
    if i < t.len() {
        let _ = t.remove(i);
        assert(table_view(t@) =~= before.remove(i as int));
    }
}

fn copy_text(s: &String) -> (r: String)
    ensures
        r@ == s@,
{
    s.clone()
}

/// A copy of a value.
pub fn copy_value(v: &TomlValue) -> (r: TomlValue)
    ensures
        r@ == v@,
    decreases v,
{
    match v {
        TomlValue::Str(s) => TomlValue::Str(copy_text(s)),
        TomlValue::Int(n) => TomlValue::Int(*n),
        TomlValue::Float(s) => TomlValue::Float(copy_text(s)),
        TomlValue::Bool(b) => TomlValue::Bool(*b),
        TomlValue::Datetime(d) => TomlValue::Datetime(*d),
        TomlValue::Array(a) => {
            let mut out: Vec<TomlValue> = Vec::new();
            let mut i: usize = 0;
            while i < a.len()
                invariant
                    i <= a@.len(),
                    out@.len() == i,
                    v matches TomlValue::Array(inner) && inner == a,
                    forall|k: int| 0 <= k < i ==> (#[trigger] out@[k])@ == a@[k]@,
                decreases a@.len() - i,
            {
                let item = copy_value(&a[i]);
                out.push(item);
                i = i + 1;
            }
            proof {
                lemma_array_view(*a);
                lemma_array_view(out);
                assert(array_view(out@) =~= array_view(a@));
            }
            TomlValue::Array(out)
        },
        TomlValue::Table(t) => {
            let mut out: Vec<(String, TomlValue)> = Vec::new();
            let mut i: usize = 0;
            while i < t.len()
                invariant
                    i <= t@.len(),
                    out@.len() == i,
                    v matches TomlValue::Table(inner) && inner == t,
                    forall|k: int|
                        0 <= k < i ==> (#[trigger] out@[k]).0@ == t@[k].0@ && out@[k].1@
                            == t@[k].1@,
                decreases t@.len() - i,
            {
                let item = copy_value(&t[i].1);
                out.push((copy_text(&t[i].0), item));
                i = i + 1;
            }
            proof {
                lemma_table_view(*t);
                lemma_table_view(out);
                assert(table_view(out@) =~= table_view(t@));
            }
            TomlValue::Table(out)
        },
    }
}

/// The value that a key has anywhere in a document.
pub fn find_nested_key<'a>(value: &'a TomlValue, key: &str) -> (r: Option<&'a TomlValue>)
    ensures
        match r {
            Some(v) => find_nested(value@, key@) == Some(v@),
            None => find_nested(value@, key@) is None,
        },
    decreases value,
{
    match value {
        TomlValue::Table(t) => {
            proof {
                lemma_table_view(*t);
            }
            if let Some(v) = get(t, key) {
                return Some(v);
            }
            let ghost all = table_view(t@);
            let mut i: usize = 0;
            while i < t.len()
                invariant
                    i <= t@.len(),
                    all == table_view(t@),
                    value matches TomlValue::Table(inner) && inner == t,
                    find_nested(value@, key@) == find_in_entries(all, key@, i as int),
                decreases t@.len() - i,
            {
                assert(all[i as int] == (t@[i as int].0@, t@[i as int].1@));
                if let Some(v) = find_nested_key(&t[i].1, key) {
                    return Some(v);
                }
                i = i + 1;
            }
            None
        },
        TomlValue::Array(a) => {
            proof {
                lemma_array_view(*a);
            }
            let ghost all = array_view(a@);
            let mut i: usize = 0;
            while i < a.len()
                invariant
                    i <= a@.len(),
                    all == array_view(a@),
                    value matches TomlValue::Array(inner) && inner == a,
                    find_nested(value@, key@) == find_in_items(all, key@, i as int),
                decreases a@.len() - i,
            {
                assert(all[i as int] == a@[i as int]@);
                if let Some(v) = find_nested_key(&a[i], key) {
                    return Some(v);
                }
                i = i + 1;
            }
            None
        },
        _ => None,
    }
}

/// The document that a text writes.
pub uninterp spec fn toml_document(raw: Seq<char>) -> Option<TomlV>;

/// The text that a document is written as, over several lines; nothing where it cannot be written.
pub uninterp spec fn toml_pretty(v: TomlV) -> Option<Seq<char>>;

/// Takes a `toml::Value` apart, variant by variant. A float becomes its `Display` text. Nothing is
/// claimed of it here; what a document holds is claimed of `parse_document`.
#[verifier::external_body]
fn from_toml(v: toml::Value) -> TomlValue {
    match v {
        toml::Value::String(s) => TomlValue::Str(s),
        toml::Value::Integer(n) => TomlValue::Int(n),
        toml::Value::Float(x) => TomlValue::Float(x.to_string()),
        toml::Value::Boolean(b) => TomlValue::Bool(b),
        toml::Value::Datetime(d) => TomlValue::Datetime(d),
        toml::Value::Array(a) => TomlValue::Array(a.into_iter().map(from_toml).collect()),
        toml::Value::Table(t) => TomlValue::Table(
            t.into_iter().map(|(k, v)| (k, from_toml(v))).collect(),
        ),
    }
}

/// Builds a `toml::Value`, variant by variant. Nothing is claimed of it here; how a document is
/// written is claimed of `print_document`.
#[verifier::external_body]
fn to_toml(v: &TomlValue) -> toml::Value {
    match v {
        TomlValue::Str(s) => toml::Value::String(s.clone()),
        TomlValue::Int(n) => toml::Value::Integer(*n),
        TomlValue::Float(x) => toml::Value::Float(x.parse().unwrap_or_default()),
        TomlValue::Bool(b) => toml::Value::Boolean(*b),
        TomlValue::Datetime(d) => toml::Value::Datetime(*d),
        TomlValue::Array(a) => toml::Value::Array(a.iter().map(to_toml).collect()),
        TomlValue::Table(t) => toml::Value::Table(
            t.iter().map(|(k, v)| (k.clone(), to_toml(v))).collect(),
        ),
    }
}

/// `toml::from_str` into a `toml::Value`: the document that the text writes, or an error where it
/// writes none. Which texts write which documents is left to the name.
#[verifier::external_body]
pub(crate) fn parse_document(raw: &str) -> (r: Result<TomlValue, toml::de::Error>)
    ensures
        match r {
            Ok(v) => toml_document(raw@) == Some(v@),
            Err(_) => toml_document(raw@) is None,
        },
{
    toml::from_str::<toml::Value>(raw).map(from_toml)
}

/// `toml::to_string_pretty` of the document: its text, or an error where it cannot be written.
/// Which text that is, is left to the name.
#[verifier::external_body]
pub(crate) fn print_document(v: &TomlValue) -> (r: Result<String, toml::ser::Error>)
    ensures
        match r {
            Ok(s) => toml_pretty(v@) == Some(s@),
            Err(_) => toml_pretty(v@) is None,
        },
{
    toml::to_string_pretty(&to_toml(v))
}

} // verus!
