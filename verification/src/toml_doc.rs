//! TOML documents as plain values, parsed and quoted by the `toml` crate.
use vstd::prelude::*;

use crate::text::str_eq;

verus! {

/// A parsed TOML value as the library reads it. Floats and datetimes are
/// kept only as their kind; tables list their entries in key order.
#[derive(Debug)]
pub enum TomlValue {
    String(String),
    Integer(i64),
    Float,
    Boolean(bool),
    Datetime,
    Array(Vec<TomlValue>),
    Table(Vec<(String, TomlValue)>),
}

/// The text-level view of a TOML value.
pub enum TomlView {
    String(Seq<char>),
    Integer(i64),
    Float,
    Boolean(bool),
    Datetime,
    Array(Seq<TomlView>),
    Table(Seq<(Seq<char>, TomlView)>),
}

/// The view of a TOML value.
#[verifier::opaque]
pub open spec fn toml_view(v: TomlValue) -> TomlView
    decreases v,
{
    match v {
        TomlValue::String(s) => TomlView::String(s@),
        TomlValue::Integer(i) => TomlView::Integer(i),
        TomlValue::Float => TomlView::Float,
        TomlValue::Boolean(b) => TomlView::Boolean(b),
        TomlValue::Datetime => TomlView::Datetime,
        TomlValue::Array(a) => TomlView::Array(
            Seq::new(
                a@.len(),
                |i: int|
                    {
                        if 0 <= i < a@.len() {
                            toml_view(a@[i])
                        } else {
                            TomlView::Float
                        }
                    },
            ),
        ),
        TomlValue::Table(t) => TomlView::Table(
            Seq::new(
                t@.len(),
                |i: int|
                    {
                        if 0 <= i < t@.len() {
                            (t@[i].0@, toml_view(t@[i].1))
                        } else {
                            (Seq::empty(), TomlView::Float)
                        }
                    },
            ),
        ),
    }
}

/// What the `toml` crate makes of a document: its root value, or the text of
/// its parse error.
pub uninterp spec fn toml_parsed(src: Seq<char>) -> Result<TomlView, Seq<char>>;

/// The `toml` crate's value type, carried through opaquely.
#[verifier::external_type_specification]
#[verifier::external_body]
pub struct ExTomlValue(::toml::Value);

/// Converts a `toml::Value` into the library's plain form, entry for entry.
#[verifier::external_body]
fn toml_plain(v: &::toml::Value) -> TomlValue {
    match v {
        ::toml::Value::String(s) => TomlValue::String(s.clone()),
        ::toml::Value::Integer(i) => TomlValue::Integer(*i),
        ::toml::Value::Float(_) => TomlValue::Float,
        ::toml::Value::Boolean(b) => TomlValue::Boolean(*b),
        ::toml::Value::Datetime(_) => TomlValue::Datetime,
        ::toml::Value::Array(a) => TomlValue::Array(a.iter().map(toml_plain).collect()),
        ::toml::Value::Table(t) => TomlValue::Table(t.iter().map(|(k, x)| (k.clone(), toml_plain(x))).collect()),
    }
}

/// Parses a TOML document with `str::parse::<toml::Value>` (the `toml`
/// crate's `from_str`). The result, or the error's `Display` text, is what
/// `toml_parsed` names: a function of the document text alone.
#[verifier::external_body]
pub fn parse_toml(src: &str) -> (r: Result<TomlValue, String>)
    ensures
        match r {
            Ok(v) => toml_parsed(src@) == Ok::<TomlView, Seq<char>>(toml_view(v)),
            Err(e) => toml_parsed(src@) == Err::<TomlView, Seq<char>>(e@),
        },
{
    match src.parse::<::toml::Value>() {
        Ok(v) => Ok(toml_plain(&v)),
        Err(e) => Err(e.to_string()),
    }
}

/// How the `toml` crate writes a string value (a quoted TOML string).
pub uninterp spec fn toml_quoted(s: Seq<char>) -> Seq<char>;

/// Quotes a string as a TOML value with `toml::Value::String(..).to_string()`.
#[verifier::external_body]
pub fn quote_toml_string(s: &str) -> (r: String)
    ensures
        r@ == toml_quoted(s@),
{
    ::toml::Value::String(s.to_string()).to_string()
}

/// The position of the first entry of `t` under `key`.
pub open spec fn entry_index(t: Seq<(Seq<char>, TomlView)>, key: Seq<char>) -> Option<int> {
    if exists|i: int| 0 <= i < t.len() && #[trigger] t[i].0 == key {
        Some(choose|i: int| 0 <= i < t.len() && t[i].0 == key && forall|j: int| 0 <= j < i ==> #[trigger] t[j].0 != key)
    } else {
        None
    }
}

/// The position of the first key of `t` other than `key`.
pub open spec fn other_key_index(t: Seq<(Seq<char>, TomlView)>, key: Seq<char>) -> Option<int> {
    if exists|i: int| 0 <= i < t.len() && #[trigger] t[i].0 != key {
        Some(choose|i: int| 0 <= i < t.len() && t[i].0 != key && forall|j: int| 0 <= j < i ==> #[trigger] t[j].0 == key)
    } else {
        None
    }
}

/// The keys of a table's entries.
pub open spec fn table_keys(t: Seq<(String, TomlValue)>) -> Seq<Seq<char>> {
    t.map_values(|e: (String, TomlValue)| e.0@)
}

/// The position of the first entry of `t` whose key is not `key`.
pub fn find_other_key(t: &Vec<(String, TomlValue)>, key: &str) -> (r: Option<usize>)
    ensures
        r matches Some(i) ==> i < t@.len() && other_key_index(toml_entries(t@), key@) == Some(i as int),
        r is None ==> other_key_index(toml_entries(t@), key@) is None,
{
    let ghost tv = toml_entries(t@);
    let mut k: usize = 0;
    while k < t.len()
        invariant
            k <= t@.len(),
            tv == toml_entries(t@),
            forall|j: int| 0 <= j < k ==> #[trigger] tv[j].0 == key@,
        decreases t@.len() - k,
    {
        assert(tv[k as int].0 == t@[k as int].0@);
        if !str_eq(t[k].0.as_str(), key) {
            proof {
                let c = choose|i: int| 0 <= i < tv.len() && tv[i].0 != key@ && forall|j: int| 0 <= j < i ==> #[trigger] tv[j].0 == key@;
                if c > k {
                    assert(tv[k as int].0 != key@);
                }
            }
            return Some(k);
        }
        k += 1;
    }
    None
}

/// The position of the first entry of `t` under `key`.
pub fn find_key(t: &Vec<(String, TomlValue)>, key: &str) -> (r: Option<usize>)
    ensures
        r matches Some(i) ==> i < t@.len() && entry_index(toml_entries(t@), key@) == Some(i as int),
        r is None ==> entry_index(toml_entries(t@), key@) is None,
{
    let ghost tv = toml_entries(t@);
    let mut k: usize = 0;
    while k < t.len()
        invariant
            k <= t@.len(),
            tv == toml_entries(t@),
            forall|j: int| 0 <= j < k ==> #[trigger] tv[j].0 != key@,
        decreases t@.len() - k,
    {
        assert(tv[k as int].0 == t@[k as int].0@);
        if str_eq(t[k].0.as_str(), key) {
            proof {
                let c = choose|i: int| 0 <= i < tv.len() && tv[i].0 == key@ && forall|j: int| 0 <= j < i ==> #[trigger] tv[j].0 != key@;
                if c > k {
                    assert(tv[k as int].0 == key@);
                }
            }
            return Some(k);
        }
        k += 1;
    }
    None
}

/// The views of a table's entries.
pub open spec fn toml_entries(t: Seq<(String, TomlValue)>) -> Seq<(Seq<char>, TomlView)> {
    Seq::new(t.len(), |i: int| (t[i].0@, toml_view(t[i].1)))
}

/// The views of an array's values.
pub open spec fn toml_items(a: Seq<TomlValue>) -> Seq<TomlView> {
    Seq::new(a.len(), |i: int| toml_view(a[i]))
}

/// The view of a table is the views of its entries.
pub proof fn lemma_table_view(t: Vec<(String, TomlValue)>)
    ensures
        toml_view(TomlValue::Table(t)) == TomlView::Table(toml_entries(t@)),
{
    reveal(toml_view);
    let v = toml_view(TomlValue::Table(t));
    assert(v is Table);
    let s = v->Table_0;
    assert(s.len() == t@.len());
    assert forall|i: int| 0 <= i < t@.len() implies #[trigger] s[i] == toml_entries(t@)[i] by {
        assert(s[i] == (t@[i].0@, toml_view(t@[i].1)));
    }
    assert(s =~= toml_entries(t@));
}

/// The view of an array is the views of its values.
pub proof fn lemma_array_view(a: Vec<TomlValue>)
    ensures
        toml_view(TomlValue::Array(a)) == TomlView::Array(toml_items(a@)),
{
    reveal(toml_view);
    let v = toml_view(TomlValue::Array(a));
    assert(v is Array);
    let s = v->Array_0;
    assert(s.len() == a@.len());
    assert forall|i: int| 0 <= i < a@.len() implies #[trigger] s[i] == toml_items(a@)[i] by {
        assert(s[i] == toml_view(a@[i]));
    }
    assert(s =~= toml_items(a@));
}

/// A value and its view have the same kind.
pub proof fn lemma_view_shape(v: TomlValue)
    ensures
        v is Table <==> toml_view(v) is Table,
        v is Array <==> toml_view(v) is Array,
        v matches TomlValue::String(s) ==> toml_view(v) == TomlView::String(s@),
        !(v is String) ==> !(toml_view(v) is String),
{
    reveal(toml_view);
}

} // verus!
