//! Layout-keeping edits of a gear file's text with `toml_edit`. Each edit
//! parses the text into a `toml_edit::DocumentMut`, makes one change and
//! writes the document back out; what comes out is named, as a function of the
//! text and the change alone. Comments, blank lines and the order of keys
//! survive an edit, which is why merges go through these and not through the
//! `toml` crate.
use toml_edit::{value, ArrayOfTables, DocumentMut, Item, Table};
use vstd::prelude::*;

verus! {

/// The text of `toml_edit`'s parse error for `d`, or `None` when it parses.
pub uninterp spec fn edit_parse_error(d: Seq<char>) -> Option<Seq<char>>;

/// How many tables the `[[item]]` array of `d` holds; `None` when `d` does not
/// parse or has no such array.
pub uninterp spec fn edit_item_count(d: Seq<char>) -> Option<nat>;

/// `d` with the key `key` removed from item table `i`.
pub uninterp spec fn edit_key_removed(d: Seq<char>, i: nat, key: Seq<char>) -> Seq<char>;

/// `d` with entry `key` moved to the end of item table `i` with the integer
/// value `v`, keeping the decor of its key and old value where it had one.
pub uninterp spec fn edit_int_replaced(d: Seq<char>, i: nat, key: Seq<char>, v: int) -> Seq<char>;

/// `d` with `key = b` inserted into item table `i`.
pub uninterp spec fn edit_bool_set(d: Seq<char>, i: nat, key: Seq<char>, b: bool) -> Seq<char>;

/// `d` with `key = "s"` inserted into item table `i`.
pub uninterp spec fn edit_str_set(d: Seq<char>, i: nat, key: Seq<char>, s: Seq<char>) -> Seq<char>;

/// The comment text before the sub-table `key` of item table `i`, where it
/// is a table with such text.
pub uninterp spec fn edit_sub_prefix(d: Seq<char>, i: nat, key: Seq<char>) -> Option<Seq<char>>;

/// The text after the header of the sub-table `key` of item table `i`, where
/// it is a table with such text.
pub uninterp spec fn edit_sub_suffix(d: Seq<char>, i: nat, key: Seq<char>) -> Option<Seq<char>>;

/// `d` with a new sub-table `key`, holding the integer entries `kvs`,
/// preceded by `prefix` and with `suffix` after its header, inserted into
/// item table `i`.
pub uninterp spec fn edit_table_set(
    d: Seq<char>,
    i: nat,
    key: Seq<char>,
    prefix: Seq<char>,
    suffix: Seq<char>,
    kvs: Seq<(Seq<char>, int)>,
) -> Seq<char>;

/// The comment text before item table `i` (empty where it has none).
pub uninterp spec fn edit_prefix(d: Seq<char>, i: nat) -> Seq<char>;

/// `d` with the text before item table `i` set to `p`.
pub uninterp spec fn edit_prefix_set(d: Seq<char>, i: nat, p: Seq<char>) -> Seq<char>;

/// Item table `i` of `d` written out on its own: the text of a document
/// whose `[[item]]` array holds just that table.
pub uninterp spec fn edit_item_text(d: Seq<char>, i: nat) -> Seq<char>;

/// `d` written out without its `[[item]]` array.
pub uninterp spec fn edit_items_removed(d: Seq<char>) -> Seq<char>;

/// `d` with its `InnateStats` table, if it has one, at position `pos` and
/// preceded by `prefix`.
pub uninterp spec fn edit_innate_placed(d: Seq<char>, pos: nat, prefix: Seq<char>) -> Seq<char>;

/// The top-level string value of `d` under `key`.
pub uninterp spec fn edit_top_str(d: Seq<char>, key: Seq<char>) -> Option<Seq<char>>;

/// The written text of the top-level item of `d` under `key`.
pub uninterp spec fn edit_top_text(d: Seq<char>, key: Seq<char>) -> Option<Seq<char>>;

/// `d` with the top-level item `key` of `from` inserted under `key`.
pub uninterp spec fn edit_top_copied(d: Seq<char>, from: Seq<char>, key: Seq<char>) -> Seq<char>;

/// `d` without its top-level item `key`.
pub uninterp spec fn edit_top_removed(d: Seq<char>, key: Seq<char>) -> Seq<char>;

/// A character that may stand in the text before a table: whitespace, line
/// ends, and any character allowed in a TOML comment.
pub open spec fn decor_char(c: char) -> bool {
    c == '\t' || c == '\n' || c == '\r' || (' ' <= c && c != '\x7f')
}

/// Whether position `i` of `p` lies inside a comment: a `#` comes before it
/// (or at it) on its line.
pub open spec fn in_comment_at(p: Seq<char>, i: int) -> bool {
    exists|j: int| 0 <= j <= i && #[trigger] p[j] == '#' && forall|k: int| j <= k <= i ==> p[k] != '\n'
}

/// Whether `p` is text that may stand before a table in a TOML document:
/// lines of spaces and tabs, each possibly ending in a comment, every comment
/// closed by a line end, and carriage returns only before a newline.
pub open spec fn decor_text(p: Seq<char>) -> bool {
    &&& forall|i: int| 0 <= i < p.len() ==> decor_char(#[trigger] p[i])
    &&& forall|i: int| 0 <= i < p.len() && #[trigger] p[i] == '\r' ==> i + 1 < p.len() && p[i + 1] == '\n'
    &&& forall|i: int|
        0 <= i < p.len() && #[trigger] p[i] != ' ' && p[i] != '\t' && p[i] != '\n' && p[i] != '\r' ==> in_comment_at(p, i)
    &&& !(p.len() > 0 && in_comment_at(p, p.len() - 1))
}

proof fn lemma_in_comment_step(p: Seq<char>, i: int)
    requires
        0 <= i < p.len(),
    ensures
        in_comment_at(p, i) == (p[i] != '\n' && (p[i] == '#' || (i > 0 && in_comment_at(p, i - 1)))),
{
    if in_comment_at(p, i) {
        let j = choose|j: int| 0 <= j <= i && #[trigger] p[j] == '#' && forall|k: int| j <= k <= i ==> p[k] != '\n';
        assert(p[i] != '\n');
        if j < i {
            assert(forall|k: int| j <= k <= i - 1 ==> p[k] != '\n');
            assert(in_comment_at(p, i - 1));
        }
    }
    if p[i] != '\n' && p[i] == '#' {
        assert(forall|k: int| i <= k <= i ==> p[k] != '\n');
        assert(in_comment_at(p, i));
    }
    if p[i] != '\n' && i > 0 && in_comment_at(p, i - 1) {
        let j = choose|j: int| 0 <= j <= i - 1 && #[trigger] p[j] == '#' && forall|k: int| j <= k <= i - 1 ==> p[k] != '\n';
        assert(forall|k: int| j <= k <= i ==> p[k] != '\n');
        assert(in_comment_at(p, i));
    }
}

/// Whether `p` is text that may stand before a table (`decor_text`).
pub fn is_decor_text(p: &str) -> (r: bool)
    ensures
        r == decor_text(p@),
{
    let v = crate::text::chars_of(p);
    let n = v.len();
    let mut comment = false;
    let mut i: usize = 0;
    while i < n
        invariant
            n == v@.len(),
            v@ == p@,
            i <= n,
            comment == (i > 0 && in_comment_at(p@, i - 1)),
            forall|k: int| 0 <= k < i ==> decor_char(#[trigger] p@[k]),
            forall|k: int| 0 <= k < i && #[trigger] p@[k] == '\r' ==> k + 1 < n && p@[k + 1] == '\n',
            forall|k: int|
                0 <= k < i && #[trigger] p@[k] != ' ' && p@[k] != '\t' && p@[k] != '\n' && p@[k] != '\r' ==> in_comment_at(p@, k),
        decreases n - i,
    {
        let c = v[i];
        proof {
            lemma_in_comment_step(p@, i as int);
        }
        if !(c == '\t' || c == '\n' || c == '\r' || (' ' <= c && c != '\x7f')) {
            return false;
        }
        if c == '\r' && !(i + 1 < n && v[i + 1] == '\n') {
            return false;
        }
        comment = c != '\n' && (c == '#' || comment);
        if c != ' ' && c != '\t' && c != '\n' && c != '\r' && !comment {
            return false;
        }
        i += 1;
    }
    !comment
}

/// Whether `p` may stand after a table header on its line: spaces and tabs,
/// possibly followed by a comment, and no line end.
pub open spec fn header_suffix_text(p: Seq<char>) -> bool {
    &&& forall|i: int| 0 <= i < p.len() ==> decor_char(#[trigger] p[i]) && p[i] != '\n' && p[i] != '\r'
    &&& forall|i: int|
        0 <= i < p.len() && #[trigger] p[i] != ' ' && p[i] != '\t' ==> exists|j: int| 0 <= j <= i && p[j] == '#'
}

/// Whether `p` may stand after a table header on its line.
pub fn is_header_suffix_text(p: &str) -> (r: bool)
    ensures
        r == header_suffix_text(p@),
{
    let v = crate::text::chars_of(p);
    let n = v.len();
    let mut hash_at: usize = n;
    let mut i: usize = 0;
    while i < n
        invariant
            n == v@.len(),
            v@ == p@,
            i <= n,
            hash_at == n || (hash_at < i && p@[hash_at as int] == '#'),
            hash_at == n ==> forall|k: int| 0 <= k < i ==> p@[k] != '#',
            forall|k: int| 0 <= k < i ==> decor_char(#[trigger] p@[k]) && p@[k] != '\n' && p@[k] != '\r',
            forall|k: int|
                0 <= k < i && #[trigger] p@[k] != ' ' && p@[k] != '\t' ==> exists|j: int| 0 <= j <= k && p@[j] == '#',
        decreases n - i,
    {
        let c = v[i];
        if c == '\n' || c == '\r' || !(c == '\t' || (' ' <= c && c != '\x7f')) {
            return false;
        }
        if c == '#' && hash_at == n {
            hash_at = i;
        }
        if c != ' ' && c != '\t' && hash_at == n {
            assert forall|j: int| 0 <= j <= i implies p@[j] != '#' by {
                if j < i {
                } else {
                    assert(p@[j] == c);
                }
            }
            return false;
        }
        i += 1;
    }
    true
}

/// Whether `i` is the index of a table of the `[[item]]` array of `d`.
pub open spec fn has_item(d: Seq<char>, i: nat) -> bool {
    edit_item_count(d) matches Some(n) && i < n
}

/// The plain form of integer entries.
pub open spec fn ints_view(kvs: Seq<(String, i64)>) -> Seq<(Seq<char>, int)> {
    kvs.map_values(|kv: (String, i64)| (kv.0@, kv.1 as int))
}

/// Parses `d` with `str::parse::<DocumentMut>`: the error's text, or `None`.
#[verifier::external_body]
pub fn parse_error(d: &str) -> (r: Option<String>)
    ensures
        match edit_parse_error(d@) {
            Some(e) => r matches Some(x) && x@ == e,
            None => r is None,
        },
{
    d.parse::<DocumentMut>().err().map(|e| e.to_string())
}

/// The length of the `[[item]]` array of `d` (`as_array_of_tables`).
#[verifier::external_body]
pub fn item_count(d: &str) -> (r: Option<usize>)
    ensures
        match edit_item_count(d@) {
            Some(n) => r matches Some(x) && x == n,
            None => r is None,
        },
        r is Some ==> edit_parse_error(d@) is None,
{
    d.parse::<DocumentMut>().ok()?.get("item")?.as_array_of_tables().map(|a| a.len())
}

/// `Table::remove` of `key` on item table `i`.
#[verifier::external_body]
pub fn remove_key(d: &str, i: usize, key: &str) -> (r: String)
    requires
        has_item(d@, i as nat),
    ensures
        r@ == edit_key_removed(d@, i as nat, key@),
        edit_item_count(r@) == edit_item_count(d@),
        edit_parse_error(r@) is None,
{
    let mut doc: DocumentMut = d.parse().unwrap();
    doc["item"].as_array_of_tables_mut().unwrap().get_mut(i).unwrap().remove(key);
    doc.to_string()
}

/// Moves entry `key` to the end of item table `i` with the integer value `v`
/// (`Table::remove`, then `Table::insert`), keeping the decor of the key and
/// of the value it had, where it had one.
#[verifier::external_body]
pub fn replace_int(d: &str, i: usize, key: &str, v: i64) -> (r: String)
    requires
        has_item(d@, i as nat),
    ensures
        r@ == edit_int_replaced(d@, i as nat, key@, v as int),
        edit_item_count(r@) == edit_item_count(d@),
        edit_parse_error(r@) is None,
{
    let mut doc: DocumentMut = d.parse().unwrap();
    let t = doc["item"].as_array_of_tables_mut().unwrap().get_mut(i).unwrap();
    let key_decor = t.get_key_value(key).map(|(k, _)| k.leaf_decor().clone());
    let old = t.remove(key);
    let mut new_item = value(v);
    if let Some(o) = old.as_ref().and_then(|x| x.as_value()) {
        *new_item.as_value_mut().unwrap().decor_mut() = o.decor().clone();
    }
    t.insert(key, new_item);
    if let (Some(kd), Some((mut km, _))) = (key_decor, t.get_key_value_mut(key)) {
        *km.leaf_decor_mut() = kd;
    }
    doc.to_string()
}

/// `Table::insert` of a boolean on item table `i`.
#[verifier::external_body]
pub fn set_bool(d: &str, i: usize, key: &str, b: bool) -> (r: String)
    requires
        has_item(d@, i as nat),
    ensures
        r@ == edit_bool_set(d@, i as nat, key@, b),
        edit_item_count(r@) == edit_item_count(d@),
        edit_parse_error(r@) is None,
{
    let mut doc: DocumentMut = d.parse().unwrap();
    doc["item"].as_array_of_tables_mut().unwrap().get_mut(i).unwrap().insert(key, value(b));
    doc.to_string()
}

/// `Table::insert` of a string on item table `i`.
#[verifier::external_body]
pub fn set_str(d: &str, i: usize, key: &str, s: &str) -> (r: String)
    requires
        has_item(d@, i as nat),
    ensures
        r@ == edit_str_set(d@, i as nat, key@, s@),
        edit_item_count(r@) == edit_item_count(d@),
        edit_parse_error(r@) is None,
{
    let mut doc: DocumentMut = d.parse().unwrap();
    doc["item"].as_array_of_tables_mut().unwrap().get_mut(i).unwrap().insert(key, value(s));
    doc.to_string()
}

/// The decor prefix of sub-table `key` of item table `i`, as text.
#[verifier::external_body]
pub fn sub_prefix(d: &str, i: usize, key: &str) -> (r: Option<String>)
    requires
        has_item(d@, i as nat),
    ensures
        match edit_sub_prefix(d@, i as nat, key@) {
            Some(p) => r matches Some(x) && x@ == p,
            None => r is None,
        },
{
    let doc: DocumentMut = d.parse().unwrap();
    let t = doc["item"].as_array_of_tables().unwrap().get(i).unwrap();
    t.get(key).and_then(|e| e.as_table()).and_then(|s| s.decor().prefix()).and_then(|p| p.as_str()).map(|p| p.to_string())
}

/// The decor suffix of sub-table `key` of item table `i`, as text.
#[verifier::external_body]
pub fn sub_suffix(d: &str, i: usize, key: &str) -> (r: Option<String>)
    requires
        has_item(d@, i as nat),
    ensures
        match edit_sub_suffix(d@, i as nat, key@) {
            Some(p) => r matches Some(x) && x@ == p,
            None => r is None,
        },
{
    let doc: DocumentMut = d.parse().unwrap();
    let t = doc["item"].as_array_of_tables().unwrap().get(i).unwrap();
    t.get(key).and_then(|e| e.as_table()).and_then(|s| s.decor().suffix()).and_then(|p| p.as_str()).map(|p| p.to_string())
}

/// Inserts a new sub-table of integer entries, with a decor prefix and
/// suffix, into item table `i` (`Table::new`, `set_prefix`, `set_suffix`,
/// `Table::insert`).
#[verifier::external_body]
pub fn set_table(d: &str, i: usize, key: &str, prefix: &str, suffix: &str, kvs: &Vec<(String, i64)>) -> (r: String)
    requires
        has_item(d@, i as nat),
        decor_text(prefix@),
        header_suffix_text(suffix@),
    ensures
        r@ == edit_table_set(d@, i as nat, key@, prefix@, suffix@, ints_view(kvs@)),
        edit_item_count(r@) == edit_item_count(d@),
        edit_parse_error(r@) is None,
{
    let mut doc: DocumentMut = d.parse().unwrap();
    let mut sub = Table::new();
    sub.decor_mut().set_prefix(prefix);
    sub.decor_mut().set_suffix(suffix);
    for (k, v) in kvs {
        sub.insert(k, value(*v));
    }
    doc["item"].as_array_of_tables_mut().unwrap().get_mut(i).unwrap().insert(key, Item::Table(sub));
    doc.to_string()
}

/// The decor prefix of item table `i`, as text (empty where it has none).
#[verifier::external_body]
pub fn table_prefix(d: &str, i: usize) -> (r: String)
    requires
        has_item(d@, i as nat),
    ensures
        r@ == edit_prefix(d@, i as nat),
{
    let doc: DocumentMut = d.parse().unwrap();
    let t = doc["item"].as_array_of_tables().unwrap().get(i).unwrap();
    t.decor().prefix().and_then(|p| p.as_str()).unwrap_or("").to_string()
}

/// Sets the decor prefix of item table `i`.
#[verifier::external_body]
pub fn set_table_prefix(d: &str, i: usize, p: &str) -> (r: String)
    requires
        has_item(d@, i as nat),
        decor_text(p@),
    ensures
        r@ == edit_prefix_set(d@, i as nat, p@),
        edit_item_count(r@) == edit_item_count(d@),
        edit_parse_error(r@) is None,
{
    let mut doc: DocumentMut = d.parse().unwrap();
    doc["item"].as_array_of_tables_mut().unwrap().get_mut(i).unwrap().decor_mut().set_prefix(p);
    doc.to_string()
}

/// Item table `i` of `d` written out on its own, as `toml_edit` writes a
/// document whose `[[item]]` array holds just that table.
#[verifier::external_body]
pub fn item_text(d: &str, i: usize) -> (r: String)
    requires
        has_item(d@, i as nat),
    ensures
        r@ == edit_item_text(d@, i as nat),
{
    let doc: DocumentMut = d.parse().unwrap();
    let mut arr = ArrayOfTables::new();
    arr.push(doc["item"].as_array_of_tables().unwrap().get(i).unwrap().clone());
    let mut one = DocumentMut::new();
    one.insert("item", Item::ArrayOfTables(arr));
    one.to_string()
}

/// `d` written out without its `[[item]]` array (`Table::remove`).
#[verifier::external_body]
pub fn without_items(d: &str) -> (r: String)
    requires
        edit_parse_error(d@) is None,
    ensures
        r@ == edit_items_removed(d@),
{
    let mut doc: DocumentMut = d.parse().unwrap();
    doc.remove("item");
    doc.to_string()
}

/// Sets the position and decor prefix of the `InnateStats` table, where `d`
/// has one.
#[verifier::external_body]
pub fn place_innate(d: &str, pos: usize, prefix: &str) -> (r: String)
    requires
        edit_parse_error(d@) is None,
        decor_text(prefix@),
    ensures
        r@ == edit_innate_placed(d@, pos as nat, prefix@),
        edit_item_count(r@) == edit_item_count(d@),
        edit_parse_error(r@) is None,
{
    let mut doc: DocumentMut = d.parse().unwrap();
    if let Some(innate) = doc.get_mut("InnateStats").and_then(|i| i.as_table_mut()) {
        innate.set_position(pos);
        innate.decor_mut().set_prefix(prefix);
    }
    doc.to_string()
}

/// The top-level string value under `key` (`Item::as_str`).
#[verifier::external_body]
pub fn top_str(d: &str, key: &str) -> (r: Option<String>)
    requires
        edit_parse_error(d@) is None,
    ensures
        match edit_top_str(d@, key@) {
            Some(s) => r matches Some(x) && x@ == s,
            None => r is None,
        },
{
    let doc: DocumentMut = d.parse().unwrap();
    doc.get(key).and_then(|v| v.as_str()).map(|s| s.to_string())
}

/// The written text (`to_string`) of the top-level item under `key`.
#[verifier::external_body]
pub fn top_text(d: &str, key: &str) -> (r: Option<String>)
    requires
        edit_parse_error(d@) is None,
    ensures
        match edit_top_text(d@, key@) {
            Some(s) => r matches Some(x) && x@ == s,
            None => r is None,
        },
{
    let doc: DocumentMut = d.parse().unwrap();
    doc.get(key).map(|v| v.to_string())
}

/// Inserts a copy of the top-level item `key` of `from` into `d`; `key` is
/// not the `[[item]]` array.
#[verifier::external_body]
pub fn copy_top(d: &str, from: &str, key: &str) -> (r: String)
    requires
        edit_parse_error(d@) is None,
        edit_parse_error(from@) is None,
        edit_top_text(from@, key@) is Some,
        key@ != "item"@,
    ensures
        r@ == edit_top_copied(d@, from@, key@),
        edit_parse_error(r@) is None,
        edit_item_count(r@) == edit_item_count(d@),
{
    let mut doc: DocumentMut = d.parse().unwrap();
    let src: DocumentMut = from.parse().unwrap();
    doc.insert(key, src[key].clone());
    doc.to_string()
}

/// Removes the top-level item `key` (not the `[[item]]` array) from `d`.
#[verifier::external_body]
pub fn remove_top(d: &str, key: &str) -> (r: String)
    requires
        edit_parse_error(d@) is None,
        key@ != "item"@,
    ensures
        r@ == edit_top_removed(d@, key@),
        edit_parse_error(r@) is None,
        edit_item_count(r@) == edit_item_count(d@),
{
    let mut doc: DocumentMut = d.parse().unwrap();
    doc.remove(key);
    doc.to_string()
}

} // verus!
