//! Insertion-ordered tables of the `linked_hash_map` crate, as the reports
//! and the CPU change list use them. Each table is seen through the
//! sequence of its entries, oldest first.
use linked_hash_map::LinkedHashMap;
use vstd::prelude::*;

verus! {

#[verifier::external_type_specification]
#[verifier::external_body]
#[verifier::reject_recursive_types(K)]
#[verifier::reject_recursive_types(V)]
#[verifier::reject_recursive_types(S)]
pub struct ExLinkedHashMap<K, V, S>(LinkedHashMap<K, V, S>);

/// The entries of a table of text rows (key, value), oldest first.
pub uninterp spec fn text_table_entries(m: LinkedHashMap<String, String>) -> Seq<(Seq<char>, Seq<char>)>;

/// The entries of a table of CPU changes (CPU name, change), oldest first.
pub uninterp spec fn change_table_entries(m: LinkedHashMap<String, &'static str>) -> Seq<(Seq<char>, Seq<char>)>;

/// `es` without its entries whose key is `k`.
pub open spec fn drop_key(es: Seq<(Seq<char>, Seq<char>)>, k: Seq<char>) -> Seq<(Seq<char>, Seq<char>)>
    decreases es.len(),
{
    if es.len() == 0 {
        seq![]
    } else {
        let r = drop_key(es.drop_last(), k);
        if es.last().0 == k {
            r
        } else {
            r.push(es.last())
        }
    }
}

/// The value of the latest entry of `es` with key `k`.
pub open spec fn lookup(es: Seq<(Seq<char>, Seq<char>)>, k: Seq<char>) -> Option<Seq<char>>
    decreases es.len(),
{
    if es.len() == 0 {
        None
    } else if es.last().0 == k {
        Some(es.last().1)
    } else {
        lookup(es.drop_last(), k)
    }
}

/// The entries after inserting `(k, v)`: an entry with the same key leaves
/// its place and the new entry comes last.
pub open spec fn insert_entry(es: Seq<(Seq<char>, Seq<char>)>, k: Seq<char>, v: Seq<char>) -> Seq<(Seq<char>, Seq<char>)> {
    drop_key(es, k).push((k, v))
}

/// `LinkedHashMap::new`: an empty table.
#[verifier::external_body]
pub(crate) fn new_text_table() -> (m: LinkedHashMap<String, String>)
    ensures
        text_table_entries(m) == Seq::<(Seq<char>, Seq<char>)>::empty(),
{
    LinkedHashMap::new()
}

/// `LinkedHashMap::insert`: the entry for `k` now holds `v` and comes last;
/// the value that `k` had before is returned.
#[verifier::external_body]
pub(crate) fn text_table_insert(m: &mut LinkedHashMap<String, String>, k: String, v: String) -> (r: Option<String>)
    ensures
        text_table_entries(*final(m)) == insert_entry(text_table_entries(*old(m)), k@, v@),
        match r {
            Some(x) => lookup(text_table_entries(*old(m)), k@) == Some(x@),
            None => lookup(text_table_entries(*old(m)), k@) is None,
        },
{
    m.insert(k, v)
}

/// `LinkedHashMap::iter`: the entries in order, each key and value copied.
#[verifier::external_body]
pub(crate) fn text_table_rows(m: &LinkedHashMap<String, String>) -> (r: Vec<(String, String)>)
    ensures
        r@.map_values(|e: (String, String)| (e.0@, e.1@)) == text_table_entries(*m),
{
    m.iter().map(|(k, v)| (k.clone(), v.clone())).collect()
}

/// `LinkedHashMap::new`: an empty table.
#[verifier::external_body]
pub(crate) fn new_change_table() -> (m: LinkedHashMap<String, &'static str>)
    ensures
        change_table_entries(m) == Seq::<(Seq<char>, Seq<char>)>::empty(),
{
    LinkedHashMap::new()
}

/// `LinkedHashMap::insert`: the entry for `k` now holds `v` and comes last;
/// the value that `k` had before is returned.
#[verifier::external_body]
pub(crate) fn change_table_insert(m: &mut LinkedHashMap<String, &'static str>, k: String, v: &'static str) -> (r: Option<&'static str>)
    ensures
        change_table_entries(*final(m)) == insert_entry(change_table_entries(*old(m)), k@, v@),
        match r {
            Some(x) => lookup(change_table_entries(*old(m)), k@) == Some(x@),
            None => lookup(change_table_entries(*old(m)), k@) is None,
        },
{
    m.insert(k, v)
}

/// `LinkedHashMap::iter`: the entries in order, each key copied.
#[verifier::external_body]
pub(crate) fn change_table_rows(m: &LinkedHashMap<String, &'static str>) -> (r: Vec<(String, &'static str)>)
    ensures
        r@.map_values(|e: (String, &'static str)| (e.0@, e.1@)) == change_table_entries(*m),
{
    m.iter().map(|(k, v)| (k.clone(), *v)).collect()
}

} // verus!
