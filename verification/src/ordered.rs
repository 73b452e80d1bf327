//! Trusted view of the ordered collections from the `indexmap` crate: an
//! insertion-ordered map for the macros and an insertion-ordered set for the
//! text blocks. Each collection's contents get an abstract sequence, and each
//! method the builder calls gets a wrapper whose contract states what the
//! crate documents.

use crate::model::{define_entries, has_key, value_at, MacroEntry};
use vstd::prelude::*;

verus! {

#[verifier::external_type_specification]
#[verifier::external_body]
#[verifier::reject_recursive_types(K)]
#[verifier::reject_recursive_types(V)]
#[verifier::reject_recursive_types(S)]
pub struct ExIndexMap<K, V, S>(indexmap::IndexMap<K, V, S>);

#[verifier::external_type_specification]
#[verifier::external_body]
#[verifier::reject_recursive_types(T)]
#[verifier::reject_recursive_types(S)]
pub struct ExIndexSet<T, S>(indexmap::IndexSet<T, S>);

/// The entries a macro map holds, as (name, value) pairs in insertion order.
pub uninterp spec fn macro_entries(
    m: indexmap::IndexMap<String, Option<String>>,
) -> Seq<MacroEntry>;

/// The items a block set holds, in insertion order.
pub uninterp spec fn block_items(s: indexmap::IndexSet<String>) -> Seq<Seq<char>>;

/// The view of an optional macro value.
pub open spec fn opt_view(v: Option<String>) -> Option<Seq<char>> {
    match v {
        Option::Some(s) => Option::Some(s@),
        Option::None => Option::None,
    }
}

/// Relies on indexmap::IndexMap::new: creates an empty map.
#[verifier::external_body]
pub(crate) fn imap_new() -> (r: indexmap::IndexMap<String, Option<String>>)
    ensures
        macro_entries(r) == Seq::<MacroEntry>::empty(),
{
    indexmap::IndexMap::new()
}

/// Relies on indexmap::IndexMap::insert: an existing key keeps its place in
/// the order and its value is updated, the older value coming back in `Some`;
/// a new key-value pair goes last in order, and `None` comes back.
#[verifier::external_body]
pub(crate) fn imap_insert(
    m: &mut indexmap::IndexMap<String, Option<String>>,
    key: String,
    value: Option<String>,
) -> (r: Option<Option<String>>)
    ensures
        macro_entries(*final(m)) == define_entries(macro_entries(*old(m)), key@, opt_view(value)),
        r is Some <==> has_key(macro_entries(*old(m)), key@),
        r matches Option::Some(w) ==> opt_view(w) == value_at(macro_entries(*old(m)), key@),
{
    m.insert(key, value)
}

/// Relies on indexmap::IndexMap::len: the number of key-value pairs.
#[verifier::external_body]
pub(crate) fn imap_len(m: &indexmap::IndexMap<String, Option<String>>) -> (r: usize)
    ensures
        r == macro_entries(*m).len(),
{
    m.len()
}

/// Relies on indexmap::IndexMap::get_index: the key-value pair at the given
/// position in the order, for indices below the length.
#[verifier::external_body]
pub(crate) fn imap_entry_at(
    m: &indexmap::IndexMap<String, Option<String>>,
    i: usize,
) -> (r: (String, Option<String>))
    requires
        i < macro_entries(*m).len(),
    ensures
        r.0@ == macro_entries(*m)[i as int].0,
        opt_view(r.1) == macro_entries(*m)[i as int].1,
{
    let (k, v) = m.get_index(i).unwrap();
    (k.clone(), v.clone())
}

/// Relies on indexmap::IndexSet::new: creates an empty set.
#[verifier::external_body]
pub(crate) fn iset_new() -> (r: indexmap::IndexSet<String>)
    ensures
        block_items(r) == Seq::<Seq<char>>::empty(),
{
    indexmap::IndexSet::new()
}

/// Relies on indexmap::IndexSet::insert: an equivalent item already present
/// stays where it is and `false` comes back; a new item goes last in order
/// and `true` comes back.
#[verifier::external_body]
pub(crate) fn iset_insert(s: &mut indexmap::IndexSet<String>, value: String) -> (r: bool)
    ensures
        r == !block_items(*old(s)).contains(value@),
        block_items(*final(s)) == crate::model::add_block(block_items(*old(s)), value@),
{
    s.insert(value)
}

/// Relies on indexmap::IndexSet::len: the number of items.
#[verifier::external_body]
pub(crate) fn iset_len(s: &indexmap::IndexSet<String>) -> (r: usize)
    ensures
        r == block_items(*s).len(),
{
    s.len()
}

/// Relies on indexmap::IndexSet::get_index: the item at the given position in
/// the order, for indices below the length.
#[verifier::external_body]
pub(crate) fn iset_item_at(s: &indexmap::IndexSet<String>, i: usize) -> (r: String)
    requires
        i < block_items(*s).len(),
    ensures
        r@ == block_items(*s)[i as int],
{
    s.get_index(i).unwrap().clone()
}

} // verus!
