//! The laws of the builder: what any sequence of mutations leaves behind, and
//! what follows for the output. Each proof function states one law over the
//! model that the builder's contracts speak of.

use crate::model::{
    add_block, define_entries, define_line, has_key, key_index, keys_of,
    lemma_define_preserves_unique, unique_keys, value_at, MacroEntry,
};
use vstd::prelude::*;

verus! {

/// The entries left by a sequence of define operations applied in order to a
/// fresh builder.
pub open spec fn apply_defines(ops: Seq<MacroEntry>) -> Seq<MacroEntry>
    decreases ops.len(),
{
    if ops.len() == 0 {
        Seq::empty()
    } else {
        define_entries(apply_defines(ops.drop_last()), ops.last().0, ops.last().1)
    }
}

/// The distinct names of the operations, in order of first occurrence.
pub open spec fn first_occurrence_names(ops: Seq<MacroEntry>) -> Seq<Seq<char>>
    decreases ops.len(),
{
    if ops.len() == 0 {
        Seq::empty()
    } else {
        let prev = first_occurrence_names(ops.drop_last());
        if prev.contains(ops.last().0) {
            prev
        } else {
            prev.push(ops.last().0)
        }
    }
}

/// The value carried by the last operation with the given name.
pub open spec fn last_value_for(ops: Seq<MacroEntry>, name: Seq<char>) -> Option<Seq<char>>
    decreases ops.len(),
{
    if ops.len() == 0 {
        Option::None
    } else if ops.last().0 == name {
        ops.last().1
    } else {
        last_value_for(ops.drop_last(), name)
    }
}

/// Whatever the name and value, the emitted line is non-empty and ends with
/// the newline that closes it: one line leaves the builder per macro entry.
pub proof fn lemma_define_line_ends_with_newline(name: Seq<char>, value: Option<Seq<char>>)
    ensures
        define_line(name, value).len() > 0,
        define_line(name, value).last() == '\n',
{
    reveal_strlit("\n");
}

/// A name occurs among the entries exactly when it occurs among their keys.
pub proof fn lemma_has_key_contains(entries: Seq<MacroEntry>, name: Seq<char>)
    ensures
        has_key(entries, name) <==> keys_of(entries).contains(name),
{
    if has_key(entries, name) {
        let i = choose|i: int| 0 <= i < entries.len() && entries[i].0 == name;
        assert(keys_of(entries)[i] == name);
    }
    if keys_of(entries).contains(name) {
        let i = choose|i: int|
            0 <= i < keys_of(entries).len() && keys_of(entries)[i] == name;
        assert(entries[i].0 == name);
    }
}

/// Defining a macro leaves the keys as they were when the name was already
/// present, and appends the name when it was not.
pub proof fn lemma_define_entries_keys(
    entries: Seq<MacroEntry>,
    name: Seq<char>,
    value: Option<Seq<char>>,
)
    ensures
        keys_of(define_entries(entries, name, value)) == if has_key(entries, name) {
            keys_of(entries)
        } else {
            keys_of(entries).push(name)
        },
{
    if has_key(entries, name) {
        let k = key_index(entries, name);
        assert(0 <= k < entries.len() && entries[k].0 == name);
        assert(keys_of(entries.update(k, (name, value))) =~= keys_of(entries));
    } else {
        assert(keys_of(entries.push((name, value))) =~= keys_of(entries).push(name));
    }
}

/// After defining a macro, its name is present and holds the given value.
pub proof fn lemma_define_entries_value(
    entries: Seq<MacroEntry>,
    name: Seq<char>,
    value: Option<Seq<char>>,
)
    requires
        unique_keys(entries),
    ensures
        has_key(define_entries(entries, name, value), name),
        value_at(define_entries(entries, name, value), name) == value,
{
    let result = define_entries(entries, name, value);
    if has_key(entries, name) {
        let k = key_index(entries, name);
        assert(0 <= k < entries.len() && entries[k].0 == name);
        assert(result[k].0 == name);
        assert forall|i: int| 0 <= i < result.len() && #[trigger] result[i].0 == name implies i
            == k by {
            if i != k {
                assert(entries[i].0 == name);
                assert(entries[k].0 == name);
            }
        }
        assert(key_index(result, name) == k);
    } else {
        let n = entries.len() as int;
        assert(result[n].0 == name);
        assert forall|i: int| 0 <= i < result.len() && #[trigger] result[i].0 == name implies i
            == n by {
            if i < n {
                assert(entries[i].0 == name);
                assert(has_key(entries, name));
            }
        }
        assert(key_index(result, name) == n);
    }
}

/// Defining one macro does not touch the value held under any other name.
pub proof fn lemma_define_entries_other(
    entries: Seq<MacroEntry>,
    name: Seq<char>,
    value: Option<Seq<char>>,
    other: Seq<char>,
)
    requires
        unique_keys(entries),
        other != name,
        has_key(entries, other),
    ensures
        has_key(define_entries(entries, name, value), other),
        value_at(define_entries(entries, name, value), other) == value_at(entries, other),
{
    let result = define_entries(entries, name, value);
    let j = key_index(entries, other);
    assert(0 <= j < entries.len() && entries[j].0 == other);
    if has_key(entries, name) {
        let k = key_index(entries, name);
        assert(0 <= k < entries.len() && entries[k].0 == name);
        assert(j != k);
        assert(result[j] == entries[j]);
    } else {
        assert(result[j] == entries[j]);
    }
    assert(has_key(result, other));
    let j2 = key_index(result, other);
    assert(0 <= j2 < result.len() && result[j2].0 == other);
    assert forall|i: int| 0 <= i < result.len() && #[trigger] result[i].0 == other implies i
        == j by {
        if i < entries.len() {
            if has_key(entries, name) {
                let k = key_index(entries, name);
                if i != k {
                    assert(entries[i].0 == other);
                } else {
                    assert(result[i].0 == name);
                }
            } else {
                assert(entries[i].0 == other);
            }
        } else {
            assert(result[i].0 == name);
        }
    }
    assert(j2 == j);
}

/// Any sequence of define operations leaves one entry per distinct name, the
/// names pairwise distinct and in order of first occurrence, each holding the
/// value given by the last operation that named it — however often a name was
/// redefined in between.
pub proof fn lemma_define_fold(ops: Seq<MacroEntry>)
    ensures
        unique_keys(apply_defines(ops)),
        keys_of(apply_defines(ops)) == first_occurrence_names(ops),
        forall|name: Seq<char>| #[trigger]
            first_occurrence_names(ops).contains(name) ==> has_key(apply_defines(ops), name)
                && value_at(apply_defines(ops), name) == last_value_for(ops, name),
    decreases ops.len(),
{
    if ops.len() == 0 {
        assert(keys_of(apply_defines(ops)) =~= first_occurrence_names(ops));
    } else {
        let prev_ops = ops.drop_last();
        let op = ops.last();
        let prev = apply_defines(prev_ops);
        let result = apply_defines(ops);
        lemma_define_fold(prev_ops);
        lemma_define_preserves_unique(prev, op.0, op.1);
        lemma_define_entries_keys(prev, op.0, op.1);
        lemma_has_key_contains(prev, op.0);
        lemma_define_entries_value(prev, op.0, op.1);
        assert(keys_of(result) == first_occurrence_names(ops));
        assert forall|name: Seq<char>| #[trigger]
            first_occurrence_names(ops).contains(name) implies has_key(result, name) && value_at(
            result,
            name,
        ) == last_value_for(ops, name) by {
            if name == op.0 {
                assert(value_at(result, name) == op.1);
            } else {
                let names = first_occurrence_names(ops);
                let prev_names = first_occurrence_names(prev_ops);
                let i = choose|i: int| 0 <= i < names.len() && names[i] == name;
                if prev_names.contains(op.0) {
                    assert(prev_names[i] == name);
                } else {
                    assert(i < prev_names.len());
                    assert(prev_names[i] == name);
                }
                assert(prev_names.contains(name));
                lemma_has_key_contains(prev, name);
                lemma_define_entries_other(prev, op.0, op.1, name);
                assert(last_value_for(ops, name) == last_value_for(prev_ops, name));
            }
        }
    }
}

/// Redefining a name already present updates only its value: the names and
/// their order are untouched, and every other name keeps its value.
pub proof fn lemma_redefine_keeps_order(
    entries: Seq<MacroEntry>,
    name: Seq<char>,
    value: Option<Seq<char>>,
)
    requires
        unique_keys(entries),
        has_key(entries, name),
    ensures
        keys_of(define_entries(entries, name, value)) == keys_of(entries),
        value_at(define_entries(entries, name, value), name) == value,
        forall|other: Seq<char>|
            has_key(entries, other) && other != name ==> #[trigger] value_at(
                define_entries(entries, name, value),
                other,
            ) == value_at(entries, other),
{
    lemma_define_entries_keys(entries, name, value);
    lemma_define_entries_value(entries, name, value);
    assert forall|other: Seq<char>|
        has_key(entries, other) && other != name implies #[trigger] value_at(
        define_entries(entries, name, value),
        other,
    ) == value_at(entries, other) by {
        lemma_define_entries_other(entries, name, value, other);
    }
}

/// A block inserted twice stands in the builder once: the second insertion
/// changes nothing.
pub proof fn lemma_add_block_idempotent(blocks: Seq<Seq<char>>, block: Seq<char>)
    ensures
        add_block(add_block(blocks, block), block) == add_block(blocks, block),
{
    let once = add_block(blocks, block);
    if !blocks.contains(block) {
        assert(once[blocks.len() as int] == block);
        assert(once.contains(block));
    }
}

/// Streaming one builder state to two sinks of equal prior content, both
/// succeeding, leaves byte-identical content: the output is a function of the
/// builder state alone.
pub proof fn lemma_write_to_repeatable(
    rendered: Seq<char>,
    before1: Seq<char>,
    after1: Seq<char>,
    before2: Seq<char>,
    after2: Seq<char>,
)
    requires
        before1 == before2,
        after1 == before1 + rendered,
        after2 == before2 + rendered,
    ensures
        after1 == after2,
{
}

} // verus!
