//! The mathematical model of a header builder: sequences of macro entries and
//! text blocks, the effect of each mutation on them, and the rendered output.

use vstd::prelude::*;

verus! {

/// A macro entry: a name paired with an optional value.
pub type MacroEntry = (Seq<char>, Option<Seq<char>>);

/// Whether some entry carries the given name.
pub open spec fn has_key(entries: Seq<MacroEntry>, name: Seq<char>) -> bool {
    exists|i: int| 0 <= i < entries.len() && entries[i].0 == name
}

/// The index of an entry carrying the given name (unique when keys are unique).
pub open spec fn key_index(entries: Seq<MacroEntry>, name: Seq<char>) -> int {
    choose|i: int| 0 <= i < entries.len() && entries[i].0 == name
}

/// The value stored under the given name.
pub open spec fn value_at(entries: Seq<MacroEntry>, name: Seq<char>) -> Option<Seq<char>> {
    entries[key_index(entries, name)].1
}

/// The effect of defining a macro: an existing name keeps its position and
/// receives the new value; a new name is appended at the end.
pub open spec fn define_entries(
    entries: Seq<MacroEntry>,
    name: Seq<char>,
    value: Option<Seq<char>>,
) -> Seq<MacroEntry> {
    if has_key(entries, name) {
        entries.update(key_index(entries, name), (name, value))
    } else {
        entries.push((name, value))
    }
}

/// The effect of adding a text block: a block already present is a no-op;
/// a new block is appended at the end.
pub open spec fn add_block(blocks: Seq<Seq<char>>, block: Seq<char>) -> Seq<Seq<char>> {
    if blocks.contains(block) {
        blocks
    } else {
        blocks.push(block)
    }
}

/// The names of the entries, in order.
pub open spec fn keys_of(entries: Seq<MacroEntry>) -> Seq<Seq<char>> {
    entries.map_values(|e: MacroEntry| e.0)
}

/// No two entries carry the same name.
pub open spec fn unique_keys(entries: Seq<MacroEntry>) -> bool {
    forall|i: int, j: int|
        0 <= i < j < entries.len() ==> #[trigger] entries[i].0 != #[trigger] entries[j].0
}

/// No two blocks hold the same text.
pub open spec fn unique_blocks(blocks: Seq<Seq<char>>) -> bool {
    forall|i: int, j: int|
        0 <= i < j < blocks.len() ==> #[trigger] blocks[i] != #[trigger] blocks[j]
}

/// The line emitted for one macro: `#define NAME VALUE\n` when a value is
/// present, `#define NAME\n` (no trailing space) when it is absent.
pub open spec fn define_line(name: Seq<char>, value: Option<Seq<char>>) -> Seq<char> {
    match value {
        Option::Some(v) => "#define "@ + name + " "@ + v + "\n"@,
        Option::None => "#define "@ + name + "\n"@,
    }
}

/// The text emitted for the macro entries: one line per entry, in order.
pub open spec fn render_defines(entries: Seq<MacroEntry>) -> Seq<char>
    decreases entries.len(),
{
    if entries.len() == 0 {
        Seq::empty()
    } else {
        render_defines(entries.drop_last()) + define_line(entries.last().0, entries.last().1)
    }
}

/// The text emitted for the blocks: each block verbatim, in order, no separators.
pub open spec fn render_blocks(blocks: Seq<Seq<char>>) -> Seq<char>
    decreases blocks.len(),
{
    if blocks.len() == 0 {
        Seq::empty()
    } else {
        render_blocks(blocks.drop_last()) + blocks.last()
    }
}

/// The whole output: all macro lines, then all blocks.
pub open spec fn render_header(entries: Seq<MacroEntry>, blocks: Seq<Seq<char>>) -> Seq<char> {
    render_defines(entries) + render_blocks(blocks)
}

/// Rendering one more entry appends exactly that entry's line.
pub proof fn lemma_render_defines_snoc(entries: Seq<MacroEntry>, i: int)
    requires
        0 <= i < entries.len(),
    ensures
        render_defines(entries.take(i + 1)) == render_defines(entries.take(i)) + define_line(
            entries[i].0,
            entries[i].1,
        ),
{
    assert(entries.take(i + 1).drop_last() =~= entries.take(i));
    assert(entries.take(i + 1).last() == entries[i]);
}

/// A sequence is a prefix of itself.
pub proof fn lemma_prefix_refl(a: Seq<char>)
    ensures
        a.is_prefix_of(a),
{
    assert(a =~= a.subrange(0, a.len() as int));
}

/// A sequence is a prefix of itself followed by anything.
pub proof fn lemma_prefix_of_concat(a: Seq<char>, b: Seq<char>)
    ensures
        a.is_prefix_of(a + b),
{
    assert(a =~= (a + b).subrange(0, a.len() as int));
}

/// Appending a prefix of `b` to `a` yields a prefix of `a + b`.
pub proof fn lemma_concat_prefix(a: Seq<char>, p: Seq<char>, b: Seq<char>)
    requires
        p.is_prefix_of(b),
    ensures
        (a + p).is_prefix_of(a + b),
{
    assert((a + p) =~= (a + b).subrange(0, (a + p).len() as int));
}

/// Being a prefix is transitive.
pub proof fn lemma_prefix_trans(a: Seq<char>, b: Seq<char>, c: Seq<char>)
    requires
        a.is_prefix_of(b),
        b.is_prefix_of(c),
    ensures
        a.is_prefix_of(c),
{
    assert(a =~= c.subrange(0, a.len() as int));
}

/// The lines of the first entries are a prefix of all the lines.
pub proof fn lemma_render_defines_take_prefix(entries: Seq<MacroEntry>, i: int)
    requires
        0 <= i <= entries.len(),
    ensures
        render_defines(entries.take(i)).is_prefix_of(render_defines(entries)),
    decreases entries.len() - i,
{
    if i == entries.len() {
        assert(entries.take(i) =~= entries);
        lemma_prefix_refl(render_defines(entries));
    } else {
        lemma_render_defines_snoc(entries, i);
        lemma_prefix_of_concat(
            render_defines(entries.take(i)),
            define_line(entries[i].0, entries[i].1),
        );
        lemma_render_defines_take_prefix(entries, i + 1);
        lemma_prefix_trans(
            render_defines(entries.take(i)),
            render_defines(entries.take(i + 1)),
            render_defines(entries),
        );
    }
}

/// The texts of the first blocks are a prefix of all the block text.
pub proof fn lemma_render_blocks_take_prefix(blocks: Seq<Seq<char>>, i: int)
    requires
        0 <= i <= blocks.len(),
    ensures
        render_blocks(blocks.take(i)).is_prefix_of(render_blocks(blocks)),
    decreases blocks.len() - i,
{
    if i == blocks.len() {
        assert(blocks.take(i) =~= blocks);
        lemma_prefix_refl(render_blocks(blocks));
    } else {
        lemma_render_blocks_snoc(blocks, i);
        lemma_prefix_of_concat(render_blocks(blocks.take(i)), blocks[i]);
        lemma_render_blocks_take_prefix(blocks, i + 1);
        lemma_prefix_trans(
            render_blocks(blocks.take(i)),
            render_blocks(blocks.take(i + 1)),
            render_blocks(blocks),
        );
    }
}

/// Defining a macro keeps the names pairwise distinct.
pub proof fn lemma_define_preserves_unique(
    entries: Seq<MacroEntry>,
    name: Seq<char>,
    value: Option<Seq<char>>,
)
    requires
        unique_keys(entries),
    ensures
        unique_keys(define_entries(entries, name, value)),
{
    if has_key(entries, name) {
        let k = key_index(entries, name);
        let updated = entries.update(k, (name, value));
        assert forall|i: int, j: int| 0 <= i < j < updated.len() implies updated[i].0
            != updated[j].0 by {
            assert(entries[i].0 != entries[j].0);
            assert(entries[k].0 == name);
        }
    } else {
        let pushed = entries.push((name, value));
        assert forall|i: int, j: int| 0 <= i < j < pushed.len() implies pushed[i].0
            != pushed[j].0 by {
            if j < entries.len() {
                assert(entries[i].0 != entries[j].0);
            } else {
                assert(pushed[j].0 == name);
                assert(!(exists|q: int|
                    0 <= q < entries.len() && entries[q].0 == name));
                assert(entries[i].0 != name);
            }
        }
    }
}

/// Adding a block keeps the blocks pairwise distinct.
pub proof fn lemma_add_block_preserves_unique(blocks: Seq<Seq<char>>, block: Seq<char>)
    requires
        unique_blocks(blocks),
    ensures
        unique_blocks(add_block(blocks, block)),
{
    if !blocks.contains(block) {
        let pushed = blocks.push(block);
        assert forall|i: int, j: int| 0 <= i < j < pushed.len() implies pushed[i]
            != pushed[j] by {
            if j < blocks.len() {
                assert(blocks[i] != blocks[j]);
            } else {
                assert(pushed[j] == block);
                assert(!(exists|q: int| 0 <= q < blocks.len() && blocks[q] == block));
                assert(blocks[i] != block);
            }
        }
    }
}

/// Rendering one more block appends exactly that block.
pub proof fn lemma_render_blocks_snoc(blocks: Seq<Seq<char>>, i: int)
    requires
        0 <= i < blocks.len(),
    ensures
        render_blocks(blocks.take(i + 1)) == render_blocks(blocks.take(i)) + blocks[i],
{
    assert(blocks.take(i + 1).drop_last() =~= blocks.take(i));
    assert(blocks.take(i + 1).last() == blocks[i]);
}

} // verus!
