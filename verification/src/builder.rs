//! The header builder itself: an ordered collection of `#define` macros with
//! map semantics, a deduplicated ordered collection of verbatim text blocks,
//! and the rendering of both into C preprocessor text.

use crate::model::{
    add_block, define_entries, define_line, lemma_add_block_preserves_unique,
    lemma_concat_prefix, lemma_define_preserves_unique, lemma_prefix_of_concat,
    lemma_prefix_trans, lemma_render_blocks_snoc, lemma_render_blocks_take_prefix,
    lemma_render_defines_snoc, lemma_render_defines_take_prefix, render_blocks, render_defines,
    render_header, unique_blocks, unique_keys, MacroEntry,
};
use crate::ordered::{
    block_items, imap_entry_at, imap_insert, imap_len, imap_new, iset_insert, iset_item_at,
    iset_len, iset_new, macro_entries,
};
use crate::sink::Sink;
use vstd::prelude::*;

verus! {

/// The view of an optional borrowed macro value.
pub open spec fn opt_str_view(v: Option<&str>) -> Option<Seq<char>> {
    match v {
        Option::Some(s) => Option::Some(s@),
        Option::None => Option::None,
    }
}

/// The text that stands for a byte buffer: its lossy text decoding.
pub uninterp spec fn lossy_text(bytes: Seq<u8>) -> Seq<char>;

/// Relies on String::from_utf8_lossy: the text depends on the bytes alone;
/// malformed sequences come out as the replacement character, the rest as the
/// characters the bytes encode.
#[verifier::external_body]
fn lossy_string(bytes: &[u8]) -> (r: String)
    ensures
        r@ == lossy_text(bytes@),
{
    String::from_utf8_lossy(bytes).into_owned()
}

/// A builder for C preprocessor header text: a target path, macros in
/// insertion order with map semantics, and deduplicated verbatim text blocks.
pub struct SorseHeader {
    pub path: String,
    pub defines: indexmap::IndexMap<String, Option<String>>,
    pub blocks: indexmap::IndexSet<String>,
}

impl SorseHeader {
    /// The macro entries, as (name, value) pairs in insertion order.
    pub open spec fn defines_seq(&self) -> Seq<MacroEntry> {
        macro_entries(self.defines)
    }

    /// The text blocks, in insertion order.
    pub open spec fn blocks_seq(&self) -> Seq<Seq<char>> {
        block_items(self.blocks)
    }

    /// Macro names are unique, and so are block texts.
    pub open spec fn wf(&self) -> bool {
        unique_keys(self.defines_seq()) && unique_blocks(self.blocks_seq())
    }

    /// The full output: one line per macro in insertion order, then each
    /// block verbatim in insertion order.
    pub open spec fn rendered(&self) -> Seq<char> {
        render_header(self.defines_seq(), self.blocks_seq())
    }

    /// A fresh builder for the given target path, with no macros and no blocks.
    pub fn new(path: &str) -> (r: SorseHeader)
        ensures
            r.path@ == path@,
            r.defines_seq() == Seq::<MacroEntry>::empty(),
            r.blocks_seq() == Seq::<Seq<char>>::empty(),
            r.wf(),
    {
        SorseHeader { path: String::from_str(path), defines: imap_new(), blocks: iset_new() }
    }

    /// Define a macro. A name already present keeps its place in the emission
    /// order and receives the new value; a new name goes last. An absent
    /// value stands for a valueless `#define`.
    pub fn define(&mut self, var: &str, val: Option<&str>) -> (r: &mut SorseHeader)
        ensures
            (*r).path@ == old(self).path@,
            (*r).defines_seq() == define_entries(
                old(self).defines_seq(),
                var@,
                opt_str_view(val),
            ),
            (*r).blocks_seq() == old(self).blocks_seq(),
            old(self).wf() ==> (*r).wf(),
            *final(self) == *final(r),
    {
        let ghost entries_before = self.defines_seq();
        let owned: Option<String> = match val {
            Some(s) => Some(String::from_str(s)),
            None => None,
        };
        let _previous = imap_insert(&mut self.defines, String::from_str(var), owned);
        proof {
            if unique_keys(entries_before) {
                lemma_define_preserves_unique(entries_before, var@, opt_str_view(val));
            }
        }
        self
    }

    /// Take in a byte buffer as a text block. The bytes are decoded lossily;
    /// a block with the same text as one already present is not added again.
    /// The whole input counts as consumed, and the call never fails.
    pub fn ingest(&mut self, buf: &[u8]) -> (r: Result<usize, std::io::Error>)
        ensures
            r matches Ok(n) && n == buf@.len(),
            final(self).path@ == old(self).path@,
            final(self).defines_seq() == old(self).defines_seq(),
            final(self).blocks_seq() == add_block(old(self).blocks_seq(), lossy_text(buf@)),
            old(self).wf() ==> final(self).wf(),
    {
        let ghost blocks_before = self.blocks_seq();
        let text = lossy_string(buf);
        let _added = iset_insert(&mut self.blocks, text);
        proof {
            if unique_blocks(blocks_before) {
                lemma_add_block_preserves_unique(blocks_before, lossy_text(buf@));
            }
        }
        Ok(buf.len())
    }

    /// The no-op companion of `ingest`: changes nothing and never fails.
    pub fn flush(&mut self) -> (r: Result<(), std::io::Error>)
        ensures
            r is Ok,
            *final(self) == *old(self),
    {
        Ok(())
    }

    /// Render the whole output into a fresh string.
    pub fn render(&self) -> (out: String)
        ensures
            out@ == self.rendered(),
    {
        let mut out = String::new();
        let defines_len = imap_len(&self.defines);
        proof {
            assert(self.defines_seq().take(0) =~= Seq::<MacroEntry>::empty());
        }
        let mut i: usize = 0;
        while i < defines_len
            invariant
                defines_len == self.defines_seq().len(),
                i <= defines_len,
                out@ == render_defines(self.defines_seq().take(i as int)),
            decreases defines_len - i,
        {
            let (name, value) = imap_entry_at(&self.defines, i);
            out.append("#define ");
            out.append(name.as_str());
            match &value {
                Some(v) => {
                    out.append(" ");
                    out.append(v.as_str());
                },
                None => {},
            }
            out.append("\n");
            proof {
                lemma_render_defines_snoc(self.defines_seq(), i as int);
                assert(out@ =~= render_defines(self.defines_seq().take(i as int)) + define_line(
                    self.defines_seq()[i as int].0,
                    self.defines_seq()[i as int].1,
                ));
            }
            i = i + 1;
        }
        proof {
            assert(self.defines_seq().take(defines_len as int) =~= self.defines_seq());
            assert(self.blocks_seq().take(0) =~= Seq::<Seq<char>>::empty());
            assert(out@ =~= render_defines(self.defines_seq()) + render_blocks(
                self.blocks_seq().take(0),
            ));
        }
        let blocks_len = iset_len(&self.blocks);
        let mut j: usize = 0;
        while j < blocks_len
            invariant
                blocks_len == self.blocks_seq().len(),
                j <= blocks_len,
                out@ == render_defines(self.defines_seq()) + render_blocks(
                    self.blocks_seq().take(j as int),
                ),
            decreases blocks_len - j,
        {
            let block = iset_item_at(&self.blocks, j);
            out.append(block.as_str());
            proof {
                lemma_render_blocks_snoc(self.blocks_seq(), j as int);
                assert(out@ =~= render_defines(self.defines_seq()) + render_blocks(
                    self.blocks_seq().take(j as int + 1),
                ));
            }
            j = j + 1;
        }
        proof {
            assert(self.blocks_seq().take(blocks_len as int) =~= self.blocks_seq());
        }
        out
    }

    /// Stream the whole output to a sink, one macro line at a time and then
    /// one block at a time. On success the sink has taken in exactly the
    /// rendered text; the first failure comes back as it is, the emission
    /// stops, and the sink has taken in some prefix of the rendered text.
    /// Only the sink can fail: an infallible sink means success, and an empty
    /// builder hands the sink nothing, so nothing can go wrong.
    pub fn write_to<S: Sink>(&self, sink: &mut S) -> (r: Result<(), std::io::Error>)
        ensures
            r is Ok ==> final(sink).content() == old(sink).content() + self.rendered(),
            r is Err ==> exists|p: Seq<char>|
                final(sink).content() == old(sink).content() + p && p.is_prefix_of(
                    self.rendered(),
                ),
            old(sink).infallible() ==> r is Ok && final(sink).infallible(),
            self.defines_seq().len() == 0 && self.blocks_seq().len() == 0 ==> r is Ok,
    {
        let ghost start = sink.content();
        let defines_len = imap_len(&self.defines);
        proof {
            assert(self.defines_seq().take(0) =~= Seq::<MacroEntry>::empty());
            assert(sink.content() =~= start + render_defines(self.defines_seq().take(0)));
        }
        let mut i: usize = 0;
        while i < defines_len
            invariant
                defines_len == self.defines_seq().len(),
                i <= defines_len,
                start == old(sink).content(),
                sink.content() == start + render_defines(self.defines_seq().take(i as int)),
                old(sink).infallible() ==> sink.infallible(),
            decreases defines_len - i,
        {
            let ghost content_before = sink.content();
            let (name, value) = imap_entry_at(&self.defines, i);
            let mut line = String::new();
            line.append("#define ");
            line.append(name.as_str());
            match &value {
                Some(v) => {
                    line.append(" ");
                    line.append(v.as_str());
                },
                None => {},
            }
            line.append("\n");
            proof {
                assert(line@ =~= define_line(
                    self.defines_seq()[i as int].0,
                    self.defines_seq()[i as int].1,
                ));
                lemma_render_defines_snoc(self.defines_seq(), i as int);
            }
            match sink.accept(line.as_str()) {
                Ok(_) => {
                    proof {
                        assert(sink.content() =~= start + render_defines(
                            self.defines_seq().take(i as int + 1),
                        ));
                    }
                },
                Err(e) => {
                    proof {
                        let taken = choose|n: int|
                            0 <= n <= line@.len() && sink.content() == content_before + line@.take(
                                n,
                            );
                        let partial = render_defines(self.defines_seq().take(i as int))
                            + line@.take(taken);
                        assert(sink.content() =~= start + partial);
                        assert(line@.take(taken).is_prefix_of(line@));
                        lemma_concat_prefix(
                            render_defines(self.defines_seq().take(i as int)),
                            line@.take(taken),
                            line@,
                        );
                        lemma_render_defines_take_prefix(self.defines_seq(), i as int + 1);
                        lemma_prefix_trans(
                            partial,
                            render_defines(self.defines_seq().take(i as int + 1)),
                            render_defines(self.defines_seq()),
                        );
                        lemma_prefix_of_concat(
                            render_defines(self.defines_seq()),
                            render_blocks(self.blocks_seq()),
                        );
                        lemma_prefix_trans(
                            partial,
                            render_defines(self.defines_seq()),
                            self.rendered(),
                        );
                    }
                    return Err(e);
                },
            }
            i = i + 1;
        }
        proof {
            assert(self.defines_seq().take(defines_len as int) =~= self.defines_seq());
            assert(self.blocks_seq().take(0) =~= Seq::<Seq<char>>::empty());
            assert(sink.content() =~= start + render_defines(self.defines_seq()) + render_blocks(
                self.blocks_seq().take(0),
            ));
        }
        let blocks_len = iset_len(&self.blocks);
        let mut j: usize = 0;
        while j < blocks_len
            invariant
                blocks_len == self.blocks_seq().len(),
                j <= blocks_len,
                start == old(sink).content(),
                sink.content() == start + render_defines(self.defines_seq()) + render_blocks(
                    self.blocks_seq().take(j as int),
                ),
                old(sink).infallible() ==> sink.infallible(),
            decreases blocks_len - j,
        {
            let ghost content_before = sink.content();
            let block = iset_item_at(&self.blocks, j);
            match sink.accept(block.as_str()) {
                Ok(_) => {
                    proof {
                        lemma_render_blocks_snoc(self.blocks_seq(), j as int);
                        assert(sink.content() =~= start + render_defines(self.defines_seq())
                            + render_blocks(self.blocks_seq().take(j as int + 1)));
                    }
                },
                Err(e) => {
                    proof {
                        let b = self.blocks_seq()[j as int];
                        let taken = choose|n: int|
                            0 <= n <= b.len() && sink.content() == content_before + b.take(n);
                        let partial_blocks = render_blocks(self.blocks_seq().take(j as int))
                            + b.take(taken);
                        let partial = render_defines(self.defines_seq()) + partial_blocks;
                        assert(sink.content() =~= start + partial);
                        assert(b.take(taken).is_prefix_of(b));
                        lemma_concat_prefix(
                            render_blocks(self.blocks_seq().take(j as int)),
                            b.take(taken),
                            b,
                        );
                        lemma_render_blocks_snoc(self.blocks_seq(), j as int);
                        lemma_render_blocks_take_prefix(self.blocks_seq(), j as int + 1);
                        lemma_prefix_trans(
                            partial_blocks,
                            render_blocks(self.blocks_seq().take(j as int + 1)),
                            render_blocks(self.blocks_seq()),
                        );
                        lemma_concat_prefix(
                            render_defines(self.defines_seq()),
                            partial_blocks,
                            render_blocks(self.blocks_seq()),
                        );
                        assert(partial.is_prefix_of(self.rendered()));
                        assert(sink.content() == start + partial);
                    }
                    return Err(e);
                },
            }
            j = j + 1;
        }
        proof {
            assert(self.blocks_seq().take(blocks_len as int) =~= self.blocks_seq());
            assert(sink.content() =~= start + self.rendered());
        }
        Ok(())
    }
}

} // verus!
