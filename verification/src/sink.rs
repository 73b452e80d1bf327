//! Destinations for the rendered header text. A `Sink` accepts pieces of text
//! and accumulates them; on failure it may keep any prefix of the piece it was
//! handed. `StringSink` is an in-memory sink that never fails.

use vstd::prelude::*;

verus! {

#[verifier::external_type_specification]
#[verifier::external_body]
pub struct ExIoError(std::io::Error);

/// A destination for rendered text. Implementors accumulate every piece of
/// text they are handed, in order; a failing implementor may have kept any
/// prefix of the piece, and nothing that was not handed to it. A sink that
/// declares itself infallible takes every piece, and stays infallible.
pub trait Sink {
    /// The text the sink has accumulated so far.
    spec fn content(&self) -> Seq<char>;

    /// Whether the sink is one that cannot refuse a piece of text.
    spec fn infallible(&self) -> bool;

    /// Hand a piece of text to the sink.
    fn accept(&mut self, text: &str) -> (r: Result<(), std::io::Error>)
        ensures
            r is Ok ==> final(self).content() == old(self).content() + text@,
            r is Err ==> exists|n: int|
                0 <= n <= text@.len() && final(self).content() == old(self).content()
                    + text@.take(n),
            old(self).infallible() ==> r is Ok && final(self).infallible(),
    ;
}

/// An in-memory sink backed by a `String`; accepting text never fails.
pub struct StringSink {
    pub data: String,
}

impl StringSink {
    /// A fresh sink with no content.
    pub fn new() -> (r: StringSink)
        ensures
            r.content() == Seq::<char>::empty(),
    {
        StringSink { data: String::new() }
    }

    /// The accumulated text.
    pub fn into_string(self) -> (r: String)
        ensures
            r@ == self.content(),
    {
        self.data
    }
}

impl Sink for StringSink {
    open spec fn content(&self) -> Seq<char> {
        self.data@
    }

    open spec fn infallible(&self) -> bool {
        true
    }

    fn accept(&mut self, text: &str) -> (r: Result<(), std::io::Error>) {
        self.data.append(text);
        Ok(())
    }
}

/// Relies on std::io::Error::new: an error value carrying the given message.
#[verifier::external_body]
fn capacity_error() -> (r: std::io::Error) {
    std::io::Error::new(std::io::ErrorKind::Other, "sink capacity exhausted")
}

/// An in-memory sink that accepts only a set number of pieces of text and
/// fails on every piece after that, keeping its content as it was.
pub struct LimitedSink {
    pub data: String,
    pub remaining: usize,
}

impl LimitedSink {
    /// A fresh sink with no content that accepts `capacity` pieces.
    pub fn new(capacity: usize) -> (r: LimitedSink)
        ensures
            r.content() == Seq::<char>::empty(),
            r.remaining == capacity,
    {
        LimitedSink { data: String::new(), remaining: capacity }
    }

    /// The accumulated text.
    pub fn into_string(self) -> (r: String)
        ensures
            r@ == self.content(),
    {
        self.data
    }
}

impl Sink for LimitedSink {
    open spec fn content(&self) -> Seq<char> {
        self.data@
    }

    open spec fn infallible(&self) -> bool {
        false
    }

    fn accept(&mut self, text: &str) -> (r: Result<(), std::io::Error>) {
        if self.remaining == 0 {
            proof {
                assert(self.data@ =~= old(self).data@ + text@.take(0));
            }
            Err(capacity_error())
        } else {
            self.remaining = self.remaining - 1;
            self.data.append(text);
            Ok(())
        }
    }
}

} // verus!
