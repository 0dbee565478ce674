//! The record that flows through the pipeline: one paragraph, tagged with
//! its document, and marked once a clock time has been found in it.

use vstd::prelude::*;
use crate::text::{bytes_of, cuttable};

verus! {

/// One paragraph of a document, with where it came from and, once a stage has
/// found one, the clock time it mentions.
///
/// `section` is a half-open range of byte offsets into `text`; `time` is an
/// hour and a minute. The two are set together.
#[derive(Debug)]
pub struct ParagraphInfo {
    pub text: String,
    pub book: String,
    pub author: String,
    pub section: Option<(usize, usize)>,
    pub time: Option<(i32, i32)>,
}

/// What a record says, with its strings as sequences of characters.
pub struct ParagraphView {
    pub text: Seq<char>,
    pub book: Seq<char>,
    pub author: Seq<char>,
    pub section: Option<(usize, usize)>,
    pub time: Option<(i32, i32)>,
}

impl View for ParagraphInfo {
    type V = ParagraphView;

    open spec fn view(&self) -> ParagraphView {
        ParagraphView {
            text: self.text@,
            book: self.book@,
            author: self.author@,
            section: self.section,
            time: self.time,
        }
    }
}

impl DeepView for ParagraphInfo {
    type V = ParagraphView;

    open spec fn deep_view(&self) -> ParagraphView {
        self@
    }
}

impl ParagraphView {
    /// A span and a time are present together or not at all; a span lies
    /// within the text; a minute is one of the sixty, and an hour is no
    /// larger than an afternoon reading of hour 24 can make it.
    pub open spec fn wf(self) -> bool {
        &&& self.section is Some <==> self.time is Some
        &&& self.section matches Some((start, end)) ==> start <= end <= bytes_of(self.text).len()
        &&& self.time matches Some((hour, minute)) ==> 0 <= hour <= 36 && 0 <= minute <= 59
    }

    /// Whether the record carries a span and a time.
    pub open spec fn marked(self) -> bool {
        self.section is Some && self.time is Some
    }

    /// Whether the record carries a span that can be cut out of its text:
    /// one that lies within the text and ends between characters.
    pub open spec fn can_be_cut(self) -> bool {
        self.section matches Some((start, end)) && cuttable(bytes_of(self.text), start, end)
    }

    /// Whether the record can be shown: it carries a time, and a span that
    /// can be cut out of its text.
    pub open spec fn showable(self) -> bool {
        self.marked() && self.can_be_cut()
    }

    /// Whether the record carries a span that is not empty.
    pub open spec fn spans_text(self) -> bool {
        self.section matches Some((start, end)) && start < end
    }
}

impl ParagraphInfo {
    /// The record's invariant, stated of its view.
    pub open spec fn wf(&self) -> bool {
        self@.wf()
    }

    /// A record as the source emits it: no span and no time yet.
    pub fn new(text: &str, book: &str, author: &str) -> (record: Self)
        ensures
            record@ == (ParagraphView {
                text: text@,
                book: book@,
                author: author@,
                section: None,
                time: None,
            }),
            record.wf(),
    {
        ParagraphInfo {
            text: text.to_owned(),
            book: book.to_owned(),
            author: author.to_owned(),
            section: None,
            time: None,
        }
    }

    /// This record with the span `section` and the time `time` set in place
    /// of what it held.
    pub open spec fn marked_with(self, section: (usize, usize), time: (i32, i32)) -> ParagraphInfo {
        ParagraphInfo {
            text: self.text,
            book: self.book,
            author: self.author,
            section: Some(section),
            time: Some(time),
        }
    }

    /// An independent copy of this record that carries the span `section`
    /// and the time `time`.
    pub fn with_mark(&self, section: (usize, usize), time: (i32, i32)) -> (copy: Self)
        ensures
            copy == self.marked_with(section, time),
    {
        ParagraphInfo {
            text: self.text.clone(),
            book: self.book.clone(),
            author: self.author.clone(),
            section: Some(section),
            time: Some(time),
        }
    }
}

impl Clone for ParagraphInfo {
    fn clone(&self) -> (copy: Self)
        ensures
            copy == *self,
    {
        ParagraphInfo {
            text: self.text.clone(),
            book: self.book.clone(),
            author: self.author.clone(),
            section: self.section,
            time: self.time,
        }
    }
}

} // verus!
