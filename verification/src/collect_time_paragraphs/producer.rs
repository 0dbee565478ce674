//! The source: it walks a tree of directories and cuts each document into
//! paragraphs.
//!
//! The walker keeps the list of directories still to be read and knows how
//! a document's text becomes records. Its patterns are compiled once, when
//! it is made. Listing a directory and reading a file are its caller's
//! part.

use vstd::prelude::*;
use crate::paragraph_info::{ParagraphInfo, ParagraphView};
use crate::pattern::{
    compile,
    find_group_text,
    group_text_under,
    holds,
    pattern_compiles,
    split_text,
    split_under,
    Pattern,
};
use crate::text::{remove_char, without};

verus! {

/// The header that names a document's title; its group `title` holds the
/// title.
pub const TITLE_PATTERN: &'static str = r"Title:\s+(?P<title>(.+\n*?)+)";

/// The header that names a document's author; its group `author` holds
/// the author.
pub const AUTHOR_PATTERN: &'static str = r"Author:\s+(?P<author>(.+\n*?)+)";

/// What parts two paragraphs: one blank line or several.
pub const PARAGRAPH_PATTERN: &'static str = r"\r?\n(?:\r?\n)+";

/// The group of `TITLE_PATTERN` that holds the title.
pub const TITLE_GROUP: &'static str = "title";

/// The group of `AUTHOR_PATTERN` that holds the author.
pub const AUTHOR_GROUP: &'static str = "author";

/// The author of a document that names none.
pub const UNKNOWN_AUTHOR: &'static str = "Unknown";

/// A document's text with its line endings normalised: no carriage return
/// is left.
pub open spec fn normalized(contents: Seq<char>) -> Seq<char> {
    without(contents, '\r')
}

/// One unmarked record for each of `pieces`, in order, all tagged with
/// `title` and `author`.
pub open spec fn tagged(pieces: Seq<Seq<char>>, title: Seq<char>, author: Seq<char>) -> Seq<
    ParagraphView,
> {
    Seq::new(
        pieces.len(),
        |i: int|
            ParagraphView { text: pieces[i], book: title, author: author, section: None, time: None },
    )
}

/// The records of a document, given what was found in its text: one for
/// each paragraph, each tagged with the title, or with the name of the
/// file where no title was found, and with the author, or with `Unknown`
/// where no author was found.
pub open spec fn assembled(
    file_name: Seq<char>,
    title: Option<Seq<char>>,
    author: Option<Seq<char>>,
    pieces: Option<Seq<Seq<char>>>,
) -> Seq<ParagraphView> {
    tagged(
        match pieces {
            Some(pieces) => pieces,
            None => Seq::empty(),
        },
        match title {
            Some(title) => title,
            None => file_name,
        },
        match author {
            Some(author) => author,
            None => UNKNOWN_AUTHOR@,
        },
    )
}

/// The records of the document `contents` that was read from the file
/// `file_name`: its line endings are normalised, its title and author are
/// what its headers hold, and its paragraphs are its text cut at every run
/// of blank lines.
pub open spec fn records_of(file_name: Seq<char>, contents: Seq<char>) -> Seq<ParagraphView> {
    let text = normalized(contents);
    assembled(
        file_name,
        group_text_under(TITLE_PATTERN@, text, TITLE_GROUP@),
        group_text_under(AUTHOR_PATTERN@, text, AUTHOR_GROUP@),
        split_under(PARAGRAPH_PATTERN@, text),
    )
}

/// Whether the patterns of the title header, the author header and the
/// paragraph separator all compile.
pub open spec fn all_compile() -> bool {
    &&& pattern_compiles(TITLE_PATTERN@)
    &&& pattern_compiles(AUTHOR_PATTERN@)
    &&& pattern_compiles(PARAGRAPH_PATTERN@)
}

/// What an entry of a directory is.
#[derive(Clone, Copy, Debug, PartialEq, Eq, Structural)]
pub enum EntryKind {
    /// A file: it is read as a document.
    File,
    /// A directory: it is read in its turn.
    Directory,
    /// Anything else: it is passed over.
    Other,
}

/// The walk through a tree of documents.
pub struct ParagraphProducer {
    book_path: String,
    to_read: Vec<String>,
    reader: DocumentReader,
}

/// Turns the text of a document into records, with the three patterns it
/// needs compiled once.
pub struct DocumentReader {
    title: Option<Pattern>,
    author: Option<Pattern>,
    paragraph: Option<Pattern>,
}

impl DocumentReader {
    #[verifier::type_invariant]
    spec fn compiled(self) -> bool {
        &&& holds(self.title, TITLE_PATTERN@)
        &&& holds(self.author, AUTHOR_PATTERN@)
        &&& holds(self.paragraph, PARAGRAPH_PATTERN@)
    }

    /// Whether the reader holds its three patterns compiled, or nothing
    /// for one that does not compile.
    pub closed spec fn ready(&self) -> bool {
        &&& holds(self.title, TITLE_PATTERN@)
        &&& holds(self.author, AUTHOR_PATTERN@)
        &&& holds(self.paragraph, PARAGRAPH_PATTERN@)
    }

    /// A reader with the patterns of the title header, the author header
    /// and the paragraph separator compiled.
    pub fn new() -> (reader: Self)
        ensures
            reader.ready(),
    {
        DocumentReader {
            title: compile(TITLE_PATTERN),
            author: compile(AUTHOR_PATTERN),
            paragraph: compile(PARAGRAPH_PATTERN),
        }
    }

    /// Whether all three patterns compiled. A reader without the paragraph
    /// separator finds no paragraph, and one without a header pattern
    /// finds no title or no author.
    pub fn is_compiled(&self) -> (compiled: bool)
        ensures
            compiled == all_compile(),
    {
        proof {
            use_type_invariant(self);
        }
        self.title.is_some() && self.author.is_some() && self.paragraph.is_some()
    }

    /// Turns the document `contents`, read from the file `file_name`, into
    /// its records: one for each paragraph, each tagged with the document's
    /// title and author.
    pub fn read(&self, file_name: &str, contents: &str) -> (records: Vec<ParagraphInfo>)
        ensures
            records.deep_view() == records_of(file_name@, contents@),
    {
        proof {
            use_type_invariant(self);
        }
        let text = remove_char(contents, '\r');
        let title = match &self.title {
            Some(pattern) => find_group_text(pattern, text.as_str(), TITLE_GROUP),
            None => None,
        };
        let author = match &self.author {
            Some(pattern) => find_group_text(pattern, text.as_str(), AUTHOR_GROUP),
            None => None,
        };
        let pieces = match &self.paragraph {
            Some(pattern) => Some(split_text(pattern, text.as_str())),
            None => None,
        };
        ParagraphProducer::assemble(file_name, title, author, pieces)
    }
}

impl ParagraphProducer {
    /// Whether the walker's reader holds its patterns compiled.
    pub closed spec fn ready(&self) -> bool {
        self.reader.ready()
    }

    /// The directory at which the walk began.
    pub closed spec fn root(&self) -> Seq<char> {
        self.book_path@
    }

    /// The directories still to be read. The last is read next.
    pub closed spec fn pending(&self) -> Seq<Seq<char>> {
        self.to_read.deep_view()
    }

    /// A walk that has the directory `book_path` to read and nothing else.
    pub fn new(book_path: &str) -> (walker: Self)
        ensures
            walker.root() == book_path@,
            walker.pending() == seq![book_path@],
            walker.ready(),
    {
        let mut to_read: Vec<String> = Vec::new();
        to_read.push(book_path.to_owned());
        let walker = ParagraphProducer {
            book_path: book_path.to_owned(),
            to_read,
            reader: DocumentReader::new(),
        };
        assert(walker.to_read.deep_view() =~= seq![book_path@]);
        walker
    }

    /// Whether the patterns that documents are read with compiled.
    pub fn is_compiled(&self) -> (compiled: bool)
        ensures
            compiled == all_compile(),
    {
        self.reader.is_compiled()
    }

    /// The directory at which the walk began.
    pub fn book_path(&self) -> (path: &String)
        ensures
            path@ == self.root(),
    {
        &self.book_path
    }

    /// Takes the next directory to read off the list, if one is left.
    pub fn next_directory(&mut self) -> (next: Option<String>)
        ensures
            old(self).pending().len() == 0 ==> next is None && final(self).pending() == old(
                self,
            ).pending(),
            old(self).pending().len() > 0 ==> {
                &&& next matches Some(path)
                &&& path@ == old(self).pending().last()
                &&& final(self).pending() == old(self).pending().drop_last()
            },
            final(self).root() == old(self).root(),
    {
        let ghost earlier = self.to_read.deep_view();
        let next = self.to_read.pop();
        proof {
            if earlier.len() > 0 {
                assert(self.to_read.deep_view() =~= earlier.drop_last());
            } else {
                assert(self.to_read.deep_view() =~= earlier);
            }
        }
        next
    }

    /// Puts a directory that was found while reading another on the list.
    pub fn found_directory(&mut self, path: String)
        ensures
            final(self).pending() == old(self).pending().push(path@),
            final(self).root() == old(self).root(),
    {
        let ghost earlier = self.to_read.deep_view();
        self.to_read.push(path);
        assert(self.to_read.deep_view() =~= earlier.push(path@));
    }

    /// Takes note of an entry of the directory that is being read. Returns
    /// the path where the entry is a file and so to be read now; a
    /// directory is put on the list, and anything else is passed over.
    pub fn visit(&mut self, path: String, kind: EntryKind) -> (read: Option<String>)
        ensures
            read == if kind == EntryKind::File {
                Some(path)
            } else {
                None
            },
            final(self).pending() == if kind == EntryKind::Directory {
                old(self).pending().push(path@)
            } else {
                old(self).pending()
            },
            final(self).root() == old(self).root(),
    {
        match kind {
            EntryKind::File => Some(path),
            EntryKind::Directory => {
                self.found_directory(path);
                None
            },
            EntryKind::Other => None,
        }
    }

    /// Whether the walk is over: no directory is left to read.
    pub fn is_done(&self) -> (done: bool)
        ensures
            done == (self.pending().len() == 0),
    {
        self.to_read.len() == 0
    }

    /// One unmarked record for each of `pieces`, tagged with `title` and
    /// `author`.
    pub fn tag_paragraphs(pieces: &Vec<String>, title: &str, author: &str) -> (records: Vec<
        ParagraphInfo,
    >)
        ensures
            records.deep_view() == tagged(pieces.deep_view(), title@, author@),
    {
        let mut records: Vec<ParagraphInfo> = Vec::new();
        let mut i: usize = 0;
        while i < pieces.len()
            invariant
                i <= pieces.len(),
                records@.len() == i,
                forall|k: int|
                    0 <= k < i ==> (#[trigger] records@[k])@ == tagged(
                        pieces.deep_view(),
                        title@,
                        author@,
                    )[k],
            decreases pieces.len() - i,
        {
            records.push(ParagraphInfo::new(pieces[i].as_str(), title, author));
            i = i + 1;
        }
        assert(records.deep_view() =~= tagged(pieces.deep_view(), title@, author@));
        records
    }

    /// The records of a document, given the title, the author and the
    /// paragraphs that were found in its text.
    pub fn assemble(
        file_name: &str,
        title: Option<String>,
        author: Option<String>,
        pieces: Option<Vec<String>>,
    ) -> (records: Vec<ParagraphInfo>)
        ensures
            records.deep_view() == assembled(
                file_name@,
                title.deep_view(),
                author.deep_view(),
                pieces.deep_view(),
            ),
    {
        let title = match title {
            Some(title) => title,
            None => file_name.to_owned(),
        };
        let author = match author {
            Some(author) => author,
            None => UNKNOWN_AUTHOR.to_owned(),
        };
        let pieces = match pieces {
            Some(pieces) => pieces,
            None => {
                let none: Vec<String> = Vec::new();
                assert(none.deep_view() =~= Seq::<Seq<char>>::empty());
                none
            },
        };
        Self::tag_paragraphs(&pieces, title.as_str(), author.as_str())
    }

    /// Turns the document `contents`, read from the file `file_name`, into
    /// its records: one for each paragraph, each tagged with the document's
    /// title and author.
    pub fn read_document(&self, file_name: &str, contents: &str) -> (records: Vec<ParagraphInfo>)
        ensures
            records.deep_view() == records_of(file_name@, contents@),
    {
        self.reader.read(file_name, contents)
    }
}

/// Every record that the source makes is well formed and carries neither
/// a span nor a time.
pub proof fn lemma_source_records_are_unmarked(
    pieces: Seq<Seq<char>>,
    title: Seq<char>,
    author: Seq<char>,
    i: int,
)
    requires
        0 <= i < pieces.len(),
    ensures
        tagged(pieces, title, author)[i].wf(),
        !tagged(pieces, title, author)[i].marked(),
        tagged(pieces, title, author)[i].section is None,
        tagged(pieces, title, author)[i].time is None,
{
}

} // verus!
