use vstd::prelude::*;
use crate::size::StringSize;

verus! {

/// Book-relative index of a paragraph.
#[derive(Clone, Copy, Debug, PartialEq, Eq, Structural)]
pub struct ParagraphId(pub u32);

/// Book-relative index of a sentence.
#[derive(Clone, Copy, Debug, PartialEq, Eq, Structural)]
pub struct SentenceId(pub u32);

/// Aggregate figures of a whole book, as the engine reports them.
#[derive(Clone, Copy, Debug, PartialEq, Eq, Structural)]
pub struct BookInfo {
    /// Number of paragraphs in the book.
    pub paragraphes: u32,
    /// Number of sentences in the book.
    pub sentences: u32,
    /// Size of the whole text.
    pub size: StringSize,
}

/// Metadata of one paragraph: a contiguous run of sentence indices.
#[derive(Clone, Copy, Debug, PartialEq, Eq, Structural)]
pub struct ParagraphInfo {
    /// Index of the paragraph in the book.
    pub index: ParagraphId,
    /// Index of the paragraph's first sentence in the book.
    pub sentence_first: SentenceId,
    /// Number of sentences in the paragraph.
    pub sentences: u32,
    /// Size of the paragraph's text.
    pub size: StringSize,
}

/// Metadata of one sentence.
#[derive(Clone, Copy, Debug, PartialEq, Eq, Structural)]
pub struct SentenceInfo {
    /// Index of the sentence in the book.
    pub index: SentenceId,
    /// Position of the sentence in its paragraph, from 0.
    pub s_number: u32,
    /// Index of the paragraph that holds the sentence.
    pub p_index: ParagraphId,
    /// Size of the sentence's text.
    pub size: StringSize,
}

} // verus!
