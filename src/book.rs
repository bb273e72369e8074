use vstd::prelude::*;
use crate::error::{BookError, EngineError};
use crate::info::{BookInfo, ParagraphId, ParagraphInfo, SentenceId, SentenceInfo};

verus! {

/// Index of the first sentence after paragraphs `0..p`.
pub open spec fn paragraph_start(ps: Seq<ParagraphInfo>, p: int) -> int {
    if p <= 0 {
        0
    } else {
        ps[p - 1].sentence_first.0 + ps[p - 1].sentences
    }
}

/// Paragraph `p` has its own index, at least one sentence, and starts where
/// the paragraphs before it end.
pub open spec fn paragraph_wf(ps: Seq<ParagraphInfo>, p: int) -> bool {
    &&& ps[p].index.0 == p
    &&& ps[p].sentences >= 1
    &&& ps[p].sentence_first.0 == paragraph_start(ps, p)
    &&& ps[p].size.wf()
}

/// Sentence `i` has its own index and lies in the paragraph it names, at the
/// position it names.
pub open spec fn sentence_wf(ps: Seq<ParagraphInfo>, ss: Seq<SentenceInfo>, i: int) -> bool {
    let p = ss[i].p_index.0 as int;
    &&& ss[i].index.0 == i
    &&& 0 <= p < ps.len()
    &&& ps[p].sentence_first.0 <= i < ps[p].sentence_first.0 + ps[p].sentences
    &&& ss[i].s_number == i - ps[p].sentence_first.0
    &&& ss[i].size.wf()
}

/// The paragraphs' sentence ranges partition the sentence indices, in order,
/// and the book holds some text.
pub open spec fn layout_wf(info: BookInfo, ps: Seq<ParagraphInfo>, ss: Seq<SentenceInfo>) -> bool {
    &&& info.size.bytes > 0
    &&& info.size.wf()
    &&& ps.len() == info.paragraphes
    &&& ss.len() == info.sentences
    &&& forall|p: int| 0 <= p < ps.len() ==> paragraph_wf(ps, p)
    &&& paragraph_start(ps, ps.len() as int) == ss.len()
    &&& forall|i: int| 0 <= i < ss.len() ==> sentence_wf(ps, ss, i)
}

/// A view of one paragraph of a book.
#[derive(Clone, Copy, Debug, PartialEq, Eq, Structural)]
pub struct Paragraph {
    pub index: ParagraphId,
    pub info: ParagraphInfo,
}

/// A view of one sentence of a book.
#[derive(Clone, Copy, Debug, PartialEq, Eq, Structural)]
pub struct Sentence {
    pub index: SentenceId,
    pub info: SentenceInfo,
}

/// The layout of a parsed book: its paragraphs and sentences, checked to fit
/// together.
pub struct Book {
    info: BookInfo,
    paragraphs: Vec<ParagraphInfo>,
    sentences: Vec<SentenceInfo>,
}

impl Book {
    #[verifier::type_invariant]
    spec fn inv(self) -> bool {
        layout_wf(self.info, self.paragraphs@, self.sentences@)
    }

    pub closed spec fn spec_info(self) -> BookInfo {
        self.info
    }

    pub closed spec fn spec_paragraphs(self) -> Seq<ParagraphInfo> {
        self.paragraphs@
    }

    pub closed spec fn spec_sentences(self) -> Seq<SentenceInfo> {
        self.sentences@
    }

    /// Checks the layout that the engine reported and builds the book.
    pub fn from_info(
        info: BookInfo,
        paragraphs: Vec<ParagraphInfo>,
        sentences: Vec<SentenceInfo>,
    ) -> (r: Result<Book, BookError>)
        ensures
            r is Ok <==> layout_wf(info, paragraphs@, sentences@),
            r matches Ok(b) ==> b.spec_info() == info && b.spec_paragraphs() == paragraphs@
                && b.spec_sentences() == sentences@,
            r matches Err(e) ==> (e.kind == EngineError::ParseFailed <==> info.size.bytes == 0),
            r matches Err(e) ==> e.kind == EngineError::ParseFailed || e.kind == EngineError::InconsistentLayout,
    {
        if info.size.bytes == 0 {
            return Err(BookError { kind: EngineError::ParseFailed });
        }
        if info.size.bytes < info.size.symbols || paragraphs.len() != info.paragraphes as usize
            || sentences.len() != info.sentences as usize {
            return Err(BookError { kind: EngineError::InconsistentLayout });
        }
        let ghost ps = paragraphs@;
        let ghost ss = sentences@;
        let mut end: u64 = 0;
        let mut p: usize = 0;
        while p < paragraphs.len()
            invariant
                info.size.bytes > 0,
                ps == paragraphs@,
                p <= ps.len(),
                end == paragraph_start(ps, p as int),
                forall|q: int| 0 <= q < p ==> paragraph_wf(ps, q),
            decreases ps.len() - p,
        {
            let pi = paragraphs[p];
            if pi.index.0 as usize != p || pi.sentences == 0 || pi.sentence_first.0 as u64 != end
                || pi.size.bytes < pi.size.symbols {
                assert(!paragraph_wf(ps, p as int));
                return Err(BookError { kind: EngineError::InconsistentLayout });
            }
            end = pi.sentence_first.0 as u64 + pi.sentences as u64;
            p = p + 1;
        }
        if end != sentences.len() as u64 {
            return Err(BookError { kind: EngineError::InconsistentLayout });
        }
        let mut i: usize = 0;
        while i < sentences.len()
            invariant
                info.size.bytes > 0,
                ps == paragraphs@,
                ss == sentences@,
                i <= ss.len(),
                forall|j: int| 0 <= j < i ==> sentence_wf(ps, ss, j),
            decreases ss.len() - i,
        {
            let si = sentences[i];
            let pidx = si.p_index.0 as usize;
            if si.index.0 as usize != i || pidx >= paragraphs.len() || si.size.bytes < si.size.symbols {
                assert(!sentence_wf(ps, ss, i as int));
                return Err(BookError { kind: EngineError::InconsistentLayout });
            }
            let first = paragraphs[pidx].sentence_first.0 as usize;
            let count = paragraphs[pidx].sentences as usize;
            if i < first || i - first >= count || si.s_number as usize != i - first {
                assert(!sentence_wf(ps, ss, i as int));
                return Err(BookError { kind: EngineError::InconsistentLayout });
            }
            i = i + 1;
        }
        Ok(Book { info, paragraphs, sentences })
    }

    /// The book's aggregate figures.
    pub fn info(&self) -> (r: BookInfo)
        ensures
            r == self.spec_info(),
    {
        self.info
    }

    /// Metadata of paragraph `index`.
    pub fn paragraph_info(&self, index: ParagraphId) -> (r: ParagraphInfo)
        requires
            index.0 < self.spec_paragraphs().len(),
        ensures
            r == self.spec_paragraphs()[index.0 as int],
    {
        self.paragraphs[index.0 as usize]
    }

    /// Metadata of sentence `index`.
    pub fn sentence_info(&self, index: SentenceId) -> (r: SentenceInfo)
        requires
            index.0 < self.spec_sentences().len(),
        ensures
            r == self.spec_sentences()[index.0 as int],
    {
        self.sentences[index.0 as usize]
    }

    /// Whether `p` is a view of a paragraph of this book.
    pub open spec fn holds_paragraph(self, p: Paragraph) -> bool {
        &&& p.index.0 < self.spec_paragraphs().len()
        &&& p.info == self.spec_paragraphs()[p.index.0 as int]
    }

    /// Whether `s` is a view of a sentence of this book.
    pub open spec fn holds_sentence(self, s: Sentence) -> bool {
        &&& s.index.0 < self.spec_sentences().len()
        &&& s.info == self.spec_sentences()[s.index.0 as int]
    }

    /// Views of all paragraphs, in book order.
    pub fn paragraphes(&self) -> (r: Vec<Paragraph>)
        ensures
            r.len() == self.spec_paragraphs().len(),
            forall|k: int| 0 <= k < r.len() ==> r[k].index.0 == k && self.holds_paragraph(#[trigger] r[k]),
    {
        proof {
            use_type_invariant(self);
        }
        let mut r: Vec<Paragraph> = Vec::new();
        let mut k: usize = 0;
        while k < self.paragraphs.len()
            invariant
                k <= self.paragraphs.len(),
                self.paragraphs.len() <= u32::MAX,
                r.len() == k,
                forall|j: int| 0 <= j < k ==> r[j].index.0 == j && self.holds_paragraph(#[trigger] r[j]),
            decreases self.paragraphs.len() - k,
        {
            r.push(Paragraph { index: ParagraphId(k as u32), info: self.paragraphs[k] });
            k = k + 1;
        }
        r
    }

    /// Views of all sentences, in book order: paragraph by paragraph, and in
    /// each paragraph from its first sentence on.
    pub fn sentences(&self) -> (r: Vec<Sentence>)
        ensures
            r.len() == self.spec_sentences().len(),
            forall|k: int| 0 <= k < r.len() ==> r[k].index.0 == k && self.holds_sentence(#[trigger] r[k]),
    {
        proof {
            use_type_invariant(self);
        }
        let mut r: Vec<Sentence> = Vec::new();
        let mut k: usize = 0;
        while k < self.sentences.len()
            invariant
                k <= self.sentences.len(),
                self.sentences.len() <= u32::MAX,
                r.len() == k,
                forall|j: int| 0 <= j < k ==> r[j].index.0 == j && self.holds_sentence(#[trigger] r[j]),
            decreases self.sentences.len() - k,
        {
            r.push(Sentence { index: SentenceId(k as u32), info: self.sentences[k] });
            k = k + 1;
        }
        r
    }
}

impl Paragraph {
    /// The paragraph's metadata.
    pub fn info(&self) -> (r: ParagraphInfo)
        ensures
            r == self.info,
    {
        self.info
    }

    /// Views of the paragraph's sentences, in order.
    pub fn sentences(&self, book: &Book) -> (r: Vec<Sentence>)
        requires
            book.holds_paragraph(*self),
        ensures
            r.len() == self.info.sentences,
            forall|k: int| 0 <= k < r.len() ==> (#[trigger] r[k]).index.0 == self.info.sentence_first.0 + k
                && book.holds_sentence(r[k]) && r[k].info.p_index == self.index,
    {
        proof {
            use_type_invariant(book);
        }
        let ghost ps = book.spec_paragraphs();
        let ghost ss = book.spec_sentences();
        let ghost p = self.index.0 as int;
        proof {
            assert(paragraph_wf(ps, p));
            lemma_paragraph_within(ps, p);
        }
        let first = self.info.sentence_first.0;
        let count = self.info.sentences;
        let mut r: Vec<Sentence> = Vec::new();
        let mut k: u32 = 0;
        while k < count
            invariant
                book.holds_paragraph(*self),
                layout_wf(book.spec_info(), ps, ss),
                ps == book.spec_paragraphs(),
                ss == book.spec_sentences(),
                p == self.index.0,
                first == self.info.sentence_first.0,
                count == self.info.sentences,
                first + count <= ss.len(),
                k <= count,
                r.len() == k,
                forall|j: int| 0 <= j < k ==> (#[trigger] r[j]).index.0 == first + j
                    && book.holds_sentence(r[j]) && r[j].info.p_index == self.index,
            decreases count - k,
        {
            let index = SentenceId(first + k);
            let info = book.sentence_info(index);
            proof {
                let i = first + k;
                assert(sentence_wf(ps, ss, i as int));
                lemma_owner_unique(ps, ss, p, ss[i as int].p_index.0 as int, i as int);
            }
            r.push(Sentence { index, info });
            k = k + 1;
        }
        r
    }
}

/// Each paragraph's range ends within the book's sentences.
proof fn lemma_paragraph_within(ps: Seq<ParagraphInfo>, p: int)
    requires
        0 <= p < ps.len(),
        forall|q: int| 0 <= q < ps.len() ==> paragraph_wf(ps, q),
    ensures
        ps[p].sentence_first.0 + ps[p].sentences <= paragraph_start(ps, ps.len() as int),
    decreases ps.len() - p,
{
    if p + 1 < ps.len() {
        assert(paragraph_wf(ps, p + 1));
        lemma_paragraph_within(ps, p + 1);
    }
}

/// Paragraph ranges are ordered: a later paragraph starts after an earlier
/// one ends.
proof fn lemma_ranges_ordered(ps: Seq<ParagraphInfo>, p: int, q: int)
    requires
        0 <= p < q < ps.len(),
        forall|x: int| 0 <= x < ps.len() ==> paragraph_wf(ps, x),
    ensures
        ps[p].sentence_first.0 + ps[p].sentences <= ps[q].sentence_first.0,
    decreases q - p,
{
    assert(paragraph_wf(ps, q));
    if p + 1 < q {
        lemma_ranges_ordered(ps, p, q - 1);
        assert(paragraph_wf(ps, q - 1));
    }
}

/// A sentence lies in one paragraph only.
proof fn lemma_owner_unique(ps: Seq<ParagraphInfo>, ss: Seq<SentenceInfo>, p: int, q: int, i: int)
    requires
        0 <= p < ps.len(),
        0 <= q < ps.len(),
        forall|x: int| 0 <= x < ps.len() ==> paragraph_wf(ps, x),
        ps[p].sentence_first.0 <= i < ps[p].sentence_first.0 + ps[p].sentences,
        ps[q].sentence_first.0 <= i < ps[q].sentence_first.0 + ps[q].sentences,
    ensures
        p == q,
{
    if p < q {
        lemma_ranges_ordered(ps, p, q);
    } else if q < p {
        lemma_ranges_ordered(ps, q, p);
    }
}

/// In a consistent layout the sentences come paragraph by paragraph: a later
/// sentence never lies in an earlier paragraph, and within one paragraph the
/// positions follow the indices.
pub proof fn lemma_sentences_in_paragraph_order(
    info: BookInfo,
    ps: Seq<ParagraphInfo>,
    ss: Seq<SentenceInfo>,
    i: int,
    j: int,
)
    requires
        layout_wf(info, ps, ss),
        0 <= i < j < ss.len(),
    ensures
        ss[i].p_index.0 <= ss[j].p_index.0,
        ss[i].p_index == ss[j].p_index ==> ss[i].s_number < ss[j].s_number,
{
    assert(sentence_wf(ps, ss, i));
    assert(sentence_wf(ps, ss, j));
    let p = ss[i].p_index.0 as int;
    let q = ss[j].p_index.0 as int;
    if q < p {
        lemma_ranges_ordered(ps, q, p);
    }
}

impl Sentence {
    /// The sentence's metadata.
    pub fn info(&self) -> (r: SentenceInfo)
        ensures
            r == self.info,
    {
        self.info
    }

    /// Whether the sentence opens its paragraph.
    pub fn is_first(&self) -> (r: bool)
        ensures
            r == (self.info.s_number == 0),
    {
        self.info.s_number == 0
    }

    /// Whether the sentence closes its paragraph.
    pub fn is_last(&self, book: &Book) -> (r: bool)
        requires
            book.holds_sentence(*self),
        ensures
            r == (self.index.0 + 1 == book.spec_paragraphs()[self.info.p_index.0 as int].sentence_first.0
                + book.spec_paragraphs()[self.info.p_index.0 as int].sentences),
    {
        proof {
            use_type_invariant(book);
            assert(sentence_wf(book.spec_paragraphs(), book.spec_sentences(), self.index.0 as int));
        }
        let pi = book.paragraph_info(self.info.p_index);
        self.info.s_number as u64 + 1 == pi.sentences as u64
    }
}

} // verus!
