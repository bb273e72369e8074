use bpw::{Book, BookError, EngineError, BookInfo, ParagraphId, ParagraphInfo, SentenceId, SentenceInfo, StringSize};

fn size(n: u32) -> StringSize {
    StringSize { bytes: n, symbols: n }
}

fn paragraph(index: u32, first: u32, count: u32) -> ParagraphInfo {
    ParagraphInfo { index: ParagraphId(index), sentence_first: SentenceId(first), sentences: count, size: size(10) }
}

fn sentence_info(index: u32, s_number: u32, p_index: u32) -> SentenceInfo {
    SentenceInfo { index: SentenceId(index), s_number, p_index: ParagraphId(p_index), size: size(5) }
}

/// Two paragraphs: sentences 0, 1 and 2 in the first, 3 and 4 in the second.
fn layout() -> (BookInfo, Vec<ParagraphInfo>, Vec<SentenceInfo>) {
    let info = BookInfo { paragraphes: 2, sentences: 5, size: size(30) };
    let ps = vec![paragraph(0, 0, 3), paragraph(1, 3, 2)];
    let ss = vec![
        sentence_info(0, 0, 0),
        sentence_info(1, 1, 0),
        sentence_info(2, 2, 0),
        sentence_info(3, 0, 1),
        sentence_info(4, 1, 1),
    ];
    (info, ps, ss)
}

#[test]
fn consistent_layout_opens() {
    let (info, ps, ss) = layout();
    let book = Book::from_info(info, ps.clone(), ss.clone()).unwrap();
    assert_eq!(book.info(), info);
    assert_eq!(book.paragraph_info(ParagraphId(1)), ps[1]);
    assert_eq!(book.sentence_info(SentenceId(3)), ss[3]);
}

#[test]
fn sentences_come_in_book_order() {
    let (info, ps, ss) = layout();
    let book = Book::from_info(info, ps, ss).unwrap();
    let indices: Vec<u32> = book.sentences().iter().map(|s| s.index.0).collect();
    assert_eq!(indices, vec![0, 1, 2, 3, 4]);
    let paragraphs: Vec<u32> = book.paragraphes().iter().map(|p| p.info().index.0).collect();
    assert_eq!(paragraphs, vec![0, 1]);
}

#[test]
fn paragraph_lists_its_sentences() {
    let (info, ps, ss) = layout();
    let book = Book::from_info(info, ps, ss).unwrap();
    let second = book.paragraphes()[1];
    let indices: Vec<u32> = second.sentences(&book).iter().map(|s| s.info().index.0).collect();
    assert_eq!(indices, vec![3, 4]);
}

#[test]
fn first_and_last_sentences_of_paragraphs() {
    let (info, ps, ss) = layout();
    let book = Book::from_info(info, ps, ss).unwrap();
    let sentences = book.sentences();
    let first: Vec<bool> = sentences.iter().map(|s| s.is_first()).collect();
    let last: Vec<bool> = sentences.iter().map(|s| s.is_last(&book)).collect();
    assert_eq!(first, vec![true, false, false, true, false]);
    assert_eq!(last, vec![false, false, true, false, true]);
}

#[test]
fn empty_text_is_a_parse_failure() {
    let (mut info, ps, ss) = layout();
    info.size = size(0);
    assert_eq!(Book::from_info(info, ps, ss).err().map(|e| e.kind), Some(EngineError::ParseFailed));
}

#[test]
fn gap_between_paragraphs_is_refused() {
    let (info, mut ps, ss) = layout();
    ps[1].sentence_first = SentenceId(4);
    ps[1].sentences = 1;
    assert_eq!(Book::from_info(info, ps, ss).err().map(|e| e.kind), Some(EngineError::InconsistentLayout));
}

#[test]
fn wrong_position_in_paragraph_is_refused() {
    let (info, ps, mut ss) = layout();
    ss[4].s_number = 0;
    assert_eq!(Book::from_info(info, ps, ss).err().map(|e| e.kind), Some(EngineError::InconsistentLayout));
}

#[test]
fn counts_that_disagree_are_refused() {
    let (mut info, ps, ss) = layout();
    info.sentences = 6;
    assert_eq!(Book::from_info(info, ps, ss).err().map(|e| e.kind), Some(EngineError::InconsistentLayout));
}

#[test]
fn empty_paragraph_is_refused() {
    let info = BookInfo { paragraphes: 1, sentences: 0, size: size(3) };
    let ps = vec![paragraph(0, 0, 0)];
    assert_eq!(Book::from_info(info, ps, vec![]).err().map(|e| e.kind), Some(EngineError::InconsistentLayout));
}

#[test]
fn book_without_sentences_opens_empty() {
    let info = BookInfo { paragraphes: 0, sentences: 0, size: size(3) };
    let book = Book::from_info(info, vec![], vec![]).unwrap();
    assert!(book.sentences().is_empty());
    assert!(book.paragraphes().is_empty());
}

#[test]
fn error_messages_differ() {
    let parse = BookError { kind: EngineError::ParseFailed };
    assert_ne!(parse.message(), BookError { kind: EngineError::MissingEntryPoint }.message());
    assert_ne!(parse.message(), BookError { kind: EngineError::InconsistentLayout }.message());
}
