use bpw::render::{render_parts, PartSeparator, RenderOptions};
use bpw::split::split_parts;
use bpw::{ParagraphId, Sentence, SentenceId, SentenceInfo, StringSize};

fn sentence_view(index: u32, s_number: u32, p_index: u32) -> Sentence {
    Sentence {
        index: SentenceId(index),
        info: SentenceInfo {
            index: SentenceId(index),
            s_number,
            p_index: ParagraphId(p_index),
            size: StringSize { bytes: 1, symbols: 1 },
        },
    }
}

/// "A B" in a first paragraph, "C D" in a second.
fn sample() -> (Vec<Sentence>, Vec<Option<String>>) {
    let sentences = vec![sentence_view(0, 0, 0), sentence_view(1, 1, 0), sentence_view(2, 0, 1), sentence_view(3, 1, 1)];
    let texts = vec![Some("A".to_string()), Some("B".to_string()), Some("C".to_string()), Some("D".to_string())];
    (sentences, texts)
}

fn options(separator: PartSeparator, from_zero: bool, index: bool) -> RenderOptions {
    RenderOptions { separator, count_parts_from_zero: from_zero, view_index_sentence: index }
}

#[test]
fn blank_separator_and_paragraph_breaks() {
    let (s, t) = sample();
    let parts = vec![vec![0, 1, 2], vec![3]];
    let out = render_parts(&parts, &s, &t, &options(PartSeparator::Blank, false, false));
    assert_eq!(out, "\r\n\r\nA B\r\nC\r\n\r\nD");
}

#[test]
fn numbered_separator_counts_from_one() {
    let (s, t) = sample();
    let parts = vec![vec![0, 1], vec![2, 3]];
    let out = render_parts(&parts, &s, &t, &options(PartSeparator::Numbered, false, false));
    assert_eq!(out, "\r\n## 1 ##\r\nA B\r\n## 2 ##\r\nC D");
}

#[test]
fn numbered_separator_counts_from_zero() {
    let (s, t) = sample();
    let parts = vec![vec![0, 1], vec![2, 3]];
    let out = render_parts(&parts, &s, &t, &options(PartSeparator::Numbered, true, false));
    assert_eq!(out, "\r\n## 0 ##\r\nA B\r\n## 1 ##\r\nC D");
}

#[test]
fn template_separator_replaces_each_placeholder() {
    let (s, t) = sample();
    let parts = vec![vec![0]];
    let sep = PartSeparator::Template("-- {} / {} --".to_string());
    let out = render_parts(&parts, &s, &t, &options(sep, false, false));
    assert_eq!(out, "\r\n-- 1 / 1 --\r\nA");
}

#[test]
fn tenth_part_has_two_digits() {
    let (s, t) = sample();
    let parts = vec![vec![]; 10];
    let sep = PartSeparator::Template("[{}]".to_string());
    let out = render_parts(&parts, &s, &t, &options(sep, false, false));
    assert!(out.ends_with("\r\n[10]\r\n"));
}

#[test]
fn index_annotation_gives_positions() {
    let (s, t) = sample();
    let parts = vec![vec![1, 2, 3]];
    let out = render_parts(&parts, &s, &t, &options(PartSeparator::Blank, false, true));
    assert_eq!(out, "\r\n\r\n(0:1:1) B\r\n(1:0:2) C (2:1:3) D");
}

#[test]
fn sentences_without_text_are_left_out() {
    let (s, mut t) = sample();
    t[0] = None;
    let parts = vec![vec![0, 1, 2]];
    let out = render_parts(&parts, &s, &t, &options(PartSeparator::Blank, false, false));
    assert_eq!(out, "\r\n\r\nB\r\nC");
}

#[test]
fn no_parts_render_nothing() {
    let (s, t) = sample();
    let parts = split_parts(&vec![], &vec![], 200, 600);
    let out = render_parts(&parts, &s, &t, &options(PartSeparator::Numbered, false, true));
    assert_eq!(out, "");
}
