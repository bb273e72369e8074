use bpw::split::{split_parts, split_sentences};
use bpw::{ParagraphId, Sentence, SentenceId, SentenceInfo, StringSize};

fn plain(symbols: &[u32]) -> (Vec<u32>, Vec<bool>) {
    (symbols.to_vec(), vec![false; symbols.len()])
}

#[test]
fn two_sentences_fill_then_third_overflows() {
    let (s, f) = plain(&[40, 80, 90]);
    assert_eq!(split_parts(&s, &f, 100, 200), vec![vec![0, 1], vec![2]]);
}

#[test]
fn empty_input_gives_no_parts() {
    let parts = split_parts(&vec![], &vec![], 100, 200);
    assert!(parts.is_empty());
}

#[test]
fn short_forced_segment_merges_into_previous_part() {
    // 190 | 20 30 | marker: the segment of 20 + 30 + 1 space = 51 < 100 joins the first part
    let s = vec![190, 20, 30, 0];
    let f = vec![false, false, false, true];
    assert_eq!(split_parts(&s, &f, 100, 200), vec![vec![0, 1, 2]]);
}

#[test]
fn short_first_forced_segment_forms_its_own_part() {
    let s = vec![20, 30, 0, 70];
    let f = vec![false, false, true, false];
    assert_eq!(split_parts(&s, &f, 100, 200), vec![vec![0, 1], vec![3]]);
}

#[test]
fn forced_segment_length_counts_spaces() {
    // 60 + 30 + 1 space = 91 < 100: merged
    let f = vec![false, false, false, true];
    assert_eq!(split_parts(&vec![190, 60, 30, 0], &f, 100, 200), vec![vec![0, 1, 2]]);
    // 60 + 39 + 1 space = 100, not below 100: a part of its own
    assert_eq!(split_parts(&vec![190, 60, 39, 0], &f, 100, 200), vec![vec![0], vec![1, 2]]);
}

#[test]
fn forced_segment_of_one_sentence_counts_its_symbols() {
    // a lone sentence of 99 symbols is below 100 and merges; one of 100 does not
    let f = vec![false, false, true];
    assert_eq!(split_parts(&vec![250, 99, 0], &f, 100, 200), vec![vec![0, 1]]);
    assert_eq!(split_parts(&vec![250, 100, 0], &f, 100, 200), vec![vec![0], vec![1]]);
}

#[test]
fn back_to_back_markers_add_no_empty_part() {
    let s = vec![50, 0, 0, 60];
    let f = vec![false, true, true, false];
    assert_eq!(split_parts(&s, &f, 100, 200), vec![vec![0], vec![3]]);
}

#[test]
fn leading_marker_adds_no_empty_part() {
    let s = vec![0, 120];
    let f = vec![true, false];
    assert_eq!(split_parts(&s, &f, 100, 200), vec![vec![1]]);
}

#[test]
fn oversized_sentence_stands_alone() {
    let (s, f) = plain(&[150, 500, 150]);
    assert_eq!(split_parts(&s, &f, 100, 200), vec![vec![0], vec![1], vec![2]]);
}

#[test]
fn sentence_added_below_minimum_may_pass_maximum() {
    let (s, f) = plain(&[90, 150]);
    assert_eq!(split_parts(&s, &f, 100, 200), vec![vec![0, 1]]);
}

#[test]
fn zero_minimum_gives_no_empty_part() {
    let (s, f) = plain(&[300, 10]);
    assert_eq!(split_parts(&s, &f, 0, 200), vec![vec![0], vec![1]]);
}

#[test]
fn parts_cover_input_without_markers() {
    let s = vec![120, 30, 0, 80, 90, 300, 10, 0, 5, 70, 150];
    let f = vec![false, false, true, false, false, false, false, true, false, false, false];
    let parts = split_parts(&s, &f, 100, 200);
    let flat: Vec<usize> = parts.iter().flatten().copied().collect();
    let expected: Vec<usize> = (0..s.len()).filter(|&i| !f[i]).collect();
    assert_eq!(flat, expected);
    assert!(parts.iter().all(|p| !p.is_empty()));
}

#[test]
fn splitting_twice_gives_same_parts() {
    let s = vec![120, 30, 0, 80, 90, 300, 10, 0, 5];
    let f = vec![false, false, true, false, false, false, false, true, false];
    assert_eq!(split_parts(&s, &f, 100, 200), split_parts(&s, &f, 100, 200));
}

#[test]
fn normal_parts_stay_within_maximum() {
    let (s, f) = plain(&[120, 50, 30, 110, 80, 20, 170, 1]);
    let parts = split_parts(&s, &f, 100, 200);
    for p in &parts {
        let total: u32 = p.iter().map(|&i| s[i]).sum();
        assert!(total <= 200);
    }
    assert_eq!(parts, vec![vec![0, 1, 2], vec![3, 4], vec![5, 6, 7]]);
}

fn sentence(index: u32, s_number: u32, p_index: u32, symbols: u32) -> Sentence {
    Sentence {
        index: SentenceId(index),
        info: SentenceInfo {
            index: SentenceId(index),
            s_number,
            p_index: ParagraphId(p_index),
            size: StringSize { bytes: symbols, symbols },
        },
    }
}

#[test]
fn sentences_matching_marker_split_parts() {
    let sentences = vec![sentence(0, 0, 0, 150), sentence(1, 0, 1, 3), sentence(2, 0, 2, 120)];
    let texts = vec![Some("a".repeat(150)), Some("***".to_string()), Some("b".repeat(120))];
    let marker = Some("***".to_string());
    assert_eq!(split_sentences(&sentences, &texts, &marker, 100, 600), vec![vec![0], vec![2]]);
    assert_eq!(split_sentences(&sentences, &texts, &None, 100, 600), vec![vec![0, 1, 2]]);
}

#[test]
fn sentence_without_text_is_never_a_marker() {
    let sentences = vec![sentence(0, 0, 0, 150), sentence(1, 0, 1, 3), sentence(2, 0, 2, 120)];
    let texts = vec![Some("a".repeat(150)), None, Some("b".repeat(120))];
    let marker = Some("***".to_string());
    assert_eq!(split_sentences(&sentences, &texts, &marker, 100, 600), vec![vec![0, 1, 2]]);
}
