use docrag::score::Score;
use docrag::segment::{segment, split_paragraphs, SegmentError, Strategy, DEFAULT_WINDOW};
use docrag::text::{blank, chars_of, is_whitespace, split_lines, split_words, string_of};

fn numbered_words(n: usize) -> String {
    let mut parts: Vec<String> = Vec::new();
    for i in 0..n {
        parts.push(format!("w{}", i));
    }
    parts.join(" ")
}

fn score(x: f64) -> Score {
    Score::from_bits(x.to_bits())
}

#[test]
fn whitespace_agrees_with_the_standard_library() {
    let mut u: u32 = 0;
    while u <= 0x10FFFF {
        if let Some(c) = char::from_u32(u) {
            assert_eq!(is_whitespace(c), c.is_whitespace(), "code point {:#x}", u);
        }
        u += 1;
    }
}

#[test]
fn words_are_the_runs_between_white_space() {
    let chars = chars_of("  alpha\tbeta\n\ngamma  ");
    let ws = split_words(&chars);
    let got: Vec<String> = ws.iter().map(string_of).collect();
    assert_eq!(got, vec!["alpha", "beta", "gamma"]);
}

#[test]
fn fixed_window_of_250_words_gives_100_100_50() {
    let text = numbered_words(250);
    let out = segment(&text, &Strategy::FixedWindow { size: DEFAULT_WINDOW }).unwrap();
    assert_eq!(out.len(), 3);
    let counts: Vec<usize> = out.iter().map(|c| c.split_whitespace().count()).collect();
    assert_eq!(counts, vec![100, 100, 50]);
    assert!(out[0].starts_with("w0 w1 "));
    assert!(out[0].ends_with(" w99"));
    assert!(out[1].starts_with("w100 "));
    assert!(out[2].ends_with(" w249"));
}

#[test]
fn similarity_merge_appends_later_similar_paragraphs() {
    let text = "A\n\nB\n\nC";
    assert_eq!(split_paragraphs(text), vec!["A", "B", "C"]);
    let nan = f64::NAN;
    let scores = vec![
        vec![score(nan), score(0.8), score(0.3)],
        vec![score(nan), score(nan), score(0.75)],
        vec![score(nan), score(nan), score(nan)],
    ];
    let out = segment(text, &Strategy::SimilarityMerged { scores }).unwrap();
    assert_eq!(out, vec!["A\nB", "B\nC", "C"]);
}

#[test]
fn empty_window_is_refused() {
    assert_eq!(segment("a b", &Strategy::FixedWindow { size: 0 }), Err(SegmentError::EmptyWindow));
}

#[test]
fn paragraphs_are_separated_by_blank_lines() {
    assert_eq!(split_paragraphs("one\ntwo\n\nthree"), vec!["one\ntwo", "three"]);
    assert_eq!(split_paragraphs("\n\n  \nfirst\n \t \nsecond\n\n\n"), vec!["first", "second"]);
    assert_eq!(split_paragraphs("a\r\n\r\nb\r\n"), vec!["a\r", "b\r"]);
    assert_eq!(split_paragraphs("no line feed"), vec!["no line feed"]);
    assert_eq!(split_paragraphs("  indented\n\u{a0}\u{3000}\nnext"), vec!["  indented", "next"]);
}

#[test]
fn a_text_without_words_has_no_candidates() {
    let empty: Vec<String> = Vec::new();
    for text in ["", " ", "\n\n\n", " \t\r\n "] {
        assert_eq!(split_paragraphs(text), empty);
        assert_eq!(segment(text, &Strategy::Paragraphs), Ok(Vec::new()));
        assert_eq!(segment(text, &Strategy::FixedWindow { size: 100 }), Ok(Vec::new()));
        assert_eq!(
            segment(text, &Strategy::SimilarityMerged { scores: Vec::new() }),
            Ok(Vec::new())
        );
    }
}

#[test]
fn paragraph_strategy_gives_the_paragraphs() {
    let text = "Title\n\nBody line one\nbody line two\n\nEnd";
    assert_eq!(
        segment(text, &Strategy::Paragraphs),
        Ok(vec![
            "Title".to_string(),
            "Body line one\nbody line two".to_string(),
            "End".to_string()
        ])
    );
}

#[test]
fn windows_join_their_words_with_single_spaces() {
    let text = " a  b\tc\nd\u{2003}e ";
    assert_eq!(
        segment(text, &Strategy::FixedWindow { size: 2 }),
        Ok(vec!["a b".to_string(), "c d".to_string(), "e".to_string()])
    );
    assert_eq!(
        segment(text, &Strategy::FixedWindow { size: 5 }),
        Ok(vec!["a b c d e".to_string()])
    );
    assert_eq!(
        segment(text, &Strategy::FixedWindow { size: 1 }),
        Ok(vec!["a".to_string(), "b".to_string(), "c".to_string(), "d".to_string(), "e".to_string()])
    );
    assert_eq!(
        segment(text, &Strategy::FixedWindow { size: usize::MAX }),
        Ok(vec!["a b c d e".to_string()])
    );
}

#[test]
fn windows_are_what_chunks_of_split_whitespace_gives() {
    let text = "The quick\u{a0}brown fox\njumps over\r\nthe lazy dog and keeps running far away";
    for size in 1..15usize {
        let words: Vec<&str> = text.split_whitespace().collect();
        let expected: Vec<String> = words.chunks(size).map(|c| c.join(" ")).collect();
        assert_eq!(segment(text, &Strategy::FixedWindow { size }), Ok(expected), "size {}", size);
    }
}

#[test]
fn window_counts_at_the_edges() {
    for (n, expected) in [(0usize, 0usize), (1, 1), (99, 1), (100, 1), (101, 2), (200, 2), (201, 3)] {
        let out = segment(&numbered_words(n), &Strategy::FixedWindow { size: DEFAULT_WINDOW }).unwrap();
        assert_eq!(out.len(), expected, "{} words", n);
        let total: usize = out.iter().map(|c| c.split_whitespace().count()).sum();
        assert_eq!(total, n);
        for c in &out {
            assert!(!c.is_empty());
        }
    }
    assert_eq!(DEFAULT_WINDOW, 100);
}

#[test]
fn a_similarity_of_exactly_seven_tenths_does_not_merge() {
    let text = "A\n\nB";
    let scores = vec![vec![score(1.0), score(0.7)], vec![score(0.7), score(1.0)]];
    assert_eq!(
        segment(text, &Strategy::SimilarityMerged { scores }),
        Ok(vec!["A".to_string(), "B".to_string()])
    );
}

#[test]
fn merging_reads_only_the_scores_of_later_paragraphs() {
    let text = "A\n\nB\n\nC";
    let high = score(0.99);
    let low = score(-0.2);
    let scores = vec![vec![high, low, high], vec![high, high, low], vec![high, high, high]];
    assert_eq!(
        segment(text, &Strategy::SimilarityMerged { scores }),
        Ok(vec!["A\nC".to_string(), "B".to_string(), "C".to_string()])
    );
}

#[test]
fn merging_adds_every_similar_later_paragraph_in_order() {
    let paragraphs: Vec<String> = vec!["north".into(), "east".into(), "south".into(), "west".into()];
    let s = score(0.9);
    let n = score(0.1);
    let scores = vec![
        vec![n, s, n, s],
        vec![n, n, s, s],
        vec![n, n, n, n],
        vec![n, n, n, n],
    ];
    assert_eq!(
        docrag::segment::merge_paragraphs(&paragraphs, &scores),
        Ok(vec![
            "north\neast\nwest".to_string(),
            "east\nsouth\nwest".to_string(),
            "south".to_string(),
            "west".to_string()
        ])
    );
}

#[test]
fn a_table_of_the_wrong_shape_is_refused() {
    let text = "A\n\nB\n\nC";
    let two = vec![vec![score(0.0); 2]; 2];
    assert_eq!(
        segment(text, &Strategy::SimilarityMerged { scores: two }),
        Err(SegmentError::ScoreShape)
    );
    let ragged = vec![vec![score(0.0); 3], vec![score(0.0); 2], vec![score(0.0); 3]];
    assert_eq!(
        segment(text, &Strategy::SimilarityMerged { scores: ragged }),
        Err(SegmentError::ScoreShape)
    );
    assert_eq!(
        segment(text, &Strategy::SimilarityMerged { scores: Vec::new() }),
        Err(SegmentError::ScoreShape)
    );
    let paragraphs: Vec<String> = vec!["A".into()];
    assert_eq!(
        docrag::segment::merge_paragraphs(&paragraphs, &vec![vec![score(0.0); 2]]),
        Err(SegmentError::ScoreShape)
    );
}

#[test]
fn strings_and_characters_convert_both_ways() {
    for s in ["", "plain", "na\u{ef}ve \u{1f600} text\n"] {
        let chars = chars_of(s);
        assert_eq!(chars, s.chars().collect::<Vec<char>>());
        assert_eq!(string_of(&chars), s);
    }
}

#[test]
fn lines_are_the_pieces_between_line_feeds() {
    for text in ["", "one", "one\ntwo", "\n", "a\n\nb\n", "\r\n x \n"] {
        let got: Vec<String> = split_lines(&chars_of(text)).iter().map(string_of).collect();
        let expected: Vec<String> = text.split('\n').map(|l| l.to_string()).collect();
        assert_eq!(got, expected, "{:?}", text);
    }
}

#[test]
fn a_blank_line_holds_nothing_but_white_space() {
    assert!(blank(&chars_of("")));
    assert!(blank(&chars_of(" \t\r\u{a0}\u{2028}")));
    assert!(!blank(&chars_of("  x ")));
    assert!(!blank(&chars_of("\u{200b}")));
}
