//! The text segmenter: from the plain text of a document to the candidate
//! chunks that are embedded and stored.

use crate::score::Score;
use crate::text::{
    append_chars, blank, chars_of, chars_of_each, is_blank, is_word, join, join_range,
    lemma_join_covers_last, lemma_words_are_words, lemma_words_of_join, lines, rows, split_lines,
    split_words, strings_of, texts, words,
};
use vstd::prelude::*;

verus! {

/// The number of words in a window unless the caller chooses another.
pub const DEFAULT_WINDOW: usize = 100;

/// The bit pattern of 0.7, the similarity above which a later paragraph
/// is appended to an earlier one.
pub const MERGE_THRESHOLD_BITS: u64 = 0x3FE6_6666_6666_6666;

/// How a text is cut into candidates.
#[derive(Debug, PartialEq, Eq)]
pub enum Strategy {
    /// One candidate for each paragraph.
    Paragraphs,
    /// One candidate for each window of `size` words; the last window may
    /// be shorter.
    FixedWindow { size: usize },
    /// One candidate for each paragraph, extended by every later paragraph
    /// that is similar to it.  `scores[i][j]` is the cosine similarity of
    /// the paragraphs `i` and `j`; only the entries with `i < j` are read.
    /// Every pair of paragraphs is compared, so the work grows with the
    /// square of their number; each paragraph needs to be embedded once.
    SimilarityMerged { scores: Vec<Vec<Score>> },
}

/// Why a text was not segmented.
#[derive(Clone, Copy, Debug, PartialEq, Eq, Structural)]
pub enum SegmentError {
    /// A window of no words was asked for.
    EmptyWindow,
    /// The table of similarities has not one row and one column for each
    /// paragraph of the text.
    ScoreShape,
}

/// The paragraphs made of the given lines: each maximal run of lines that
/// are not blank, the lines of a run joined by line feeds.  Read from top to
/// bottom, a blank line adds nothing, a line that follows a line of a
/// paragraph extends that paragraph, and any other line starts one.
pub open spec fn group_lines(ls: Seq<Seq<char>>) -> Seq<Seq<char>>
    decreases ls.len(),
{
    if ls.len() == 0 {
        Seq::empty()
    } else {
        let before = group_lines(ls.drop_last());
        let l = ls.last();
        if is_blank(l) {
            before
        } else if ls.len() >= 2 && !is_blank(ls[ls.len() - 2]) {
            before.drop_last().push(before.last() + seq!['\n'] + l)
        } else {
            before.push(l)
        }
    }
}

/// The paragraphs of a text: its blocks of lines, separated by blank lines.
pub open spec fn paragraphs(s: Seq<char>) -> Seq<Seq<char>> {
    group_lines(lines(s))
}

/// The number of windows of `size` items that cover `n` items.
pub open spec fn window_count(n: int, size: int) -> int {
    if size <= 0 || n <= 0 {
        0
    } else {
        (n + size - 1) / size
    }
}

/// The `i`-th window of `size` words.
pub open spec fn window(ws: Seq<Seq<char>>, size: int, i: int) -> Seq<Seq<char>> {
    ws.subrange(i * size, if (i + 1) * size <= ws.len() {
        (i + 1) * size
    } else {
        ws.len() as int
    })
}

/// The windows of `size` words, each joined by single spaces.
pub open spec fn fixed_windows(ws: Seq<Seq<char>>, size: int) -> Seq<Seq<char>> {
    Seq::new(
        window_count(ws.len() as int, size) as nat,
        |i: int| join(window(ws, size, i), seq![' ']),
    )
}

/// Whether a similarity is high enough to merge: above 0.7.
pub open spec fn is_similar(s: Score) -> bool {
    s.exceeds(Score { bits: MERGE_THRESHOLD_BITS })
}

/// Paragraph `i` followed by those of the paragraphs `i + 1 .. upto` that
/// are similar to it, each on a line of its own.
pub open spec fn merged_upto(paras: Seq<Seq<char>>, row: Seq<Score>, i: int, upto: int) -> Seq<
    char,
>
    decreases upto - i,
{
    if upto <= i + 1 {
        paras[i]
    } else {
        let before = merged_upto(paras, row, i, upto - 1);
        if is_similar(row[upto - 1]) {
            before + seq!['\n'] + paras[upto - 1]
        } else {
            before
        }
    }
}

/// One candidate for each paragraph: the paragraph followed by every later
/// paragraph that is similar to it.  A later paragraph stays a candidate of
/// its own, so candidates overlap.
pub open spec fn merged(paras: Seq<Seq<char>>, scores: Seq<Seq<Score>>) -> Seq<Seq<char>> {
    Seq::new(paras.len(), |i: int| merged_upto(paras, scores[i], i, paras.len() as int))
}

/// The views of the rows of a table of scores.
pub open spec fn score_rows(v: Seq<Vec<Score>>) -> Seq<Seq<Score>> {
    Seq::new(v.len(), |i: int| v[i]@)
}

/// Whether a table of scores has `n` rows of `n` entries.
pub open spec fn is_square(scores: Seq<Seq<Score>>, n: int) -> bool {
    scores.len() == n && forall|i: int| 0 <= i < n ==> (#[trigger] scores[i]).len() == n
}

impl Strategy {
    /// Why a text cannot be segmented with this strategy, if it cannot.
    pub open spec fn refusal(self, s: Seq<char>) -> Option<SegmentError> {
        match self {
            Strategy::Paragraphs => None,
            Strategy::FixedWindow { size } => if size == 0 {
                Some(SegmentError::EmptyWindow)
            } else {
                None
            },
            Strategy::SimilarityMerged { scores } => if is_square(
                score_rows(scores@),
                paragraphs(s).len() as int,
            ) {
                None
            } else {
                Some(SegmentError::ScoreShape)
            },
        }
    }

    /// The candidates that this strategy cuts a text into.
    pub open spec fn candidates(self, s: Seq<char>) -> Seq<Seq<char>> {
        match self {
            Strategy::Paragraphs => paragraphs(s),
            Strategy::FixedWindow { size } => fixed_windows(words(s), size as int),
            Strategy::SimilarityMerged { scores } => merged(paragraphs(s), score_rows(scores@)),
        }
    }
}

/// Groups lines into paragraphs.
fn group(ls: &Vec<Vec<char>>) -> (out: Vec<Vec<char>>)
    ensures
        rows(out@) == group_lines(rows(ls@)),
{
    let mut out: Vec<Vec<char>> = Vec::new();
    let mut cur: Vec<char> = Vec::new();
    let mut open: bool = false;
    let mut i: usize = 0;
    let ghost all = rows(ls@);
    assert(all.take(0) =~= Seq::<Seq<char>>::empty());
    while i < ls.len()
        invariant
            i <= ls.len(),
            all == rows(ls@),
            open <==> (i > 0 && !is_blank(all[i - 1])),
            open ==> rows(out@).push(cur@) == group_lines(all.take(i as int)),
            !open ==> cur@.len() == 0 && rows(out@) == group_lines(all.take(i as int)),
        decreases ls.len() - i,
    {
        let ghost done = rows(out@);
        let ghost old_cur = cur@;
        proof {
            let next = all.take(i + 1);
            assert(next.drop_last() == all.take(i as int));
            assert(next.last() == ls@[i as int]@);
            assert(i > 0 ==> next[next.len() - 2] == all[i - 1]);
            assert(done.push(old_cur).drop_last() == done);
        }
        if blank(&ls[i]) {
            if open {
                out.push(cur);
                assert(rows(out@) == done.push(old_cur));
                cur = Vec::new();
                open = false;
            }
        } else {
            if open {
                cur.push('\n');
                assert(cur@ == old_cur + seq!['\n']);
            }
            append_chars(&mut cur, &ls[i]);
            open = true;
        }
        i += 1;
    }
    assert(all.take(ls.len() as int) == all);
    if open {
        let ghost done = rows(out@);
        out.push(cur);
        assert(rows(out@) == done.push(cur@));
    }
    out
}

/// Cuts words into windows of `size` words and joins each with spaces.
fn cut_windows(ws: &Vec<Vec<char>>, size: usize) -> (out: Vec<Vec<char>>)
    requires
        size > 0,
    ensures
        rows(out@) == fixed_windows(rows(ws@), size as int),
{
    let mut out: Vec<Vec<char>> = Vec::new();
    let mut sep: Vec<char> = Vec::new();
    sep.push(' ');
    assert(sep@ == seq![' ']);
    let n: usize = ws.len();
    let mut start: usize = 0;
    let ghost all = rows(ws@);
    assert(out.len() * size == 0) by (nonlinear_arith)
        requires
            out.len() == 0,
    ;
    while start < n
        invariant
            size > 0,
            n == ws.len(),
            all == rows(ws@),
            sep@ == seq![' '],
            start <= n,
            start < n ==> start == out.len() * size,
            start == n ==> out.len() == window_count(n as int, size as int),
            out.len() <= window_count(n as int, size as int),
            forall|i: int|
                0 <= i < out.len() ==> (#[trigger] out@[i])@ == join(
                    window(all, size as int, i),
                    seq![' '],
                ),
        decreases n - start,
    {
        let end: usize = if n - start < size {
            n
        } else {
            start + size
        };
        let ghost k = out.len() as int;
        proof {
            lemma_window_step(n as int, size as int, k);
            assert(window(all, size as int, k) == all.subrange(start as int, end as int));
        }
        let piece = join_range(ws, start, end, &sep);
        out.push(piece);
        start = end;
    }
    proof {
        if n == 0 {
            assert(window_count(0, size as int) == 0);
        }
        assert(rows(out@) =~= fixed_windows(all, size as int));
    }
    out
}

/// With `k` full windows before it, the window `k` starts inside the
/// words, is followed by fewer windows than cover them all, and is the last
/// one exactly when it reaches the end.
proof fn lemma_window_step(n: int, size: int, k: int)
    requires
        size > 0,
        0 <= k,
        k * size < n,
    ensures
        (k + 1) * size == k * size + size,
        k < window_count(n, size),
        n - k * size <= size ==> window_count(n, size) == k + 1,
        n - k * size > size ==> k + 1 < window_count(n, size),
{
    assert((k + 1) * size == k * size + size) by (nonlinear_arith);
    let c = (n + size - 1) / size;
    assert(c * size <= n + size - 1 < c * size + size) by (nonlinear_arith)
        requires
            size > 0,
            c == (n + size - 1) / size,
    ;
    assert(k < c) by (nonlinear_arith)
        requires
            size > 0,
            k * size < n,
            n + size - 1 < c * size + size,
    ;
    if n - k * size <= size {
        assert(c <= k + 1) by (nonlinear_arith)
            requires
                size > 0,
                n <= k * size + size,
                c * size <= n + size - 1,
        ;
    } else {
        assert(k + 1 < c) by (nonlinear_arith)
            requires
                size > 0,
                n > k * size + size,
                n + size - 1 < c * size + size,
        ;
    }
}


/// Decides [`is_similar`].
pub fn similar(s: &Score) -> (r: bool)
    ensures
        r == is_similar(*s),
{
    let threshold = Score::from_bits(MERGE_THRESHOLD_BITS);
    s.gt(&threshold)
}

/// Decides [`is_square`].
fn square(scores: &Vec<Vec<Score>>, n: usize) -> (r: bool)
    ensures
        r == is_square(score_rows(scores@), n as int),
{
    if scores.len() != n {
        return false;
    }
    let mut i: usize = 0;
    while i < n
        invariant
            i <= n,
            scores.len() == n,
            forall|k: int| 0 <= k < i ==> (#[trigger] score_rows(scores@)[k]).len() == n,
        decreases n - i,
    {
        if scores[i].len() != n {
            assert(score_rows(scores@)[i as int].len() != n);
            return false;
        }
        i += 1;
    }
    true
}

/// Extends each paragraph by the later paragraphs that are similar to it.
///
/// Every pair of paragraphs is looked at once, so the work grows with the
/// square of their number.  The similarities come ready in `scores`: each
/// paragraph has to be embedded once only.
fn merge(paras: &Vec<Vec<char>>, scores: &Vec<Vec<Score>>) -> (out: Vec<Vec<char>>)
    requires
        is_square(score_rows(scores@), paras.len() as int),
    ensures
        rows(out@) == merged(rows(paras@), score_rows(scores@)),
{
    let n: usize = paras.len();
    let mut out: Vec<Vec<char>> = Vec::new();
    let ghost all = rows(paras@);
    let ghost table = score_rows(scores@);
    let mut i: usize = 0;
    while i < n
        invariant
            i <= n,
            n == paras.len(),
            all == rows(paras@),
            table == score_rows(scores@),
            is_square(table, n as int),
            out.len() == i,
            forall|k: int|
                0 <= k < i ==> (#[trigger] out@[k])@ == merged_upto(all, table[k], k, n as int),
        decreases n - i,
    {
        let mut cur: Vec<char> = Vec::new();
        append_chars(&mut cur, &paras[i]);
        assert(cur@ == all[i as int]);
        assert(table[i as int].len() == n);
        let row = &scores[i];
        assert(row@ == table[i as int]);
        let mut j: usize = i + 1;
        while j < n
            invariant
                i < j <= n,
                n == paras.len(),
                all == rows(paras@),
                row@.len() == n,
                cur@ == merged_upto(all, row@, i as int, j as int),
            decreases n - j,
        {
            if similar(&row[j]) {
                cur.push('\n');
                append_chars(&mut cur, &paras[j]);
            }
            j += 1;
        }
        out.push(cur);
        i += 1;
    }
    assert(rows(out@) =~= merged(all, table));
    out
}

/// The paragraphs of a text, for the caller who has to score them before
/// the text can be segmented by similarity.
pub fn split_paragraphs(raw_text: &str) -> (out: Vec<String>)
    ensures
        texts(out@) == paragraphs(raw_text@),
{
    let chars = chars_of(raw_text);
    let ls = split_lines(&chars);
    let paras = group(&ls);
    strings_of(&paras)
}

/// Cuts a text into candidates.
///
/// A strategy that cannot be applied to the text is refused, and nothing
/// else is: a window of no words, or similarities that do not form a table
/// with one row and one column for each paragraph of the text.
pub fn segment(raw_text: &str, strategy: &Strategy) -> (r: Result<Vec<String>, SegmentError>)
    ensures
        match r {
            Ok(v) => strategy.refusal(raw_text@) is None && texts(v@) == strategy.candidates(
                raw_text@,
            ),
            Err(e) => strategy.refusal(raw_text@) == Some(e),
        },
{
    let chars = chars_of(raw_text);
    match strategy {
        Strategy::Paragraphs => {
            let ls = split_lines(&chars);
            let paras = group(&ls);
            Ok(strings_of(&paras))
        },
        Strategy::FixedWindow { size } => {
            if *size == 0 {
                return Err(SegmentError::EmptyWindow);
            }
            let ws = split_words(&chars);
            let pieces = cut_windows(&ws, *size);
            Ok(strings_of(&pieces))
        },
        Strategy::SimilarityMerged { scores } => {
            let ls = split_lines(&chars);
            let paras = group(&ls);
            if !square(scores, paras.len()) {
                return Err(SegmentError::ScoreShape);
            }
            let pieces = merge(&paras, scores);
            Ok(strings_of(&pieces))
        },
    }
}


/// Every paragraph holds a character, and lines that end in a line that is
/// not blank have a paragraph.
pub proof fn lemma_paragraphs_nonempty(ls: Seq<Seq<char>>)
    ensures
        forall|i: int| 0 <= i < group_lines(ls).len() ==> (#[trigger] group_lines(ls)[i]).len() > 0,
        ls.len() > 0 && !is_blank(ls.last()) ==> group_lines(ls).len() > 0,
    decreases ls.len(),
{
    if ls.len() > 0 {
        let before = group_lines(ls.drop_last());
        lemma_paragraphs_nonempty(ls.drop_last());
        let l = ls.last();
        if is_blank(l) {
        } else if ls.len() >= 2 && !is_blank(ls[ls.len() - 2]) {
            assert(ls.drop_last().last() == ls[ls.len() - 2]);
            assert forall|i: int| 0 <= i < group_lines(ls).len() implies (#[trigger] group_lines(
                ls,
            )[i]).len() > 0 by {
                if i < before.len() - 1 {
                    assert(group_lines(ls)[i] == before[i]);
                }
            }
        } else {
            assert(l.len() > 0);
            assert forall|i: int| 0 <= i < group_lines(ls).len() implies (#[trigger] group_lines(
                ls,
            )[i]).len() > 0 by {
                if i < before.len() {
                    assert(group_lines(ls)[i] == before[i]);
                }
            }
        }
    }
}

/// A merged candidate starts with its own paragraph.
pub proof fn lemma_merged_starts_with_paragraph(
    paras: Seq<Seq<char>>,
    row: Seq<Score>,
    i: int,
    upto: int,
)
    requires
        0 <= i < paras.len(),
    ensures
        paras[i].is_prefix_of(merged_upto(paras, row, i, upto)),
    decreases upto - i,
{
    if upto > i + 1 {
        lemma_merged_starts_with_paragraph(paras, row, i, upto - 1);
    }
}

/// The windows of a text cover its words in order: there are as many as it
/// takes, and the words of the `i`-th candidate are the `i`-th window, which
/// is full unless it is the last.
pub proof fn lemma_fixed_window_words(s: Seq<char>, size: int, i: int)
    requires
        size > 0,
        0 <= i < window_count(words(s).len() as int, size),
    ensures
        fixed_windows(words(s), size).len() == window_count(words(s).len() as int, size),
        words(fixed_windows(words(s), size)[i]) == window(words(s), size, i),
        window(words(s), size, i).len() == if (i + 1) * size <= words(s).len() {
            size
        } else {
            words(s).len() - i * size
        },
        0 < window(words(s), size, i).len() <= size,
        fixed_windows(words(s), size)[i].len() > 0,
{
    let ws = words(s);
    let n = ws.len() as int;
    let c = window_count(n, size);
    assert(c * size <= n + size - 1 < c * size + size) by (nonlinear_arith)
        requires
            size > 0,
            n > 0,
            c == (n + size - 1) / size,
    ;
    assert(i * size < n && (i + 1) * size == i * size + size && 0 <= i * size) by (nonlinear_arith)
        requires
            size > 0,
            0 <= i < c,
            c * size <= n + size - 1,
    ;
    lemma_words_are_words(s);
    let w = window(ws, size, i);
    assert forall|k: int| 0 <= k < w.len() implies is_word(#[trigger] w[k]) by {
        assert(w[k] == ws[i * size + k]);
    }
    lemma_words_of_join(w);
    assert(is_word(w[w.len() - 1]));
    lemma_join_covers_last(w, seq![' ']);
}

/// No candidate is empty, whatever the strategy.
pub proof fn lemma_candidates_nonempty(strategy: Strategy, s: Seq<char>, i: int)
    requires
        strategy.refusal(s) is None,
        0 <= i < strategy.candidates(s).len(),
    ensures
        strategy.candidates(s)[i].len() > 0,
{
    match strategy {
        Strategy::Paragraphs => {
            lemma_paragraphs_nonempty(lines(s));
        },
        Strategy::FixedWindow { size } => {
            lemma_fixed_window_words(s, size as int, i);
        },
        Strategy::SimilarityMerged { scores } => {
            let paras = paragraphs(s);
            lemma_paragraphs_nonempty(lines(s));
            lemma_merged_starts_with_paragraph(
                paras,
                score_rows(scores@)[i],
                i,
                paras.len() as int,
            );
        },
    }
}


/// Extends each of the given paragraphs by the later ones that are similar
/// to it, as [`Strategy::SimilarityMerged`] does for the paragraphs of a
/// text.  Similarities that do not form a table with one row and one column
/// for each paragraph are refused.
pub fn merge_paragraphs(paragraphs: &Vec<String>, scores: &Vec<Vec<Score>>) -> (r: Result<
    Vec<String>,
    SegmentError,
>)
    ensures
        r is Ok <==> is_square(score_rows(scores@), paragraphs.len() as int),
        r matches Ok(v) ==> texts(v@) == merged(texts(paragraphs@), score_rows(scores@)),
        r matches Err(e) ==> e == SegmentError::ScoreShape,
{
    if !square(scores, paragraphs.len()) {
        return Err(SegmentError::ScoreShape);
    }
    let paras = chars_of_each(paragraphs);
    assert(paras.len() == rows(paras@).len() && paragraphs.len() == texts(paragraphs@).len());
    let pieces = merge(&paras, scores);
    Ok(strings_of(&pieces))
}

/// A merged candidate is decided by the similarities of its paragraph to
/// the later ones: tables that agree on them give the same candidate.
pub proof fn lemma_merged_reads_later_scores(
    paras: Seq<Seq<char>>,
    a: Seq<Score>,
    b: Seq<Score>,
    i: int,
    upto: int,
)
    requires
        forall|j: int| i < j < upto ==> is_similar(#[trigger] a[j]) == is_similar(#[trigger] b[j]),
    ensures
        merged_upto(paras, a, i, upto) == merged_upto(paras, b, i, upto),
    decreases upto - i,
{
    if upto > i + 1 {
        lemma_merged_reads_later_scores(paras, a, b, i, upto - 1);
        assert(is_similar(a[upto - 1]) == is_similar(b[upto - 1]));
    }
}

} // verus!
