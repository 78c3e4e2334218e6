//! Characters, words and lines.

use vstd::prelude::*;

verus! {

broadcast use vstd::string::group_string_axioms;

/// What is taken on trust of `String::push` of the standard library: after
/// the call the string holds the characters that it held before, followed by
/// `ch`, and nothing else.
pub assume_specification[ String::push ](s: &mut String, ch: char)
    ensures
        final(s)@ == old(s)@.push(ch),
;

/// The characters of a string slice, in order.
pub fn chars_of(s: &str) -> (v: Vec<char>)
    ensures
        v@ == s@,
{
    let mut v: Vec<char> = Vec::new();
    for c in it: s.chars()
        invariant
            it.seq() == s@,
            v@ == it.seq().take(it.index() as int),
    {
        v.push(c);
        assert(it.seq().take(it.index() + 1) == it.seq().take(it.index() as int).push(c));
    }
    v
}

/// The string made of the given characters.
pub fn string_of(chars: &Vec<char>) -> (s: String)
    ensures
        s@ == chars@,
{
    let mut s = String::new();
    let mut i: usize = 0;
    while i < chars.len()
        invariant
            i <= chars.len(),
            s@ == chars@.take(i as int),
        decreases chars.len() - i,
    {
        s.push(chars[i]);
        i += 1;
        assert(chars@.take(i as int) == chars@.take(i - 1).push(chars@[i - 1]));
    }
    assert(chars@.take(chars.len() as int) == chars@);
    s
}

/// Whether a character is white space: the code points with the Unicode
/// property `White_Space`.
pub open spec fn is_space(c: char) -> bool {
    let u = c as u32;
    ||| 0x09 <= u <= 0x0D
    ||| u == 0x20
    ||| u == 0x85
    ||| u == 0xA0
    ||| u == 0x1680
    ||| 0x2000 <= u <= 0x200A
    ||| u == 0x2028
    ||| u == 0x2029
    ||| u == 0x202F
    ||| u == 0x205F
    ||| u == 0x3000
}

/// Decides [`is_space`].
pub fn is_whitespace(c: char) -> (r: bool)
    ensures
        r == is_space(c),
{
    let u: u32 = c as u32;
    (0x09 <= u && u <= 0x0D) || u == 0x20 || u == 0x85 || u == 0xA0 || u == 0x1680 || (0x2000 <= u
        && u <= 0x200A) || u == 0x2028 || u == 0x2029 || u == 0x202F || u == 0x205F || u == 0x3000
}

/// The views of a vector of character vectors.
pub open spec fn rows(v: Seq<Vec<char>>) -> Seq<Seq<char>> {
    Seq::new(v.len(), |i: int| v[i]@)
}

/// The views of a vector of strings.
pub open spec fn texts(v: Seq<String>) -> Seq<Seq<char>> {
    Seq::new(v.len(), |i: int| v[i]@)
}

/// The words of a text: its maximal runs of characters that are not white
/// space, in order.  Read from left to right, a white-space character adds
/// nothing, a character that follows a character of a word extends that
/// word, and any other character starts a word.
pub open spec fn words(s: Seq<char>) -> Seq<Seq<char>>
    decreases s.len(),
{
    if s.len() == 0 {
        Seq::empty()
    } else {
        let before = words(s.drop_last());
        let c = s.last();
        if is_space(c) {
            before
        } else if s.len() >= 2 && !is_space(s[s.len() - 2]) {
            before.drop_last().push(before.last().push(c))
        } else {
            before.push(seq![c])
        }
    }
}

/// Whether `w` can be a word: it is not empty and holds no white space.
pub open spec fn is_word(w: Seq<char>) -> bool {
    w.len() > 0 && forall|j: int| 0 <= j < w.len() ==> !is_space(#[trigger] w[j])
}

/// Every word of a text is a word, and a text that ends in a character of
/// a word has that character at the end of its last word.
pub proof fn lemma_words_are_words(s: Seq<char>)
    ensures
        forall|i: int| 0 <= i < words(s).len() ==> is_word(#[trigger] words(s)[i]),
        s.len() > 0 && !is_space(s.last()) ==> words(s).len() > 0 && words(s).last().last()
            == s.last(),
    decreases s.len(),
{
    if s.len() > 0 {
        let before = words(s.drop_last());
        lemma_words_are_words(s.drop_last());
        let c = s.last();
        if is_space(c) {
        } else if s.len() >= 2 && !is_space(s[s.len() - 2]) {
            assert(s.drop_last().last() == s[s.len() - 2]);
            let grown = before.last().push(c);
            assert(is_word(before.last()));
            assert(is_word(grown)) by {
                assert forall|j: int| 0 <= j < grown.len() implies !is_space(
                    #[trigger] grown[j],
                ) by {
                    if j < before.last().len() {
                        assert(grown[j] == before.last()[j]);
                    }
                }
            }
            assert forall|i: int| 0 <= i < words(s).len() implies is_word(
                #[trigger] words(s)[i],
            ) by {
                if i < before.len() - 1 {
                    assert(words(s)[i] == before[i]);
                }
            }
        } else {
            assert(is_word(seq![c]));
            assert forall|i: int| 0 <= i < words(s).len() implies is_word(
                #[trigger] words(s)[i],
            ) by {
                if i < before.len() {
                    assert(words(s)[i] == before[i]);
                }
            }
        }
    }
}

/// The parts written one after another.
pub open spec fn concat(parts: Seq<Seq<char>>) -> Seq<char>
    decreases parts.len(),
{
    if parts.len() == 0 {
        Seq::empty()
    } else {
        concat(parts.drop_last()) + parts.last()
    }
}

/// The text without its white space.
pub open spec fn without_spaces(s: Seq<char>) -> Seq<char>
    decreases s.len(),
{
    if s.len() == 0 {
        Seq::empty()
    } else if is_space(s.last()) {
        without_spaces(s.drop_last())
    } else {
        without_spaces(s.drop_last()).push(s.last())
    }
}

/// Splitting into words loses no character but white space and moves
/// none: the words, written one after another, are the text without its
/// white space.
pub proof fn lemma_words_keep_characters(s: Seq<char>)
    ensures
        concat(words(s)) == without_spaces(s),
    decreases s.len(),
{
    if s.len() > 0 {
        let before = words(s.drop_last());
        let c = s.last();
        lemma_words_keep_characters(s.drop_last());
        lemma_words_are_words(s.drop_last());
        if is_space(c) {
        } else if s.len() >= 2 && !is_space(s[s.len() - 2]) {
            assert(s.drop_last().last() == s[s.len() - 2]);
            let grown = before.drop_last().push(before.last().push(c));
            assert(grown.drop_last() == before.drop_last());
            assert(concat(before.drop_last()) + before.last().push(c) == (concat(
                before.drop_last(),
            ) + before.last()).push(c));
        } else {
            assert(before.push(seq![c]).drop_last() == before);
            assert(concat(before) + seq![c] == concat(before).push(c));
        }
    }
}

/// The parts written one after another with `sep` between neighbours.
pub open spec fn join(parts: Seq<Seq<char>>, sep: Seq<char>) -> Seq<char>
    decreases parts.len(),
{
    if parts.len() == 0 {
        Seq::empty()
    } else if parts.len() == 1 {
        parts[0]
    } else {
        join(parts.drop_last(), sep) + sep + parts.last()
    }
}

/// Splits a text into its words.
pub fn split_words(chars: &Vec<char>) -> (out: Vec<Vec<char>>)
    ensures
        rows(out@) == words(chars@),
{
    let mut out: Vec<Vec<char>> = Vec::new();
    let mut cur: Vec<char> = Vec::new();
    let mut i: usize = 0;
    assert(chars@.take(0) =~= Seq::<char>::empty());
    while i < chars.len()
        invariant
            i <= chars.len(),
            cur.len() > 0 <==> (i > 0 && !is_space(chars@[i - 1])),
            cur.len() > 0 ==> rows(out@).push(cur@) == words(chars@.take(i as int)),
            cur.len() == 0 ==> rows(out@) == words(chars@.take(i as int)),
        decreases chars.len() - i,
    {
        let c = chars[i];
        let ghost prefix = chars@.take(i as int);
        let ghost next = chars@.take(i + 1);
        assert(next.drop_last() == prefix);
        assert(next.last() == c);
        assert(i > 0 ==> next[next.len() - 2] == chars@[i - 1]);
        if is_whitespace(c) {
            if cur.len() > 0 {
                let ghost done = rows(out@);
                out.push(cur);
                assert(rows(out@) == done.push(cur@));
                cur = Vec::new();
            }
        } else {
            let ghost old_cur = cur@;
            cur.push(c);
            proof {
                if old_cur.len() > 0 {
                    assert(rows(out@).push(old_cur).drop_last() == rows(out@));
                } else {
                    assert(cur@ == seq![c]);
                }
            }
        }
        i += 1;
    }
    assert(chars@.take(chars.len() as int) == chars@);
    if cur.len() > 0 {
        let ghost done = rows(out@);
        out.push(cur);
        assert(rows(out@) == done.push(cur@));
    }
    out
}

/// Joins the parts `from..to` of `parts` with `sep` between neighbours.
pub(crate) fn join_range(
    parts: &Vec<Vec<char>>,
    from: usize,
    to: usize,
    sep: &Vec<char>,
) -> (out: Vec<char>)
    requires
        from <= to <= parts.len(),
    ensures
        out@ == join(rows(parts@).subrange(from as int, to as int), sep@),
{
    let mut out: Vec<char> = Vec::new();
    let mut i: usize = from;
    let ghost all = rows(parts@);
    assert(all.subrange(from as int, from as int) =~= Seq::<Seq<char>>::empty());
    while i < to
        invariant
            from <= i <= to <= parts.len(),
            all == rows(parts@),
            out@ == join(all.subrange(from as int, i as int), sep@),
        decreases to - i,
    {
        let ghost before = all.subrange(from as int, i as int);
        let ghost after = all.subrange(from as int, i + 1);
        assert(after.drop_last() == before);
        assert(after.last() == parts@[i as int]@);
        if i > from {
            append_chars(&mut out, sep);
        } else {
            assert(after.len() == 1);
            assert(after[0] == parts@[i as int]@);
        }
        append_chars(&mut out, &parts[i]);
        i += 1;
    }
    out
}

/// Appends a copy of `tail` to `out`.
pub(crate) fn append_chars(out: &mut Vec<char>, tail: &Vec<char>)
    ensures
        final(out)@ == old(out)@ + tail@,
{
    let mut j: usize = 0;
    while j < tail.len()
        invariant
            j <= tail.len(),
            out@ == old(out)@ + tail@.take(j as int),
        decreases tail.len() - j,
    {
        out.push(tail[j]);
        j += 1;
        assert(tail@.take(j as int) == tail@.take(j - 1).push(tail@[j - 1]));
    }
    assert(tail@.take(tail.len() as int) == tail@);
}

/// The lines of a text: the pieces between line feeds.  A text with `n`
/// line feeds has `n + 1` lines, some of which may be empty.
pub open spec fn lines(s: Seq<char>) -> Seq<Seq<char>>
    decreases s.len(),
{
    if s.len() == 0 {
        seq![Seq::empty()]
    } else {
        let before = lines(s.drop_last());
        let c = s.last();
        if c == '\n' {
            before.push(Seq::empty())
        } else {
            before.drop_last().push(before.last().push(c))
        }
    }
}

/// Whether a line is blank: it holds nothing but white space.
pub open spec fn is_blank(line: Seq<char>) -> bool {
    forall|j: int| 0 <= j < line.len() ==> is_space(#[trigger] line[j])
}

/// Splits a text into its lines.
pub fn split_lines(chars: &Vec<char>) -> (out: Vec<Vec<char>>)
    ensures
        rows(out@) == lines(chars@),
{
    let mut out: Vec<Vec<char>> = Vec::new();
    let mut cur: Vec<char> = Vec::new();
    let mut i: usize = 0;
    assert(chars@.take(0) =~= Seq::<char>::empty());
    assert(rows(out@).push(cur@) == seq![Seq::<char>::empty()]);
    while i < chars.len()
        invariant
            i <= chars.len(),
            rows(out@).push(cur@) == lines(chars@.take(i as int)),
        decreases chars.len() - i,
    {
        let c = chars[i];
        let ghost done = rows(out@);
        let ghost old_cur = cur@;
        proof {
            let next = chars@.take(i + 1);
            assert(next.drop_last() == chars@.take(i as int));
            assert(next.last() == c);
            assert(done.push(old_cur).drop_last() == done);
        }
        if c == '\n' {
            out.push(cur);
            assert(rows(out@) == done.push(old_cur));
            cur = Vec::new();
        } else {
            cur.push(c);
        }
        i += 1;
    }
    assert(chars@.take(chars.len() as int) == chars@);
    let ghost done = rows(out@);
    out.push(cur);
    assert(rows(out@) == done.push(cur@));
    out
}

/// Decides [`is_blank`].
pub fn blank(line: &Vec<char>) -> (r: bool)
    ensures
        r == is_blank(line@),
{
    let mut j: usize = 0;
    while j < line.len()
        invariant
            j <= line.len(),
            forall|k: int| 0 <= k < j ==> is_space(#[trigger] line@[k]),
        decreases line.len() - j,
    {
        if !is_whitespace(line[j]) {
            return false;
        }
        j += 1;
    }
    true
}

/// One string for each vector of characters.
pub(crate) fn strings_of(parts: &Vec<Vec<char>>) -> (out: Vec<String>)
    ensures
        texts(out@) == rows(parts@),
{
    let mut out: Vec<String> = Vec::new();
    let mut i: usize = 0;
    while i < parts.len()
        invariant
            i <= parts.len(),
            texts(out@) == rows(parts@).take(i as int),
        decreases parts.len() - i,
    {
        let ghost done = texts(out@);
        let s = string_of(&parts[i]);
        out.push(s);
        assert(texts(out@) == done.push(s@));
        i += 1;
    }
    assert(rows(parts@).take(parts.len() as int) == rows(parts@));
    out
}

/// A word written after a text that ends in white space, or after nothing,
/// is one more word of the text.
pub proof fn lemma_words_append_word(a: Seq<char>, w: Seq<char>)
    requires
        a.len() == 0 || is_space(a.last()),
        is_word(w),
    ensures
        words(a + w) == words(a).push(w),
    decreases w.len(),
{
    let s = a + w;
    let c = w.last();
    assert(s.last() == c);
    assert(!is_space(w[w.len() - 1]));
    assert(s.drop_last() == a + w.drop_last());
    if w.len() == 1 {
        assert(a + w.drop_last() == a);
        assert(w == seq![c]);
        if s.len() >= 2 {
            assert(s[s.len() - 2] == a.last());
        }
    } else {
        let init = w.drop_last();
        assert(is_word(init)) by {
            assert forall|j: int| 0 <= j < init.len() implies !is_space(#[trigger] init[j]) by {
                assert(init[j] == w[j]);
            }
        }
        lemma_words_append_word(a, init);
        let before = words(a).push(init);
        assert(s[s.len() - 2] == w[w.len() - 2]);
        assert(before.drop_last() == words(a));
        assert(init.push(c) == w);
    }
}

/// Splitting what was joined by single spaces gives the words back.
pub proof fn lemma_words_of_join(ws: Seq<Seq<char>>)
    requires
        forall|i: int| 0 <= i < ws.len() ==> is_word(#[trigger] ws[i]),
    ensures
        words(join(ws, seq![' '])) == ws,
    decreases ws.len(),
{
    if ws.len() == 0 {
    } else if ws.len() == 1 {
        lemma_words_append_word(Seq::empty(), ws[0]);
        assert(Seq::<char>::empty() + ws[0] == ws[0]);
        assert(Seq::<Seq<char>>::empty().push(ws[0]) == ws);
    } else {
        let init = ws.drop_last();
        lemma_words_of_join(init);
        let a = join(init, seq![' ']) + seq![' '];
        assert(a.last() == ' ');
        assert(a.drop_last() == join(init, seq![' ']));
        assert(words(a) == init);
        lemma_words_append_word(a, ws.last());
        assert(init.push(ws.last()) == ws);
    }
}

/// What is joined is at least as long as its last part.
pub proof fn lemma_join_covers_last(parts: Seq<Seq<char>>, sep: Seq<char>)
    requires
        parts.len() > 0,
    ensures
        join(parts, sep).len() >= parts.last().len(),
{
}

/// The characters of each string.
pub(crate) fn chars_of_each(parts: &Vec<String>) -> (out: Vec<Vec<char>>)
    ensures
        rows(out@) == texts(parts@),
{
    let mut out: Vec<Vec<char>> = Vec::new();
    let mut i: usize = 0;
    while i < parts.len()
        invariant
            i <= parts.len(),
            rows(out@) == texts(parts@).take(i as int),
        decreases parts.len() - i,
    {
        let ghost done = rows(out@);
        let chars = chars_of(parts[i].as_str());
        out.push(chars);
        assert(rows(out@) == done.push(chars@));
        i += 1;
    }
    assert(texts(parts@).take(parts.len() as int) == texts(parts@));
    out
}

/// A copy of each string.
pub(crate) fn copy_strings(parts: &Vec<String>) -> (out: Vec<String>)
    ensures
        texts(out@) == texts(parts@),
{
    let mut out: Vec<String> = Vec::new();
    let mut i: usize = 0;
    while i < parts.len()
        invariant
            i <= parts.len(),
            texts(out@) == texts(parts@).take(i as int),
        decreases parts.len() - i,
    {
        let ghost done = texts(out@);
        let s = parts[i].clone();
        out.push(s);
        assert(texts(out@) == done.push(s@));
        i += 1;
    }
    assert(texts(parts@).take(parts.len() as int) == texts(parts@));
    out
}

} // verus!
