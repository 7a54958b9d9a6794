//! Splitting text: a document into lines, a line into tokens, and a token
//! into fields.

use vstd::prelude::*;
use vstd::slice::slice_subrange;

verus! {

/// Whether `c` is whitespace: a character with the Unicode property
/// `White_Space`.
pub open spec fn is_space(c: char) -> bool {
    ||| '\u{9}' <= c <= '\u{d}'
    ||| c == ' '
    ||| c == '\u{85}'
    ||| c == '\u{a0}'
    ||| c == '\u{1680}'
    ||| '\u{2000}' <= c <= '\u{200a}'
    ||| c == '\u{2028}'
    ||| c == '\u{2029}'
    ||| c == '\u{202f}'
    ||| c == '\u{205f}'
    ||| c == '\u{3000}'
}

/// Whether every character of `s` is whitespace. This holds of the empty
/// sequence.
pub open spec fn is_blank(s: Seq<char>) -> bool {
    forall|k: int| 0 <= k < s.len() ==> is_space(#[trigger] s[k])
}

/// Whether `s` is a word: one character or more, none of them whitespace.
pub open spec fn is_word(s: Seq<char>) -> bool {
    &&& s.len() > 0
    &&& forall|k: int| 0 <= k < s.len() ==> !is_space(#[trigger] s[k])
}

/// The first position at or after `i` that holds the character `mark`, or
/// the length of `s` if there is none.
pub open spec fn mark_at(s: Seq<char>, mark: char, i: int) -> int
    decreases s.len() - i,
{
    if 0 <= i < s.len() && s[i] != mark {
        mark_at(s, mark, i + 1)
    } else {
        i
    }
}

/// The pieces of `s` from position `i` on, where a piece starts at `i`.
pub open spec fn pieces_from(s: Seq<char>, mark: char, i: int) -> Seq<Seq<char>>
    decreases s.len() - i,
    via pieces_from_terminates
{
    if 0 <= i <= s.len() {
        let end = mark_at(s, mark, i);
        seq![s.subrange(i, end)] + if end < s.len() {
            pieces_from(s, mark, end + 1)
        } else {
            Seq::empty()
        }
    } else {
        Seq::empty()
    }
}

#[via_fn]
proof fn pieces_from_terminates(s: Seq<char>, mark: char, i: int) {
    if 0 <= i <= s.len() {
        lemma_mark_at(s, mark, i);
    }
}

/// The pieces into which the character `mark` cuts `s`: what stands before
/// its first occurrence, between two occurrences, and after the last. There
/// is one piece more than there are occurrences, and a piece may be empty.
pub open spec fn pieces_of(s: Seq<char>, mark: char) -> Seq<Seq<char>> {
    pieces_from(s, mark, 0)
}

/// The lines of a document: the pieces into which its line feeds cut it,
/// but for the last piece where that is empty. So a line feed at the very
/// end of the document starts no further line, and the empty document has no
/// line. A carriage return stays in its line, where it is whitespace.
pub open spec fn lines_of(s: Seq<char>) -> Seq<Seq<char>> {
    let pieces = pieces_of(s, '\n');
    if pieces.last().len() == 0 {
        pieces.drop_last()
    } else {
        pieces
    }
}

/// The first position at or after `i` that holds no whitespace, or the length
/// of `s` if there is none.
pub open spec fn token_start(s: Seq<char>, i: int) -> int
    decreases s.len() - i,
{
    if 0 <= i < s.len() && is_space(s[i]) {
        token_start(s, i + 1)
    } else {
        i
    }
}

/// The first position at or after `i` that holds whitespace, or the length of
/// `s` if there is none.
pub open spec fn token_end(s: Seq<char>, i: int) -> int
    decreases s.len() - i,
{
    if 0 <= i < s.len() && !is_space(s[i]) {
        token_end(s, i + 1)
    } else {
        i
    }
}

/// The tokens of `s` that start at or after position `i`.
pub open spec fn tokens_from(s: Seq<char>, i: int) -> Seq<Seq<char>>
    decreases s.len() - i,
    via tokens_from_terminates
{
    let a = token_start(s, i);
    if 0 <= i && a < s.len() {
        let b = token_end(s, a);
        seq![s.subrange(a, b)] + tokens_from(s, b)
    } else {
        Seq::empty()
    }
}

#[via_fn]
proof fn tokens_from_terminates(s: Seq<char>, i: int) {
    let a = token_start(s, i);
    if 0 <= i && a < s.len() {
        lemma_token_start(s, i);
        lemma_token_end(s, a);
    }
}

/// The tokens of a line: its maximal runs of characters that are not
/// whitespace, from left to right.
pub open spec fn tokens_of(s: Seq<char>) -> Seq<Seq<char>> {
    tokens_from(s, 0)
}

/// Whether joining `a` and `b` glues no two tokens together: one of them is
/// empty, or there is whitespace where they meet.
pub open spec fn is_separated(a: Seq<char>, b: Seq<char>) -> bool {
    a.len() == 0 || b.len() == 0 || is_space(a.last()) || is_space(b[0])
}

/// The character sequences that a vector of slices stands for.
pub open spec fn texts(parts: Seq<&[char]>) -> Seq<Seq<char>> {
    Seq::new(parts.len(), |k: int| parts[k]@)
}

/// `mark_at` stays within the sequence and stops at the first mark.
pub proof fn lemma_mark_at(s: Seq<char>, mark: char, i: int)
    requires
        0 <= i <= s.len(),
    ensures
        i <= mark_at(s, mark, i) <= s.len(),
        mark_at(s, mark, i) < s.len() ==> s[mark_at(s, mark, i)] == mark,
        forall|j: int| i <= j < mark_at(s, mark, i) ==> s[j] != mark,
    decreases s.len() - i,
{
    if i < s.len() && s[i] != mark {
        lemma_mark_at(s, mark, i + 1);
    }
}

/// There is at least one piece, and no piece holds the mark.
pub proof fn lemma_pieces(s: Seq<char>, mark: char, i: int)
    requires
        0 <= i <= s.len(),
    ensures
        pieces_from(s, mark, i).len() >= 1,
        forall|k: int, j: int|
            0 <= k < pieces_from(s, mark, i).len() && 0 <= j < pieces_from(s, mark, i)[k].len()
                ==> #[trigger] pieces_from(s, mark, i)[k][j] != mark,
    decreases s.len() - i,
{
    let end = mark_at(s, mark, i);
    lemma_mark_at(s, mark, i);
    let rest = if end < s.len() {
        lemma_pieces(s, mark, end + 1);
        pieces_from(s, mark, end + 1)
    } else {
        Seq::empty()
    };
    let pieces = pieces_from(s, mark, i);
    assert forall|k: int, j: int|
        0 <= k < pieces.len() && 0 <= j < pieces[k].len() implies #[trigger] pieces[k][j]
        != mark by {
        if k > 0 {
            assert(pieces[k] == rest[k - 1]);
        }
    }
}

/// Behind a front of any characters, the next mark is where it is without
/// the front, moved by the length of the front.
pub proof fn lemma_mark_behind(front: Seq<char>, s: Seq<char>, mark: char, i: int)
    requires
        0 <= i <= s.len(),
    ensures
        mark_at(front + s, mark, front.len() + i) == front.len() + mark_at(s, mark, i),
    decreases s.len() - i,
{
    if i < s.len() {
        assert((front + s)[front.len() + i] == s[i]);
        lemma_mark_behind(front, s, mark, i + 1);
    }
}

/// Before a tail of any characters, the next mark is where it is without
/// the tail, if there is one.
pub proof fn lemma_mark_before(s: Seq<char>, tail: Seq<char>, mark: char, i: int)
    requires
        0 <= i <= s.len(),
        mark_at(s, mark, i) < s.len(),
    ensures
        mark_at(s + tail, mark, i) == mark_at(s, mark, i),
    decreases s.len() - i,
{
    assert((s + tail)[i] == s[i]);
    if s[i] != mark {
        lemma_mark_before(s, tail, mark, i + 1);
    }
}

/// Behind a front of any characters, the pieces from a position on are
/// those without the front.
pub proof fn lemma_pieces_behind(front: Seq<char>, s: Seq<char>, mark: char, i: int)
    requires
        0 <= i <= s.len(),
    ensures
        pieces_from(front + s, mark, front.len() + i) == pieces_from(s, mark, i),
    decreases s.len() - i,
{
    let end = mark_at(s, mark, i);
    lemma_mark_behind(front, s, mark, i);
    lemma_mark_at(s, mark, i);
    if end < s.len() {
        lemma_pieces_behind(front, s, mark, end + 1);
    }
    assert((front + s).subrange(front.len() + i, front.len() + end) =~= s.subrange(i, end));
}

/// The first piece reaches to the first mark, and the other pieces are
/// those of what follows the mark.
pub proof fn lemma_first_piece(head: Seq<char>, mark: char, rest: Seq<char>)
    requires
        forall|k: int| 0 <= k < head.len() ==> head[k] != mark,
    ensures
        pieces_of(head + seq![mark] + rest, mark) == seq![head] + pieces_of(rest, mark),
{
    let front = head + seq![mark];
    let all = front + rest;
    lemma_mark_at(front, mark, 0);
    assert(mark_at(front, mark, 0) == head.len()) by {
        if mark_at(front, mark, 0) < head.len() {
            assert(front[mark_at(front, mark, 0)] == head[mark_at(front, mark, 0)]);
        }
        assert(front[head.len() as int] == mark);
    }
    lemma_mark_before(front, rest, mark, 0);
    assert(all.subrange(0, head.len() as int) =~= head);
    lemma_pieces_behind(front, rest, mark, 0);
}

/// Text without a mark is one piece.
pub proof fn lemma_only_piece(s: Seq<char>, mark: char)
    requires
        forall|k: int| 0 <= k < s.len() ==> s[k] != mark,
    ensures
        pieces_of(s, mark) == seq![s],
{
    lemma_mark_at(s, mark, 0);
    assert(s.subrange(0, s.len() as int) =~= s);
    assert(seq![s] + Seq::<Seq<char>>::empty() =~= seq![s]);
}

/// No line holds a line feed.
pub proof fn lemma_lines_hold_no_line_feed(s: Seq<char>)
    ensures
        forall|k: int, j: int|
            0 <= k < lines_of(s).len() && 0 <= j < lines_of(s)[k].len() ==> #[trigger] lines_of(
                s,
            )[k][j] != '\n',
{
    lemma_pieces(s, '\n', 0);
}

/// The first line of a document reaches to its first line feed, and the
/// other lines are those of what follows the line feed.
pub proof fn lemma_first_line(line: Seq<char>, rest: Seq<char>)
    requires
        forall|k: int| 0 <= k < line.len() ==> line[k] != '\n',
    ensures
        lines_of(line + seq!['\n'] + rest) == seq![line] + lines_of(rest),
{
    let pieces = pieces_of(rest, '\n');
    lemma_first_piece(line, '\n', rest);
    lemma_pieces(rest, '\n', 0);
    assert((seq![line] + pieces).last() == pieces.last());
    assert((seq![line] + pieces).drop_last() =~= seq![line] + pieces.drop_last());
}

/// A document without a line feed is one line, or none if it is empty.
pub proof fn lemma_only_line(line: Seq<char>)
    requires
        forall|k: int| 0 <= k < line.len() ==> line[k] != '\n',
    ensures
        lines_of(line) == if line.len() > 0 {
            seq![line]
        } else {
            Seq::<Seq<char>>::empty()
        },
{
    lemma_only_piece(line, '\n');
    assert(seq![line].drop_last() =~= Seq::<Seq<char>>::empty());
}

/// `token_start` stays within the sequence and stops at a character that is
/// not whitespace.
pub proof fn lemma_token_start(s: Seq<char>, i: int)
    requires
        0 <= i <= s.len(),
    ensures
        i <= token_start(s, i) <= s.len(),
        token_start(s, i) < s.len() ==> !is_space(s[token_start(s, i)]),
        forall|j: int| i <= j < token_start(s, i) ==> is_space(s[j]),
    decreases s.len() - i,
{
    if i < s.len() && is_space(s[i]) {
        lemma_token_start(s, i + 1);
    }
}

/// `token_end` stays within the sequence, stops at whitespace, and passes at
/// least one character where it starts on one that is not whitespace.
pub proof fn lemma_token_end(s: Seq<char>, i: int)
    requires
        0 <= i <= s.len(),
    ensures
        i <= token_end(s, i) <= s.len(),
        i < s.len() && !is_space(s[i]) ==> i < token_end(s, i),
        token_end(s, i) < s.len() ==> is_space(s[token_end(s, i)]),
        forall|j: int| i <= j < token_end(s, i) ==> !is_space(s[j]),
    decreases s.len() - i,
{
    if i < s.len() && !is_space(s[i]) {
        lemma_token_end(s, i + 1);
    }
}

/// Every token is a word.
pub proof fn lemma_tokens_are_words(s: Seq<char>, i: int)
    requires
        0 <= i <= s.len(),
    ensures
        forall|k: int|
            0 <= k < tokens_from(s, i).len() ==> is_word(#[trigger] tokens_from(s, i)[k]),
    decreases s.len() - i,
{
    let a = token_start(s, i);
    lemma_token_start(s, i);
    if a < s.len() {
        let b = token_end(s, a);
        lemma_token_end(s, a);
        lemma_tokens_are_words(s, b);
        let rest = tokens_from(s, b);
        assert(is_word(s.subrange(a, b)));
        assert forall|k: int| 0 <= k < tokens_from(s, i).len() implies is_word(
            #[trigger] tokens_from(s, i)[k],
        ) by {
            if k > 0 {
                assert(tokens_from(s, i)[k] == rest[k - 1]);
            }
        }
    }
}

/// A blank line has no token.
pub proof fn lemma_blank_line(s: Seq<char>)
    requires
        is_blank(s),
    ensures
        tokens_of(s) == Seq::<Seq<char>>::empty(),
{
    lemma_token_start(s, 0);
}

/// A word is its own and only token.
pub proof fn lemma_word_is_token(word: Seq<char>)
    requires
        is_word(word),
    ensures
        tokens_of(word) == seq![word],
{
    lemma_token_start(word, 0);
    lemma_token_end(word, 0);
    let end = token_end(word, 0);
    if end < word.len() {
        assert(is_space(word[end]));
    }
    assert(word.subrange(0, end) =~= word);
    assert(tokens_from(word, end) =~= Seq::<Seq<char>>::empty());
    assert(seq![word] + Seq::<Seq<char>>::empty() =~= seq![word]);
}

/// Behind a front of any characters, a token starts and ends where it does
/// without the front, moved by the length of the front.
pub proof fn lemma_scan_behind(front: Seq<char>, s: Seq<char>, i: int)
    requires
        0 <= i <= s.len(),
    ensures
        token_start(front + s, front.len() + i) == front.len() + token_start(s, i),
        token_end(front + s, front.len() + i) == front.len() + token_end(s, i),
    decreases s.len() - i,
{
    if i < s.len() {
        assert((front + s)[front.len() + i] == s[i]);
        lemma_scan_behind(front, s, i + 1);
    }
}

/// Before a tail of any characters, a scan that stops within the front
/// stops at the same place as without the tail, and one that reaches the
/// end of the front goes on from there.
pub proof fn lemma_scan_before(s: Seq<char>, tail: Seq<char>, i: int)
    requires
        0 <= i <= s.len(),
    ensures
        token_start(s + tail, i) == if token_start(s, i) < s.len() {
            token_start(s, i)
        } else {
            token_start(s + tail, s.len() as int)
        },
        token_end(s + tail, i) == if token_end(s, i) < s.len() {
            token_end(s, i)
        } else {
            token_end(s + tail, s.len() as int)
        },
    decreases s.len() - i,
{
    if i < s.len() {
        assert((s + tail)[i] == s[i]);
        lemma_scan_before(s, tail, i + 1);
    }
}

/// Behind a front of any characters, the tokens from a position on are
/// those without the front.
pub proof fn lemma_tokens_behind(front: Seq<char>, s: Seq<char>, i: int)
    requires
        0 <= i <= s.len(),
    ensures
        tokens_from(front + s, front.len() + i) == tokens_from(s, i),
    decreases s.len() - i,
{
    let a = token_start(s, i);
    lemma_scan_behind(front, s, i);
    lemma_token_start(s, i);
    if a < s.len() {
        let b = token_end(s, a);
        lemma_scan_behind(front, s, a);
        lemma_token_end(s, a);
        lemma_tokens_behind(front, s, b);
        assert((front + s).subrange(front.len() + a, front.len() + b) =~= s.subrange(a, b));
    }
}

/// The tokens of `a + b` from a position in `a` on are those of `a` from
/// there on, and then those of `b`, where the two are separated.
proof fn lemma_tokens_before(a: Seq<char>, b: Seq<char>, i: int)
    requires
        is_separated(a, b),
        0 <= i <= a.len(),
    ensures
        tokens_from(a + b, i) == tokens_from(a, i) + tokens_of(b),
    decreases a.len() - i,
{
    let ab = a + b;
    let n = a.len() as int;
    let start = token_start(a, i);
    lemma_token_start(a, i);
    lemma_scan_before(a, b, i);
    lemma_tokens_behind(a, b, 0);
    if start < n {
        let end = token_end(a, start);
        lemma_token_end(a, start);
        lemma_scan_before(a, b, start);
        let token = a.subrange(start, end);
        if end < n {
            lemma_tokens_before(a, b, end);
            assert(ab.subrange(start, end) =~= token);
            assert(seq![token] + (tokens_from(a, end) + tokens_of(b)) =~= seq![token]
                + tokens_from(a, end) + tokens_of(b));
        } else {
            assert(!is_space(a[n - 1]));
            lemma_scan_behind(a, b, 0);
            assert(token_end(b, 0) == 0);
            assert(ab.subrange(start, n) =~= token);
            assert(tokens_from(a, n) =~= Seq::<Seq<char>>::empty());
            assert(seq![token] + tokens_of(b) =~= seq![token] + Seq::<Seq<char>>::empty()
                + tokens_of(b));
        }
    } else {
        assert(tokens_from(ab, i) == tokens_from(ab, n));
        assert(Seq::<Seq<char>>::empty() + tokens_of(b) =~= tokens_of(b));
    }
}

/// Where whitespace separates them, or one of them is empty, the tokens of
/// two joined pieces of text are the tokens of the first and then those of
/// the second.
pub proof fn lemma_tokens_concat(a: Seq<char>, b: Seq<char>)
    requires
        is_separated(a, b),
    ensures
        tokens_of(a + b) == tokens_of(a) + tokens_of(b),
{
    lemma_tokens_before(a, b, 0);
}

/// Whitespace at the start and at the end of a line is insignificant.
pub proof fn lemma_surrounding_space(before: Seq<char>, s: Seq<char>, after: Seq<char>)
    requires
        is_blank(before),
        is_blank(after),
    ensures
        tokens_of(before + s + after) == tokens_of(s),
{
    lemma_blank_line(before);
    lemma_blank_line(after);
    if before.len() > 0 {
        assert(is_space(before[before.len() - 1]));
    }
    if after.len() > 0 {
        assert(is_space(after[0]));
    }
    lemma_tokens_concat(before, s);
    lemma_tokens_concat(before + s, after);
    assert(Seq::<Seq<char>>::empty() + tokens_of(s) + Seq::<Seq<char>>::empty() =~= tokens_of(s));
}

/// The amount of whitespace between two pieces of text is insignificant, as
/// long as there is some.
pub proof fn lemma_space_between(a: Seq<char>, gap: Seq<char>, b: Seq<char>)
    requires
        is_blank(gap),
        gap.len() > 0,
    ensures
        tokens_of(a + gap + b) == tokens_of(a) + tokens_of(b),
{
    lemma_blank_line(gap);
    assert(is_space(gap[0]));
    assert(is_space(gap[gap.len() - 1]));
    lemma_tokens_concat(a, gap);
    assert((a + gap).last() == gap[gap.len() - 1]);
    lemma_tokens_concat(a + gap, b);
    assert(tokens_of(a) + Seq::<Seq<char>>::empty() =~= tokens_of(a));
}

/// Whether `c` is whitespace.
pub fn is_whitespace(c: char) -> (r: bool)
    ensures
        r == is_space(c),
{
    ('\u{9}' <= c && c <= '\u{d}') || c == ' ' || c == '\u{85}' || c == '\u{a0}' || c
        == '\u{1680}' || ('\u{2000}' <= c && c <= '\u{200a}') || c == '\u{2028}' || c
        == '\u{2029}' || c == '\u{202f}' || c == '\u{205f}' || c == '\u{3000}'
}

/// The characters of a string, in order.
pub fn chars_of(s: &str) -> (chars: Vec<char>)
    ensures
        chars@ == s@,
{
    let mut chars: Vec<char> = Vec::new();
    for c in it: s.chars()
        invariant
            chars@ == it.seq().take(it.index() as int),
    {
        chars.push(c);
    }
    chars
}

/// Appending a character to a string. The view of the string afterwards is
/// its view before with the character at the end, as the documentation of
/// `String::push` says.
pub assume_specification[ String::push ](s: &mut String, c: char)
    ensures
        final(s)@ == old(s)@.push(c),
;

/// The string that holds the characters of `chars`.
pub fn string_of(chars: &[char]) -> (s: String)
    ensures
        s@ == chars@,
{
    let mut s = String::new();
    let mut k: usize = 0;
    while k < chars.len()
        invariant
            k <= chars@.len(),
            s@ == chars@.take(k as int),
        decreases chars@.len() - k,
    {
        s.push(chars[k]);
        k += 1;
    }
    s
}

/// Cuts `s` at each occurrence of the character `mark`.
pub fn split<'a>(s: &'a [char], mark: char) -> (pieces: Vec<&'a [char]>)
    ensures
        texts(pieces@) == pieces_of(s@, mark),
        pieces@.len() >= 1,
{
    let mut pieces: Vec<&'a [char]> = Vec::new();
    let mut start: usize = 0;
    loop
        invariant_except_break
            start <= s@.len(),
            texts(pieces@) + pieces_from(s@, mark, start as int) == pieces_of(s@, mark),
        ensures
            texts(pieces@) == pieces_of(s@, mark),
            pieces@.len() >= 1,
        decreases s@.len() - start,
    {
        let mut end: usize = start;
        while end < s.len() && s[end] != mark
            invariant
                start <= end <= s@.len(),
                mark_at(s@, mark, end as int) == mark_at(s@, mark, start as int),
            decreases s@.len() - end,
        {
            end += 1;
        }
        let ghost done = pieces@;
        let ghost rest = if end < s@.len() {
            pieces_from(s@, mark, end + 1)
        } else {
            Seq::empty()
        };
        pieces.push(slice_subrange(s, start, end));
        proof {
            let piece = s@.subrange(start as int, end as int);
            assert(texts(pieces@) =~= texts(done) + seq![piece]);
            assert(texts(done) + (seq![piece] + rest) =~= texts(done) + seq![piece] + rest);
        }
        if end == s.len() {
            assert(texts(pieces@) + Seq::<Seq<char>>::empty() =~= texts(pieces@));
            break;
        }
        start = end + 1;
    }
    pieces
}

/// Splits a document into its lines.
pub fn split_lines<'a>(doc: &'a [char]) -> (lines: Vec<&'a [char]>)
    ensures
        texts(lines@) == lines_of(doc@),
{
    let mut lines = split(doc, '\n');
    let ghost pieces = lines@;
    assert(texts(pieces).last() == pieces.last()@);
    if lines[lines.len() - 1].len() == 0 {
        lines.pop();
        assert(texts(lines@) =~= texts(pieces).drop_last());
    }
    lines
}

/// Splits a line into its tokens.
pub fn tokenize<'a>(line: &'a [char]) -> (tokens: Vec<&'a [char]>)
    ensures
        texts(tokens@) == tokens_of(line@),
{
    let mut tokens: Vec<&'a [char]> = Vec::new();
    let mut i: usize = 0;
    loop
        invariant
            i <= line.len(),
            texts(tokens@) + tokens_from(line@, i as int) == tokens_of(line@),
        ensures
            texts(tokens@) == tokens_of(line@),
        decreases line.len() - i,
    {
        let mut a: usize = i;
        while a < line.len() && is_whitespace(line[a])
            invariant
                i <= a <= line.len(),
                token_start(line@, a as int) == token_start(line@, i as int),
            decreases line.len() - a,
        {
            a += 1;
        }
        if a >= line.len() {
            assert(texts(tokens@) + Seq::<Seq<char>>::empty() =~= texts(tokens@));
            break;
        }
        let mut b: usize = a + 1;
        while b < line.len() && !is_whitespace(line[b])
            invariant
                a < b <= line.len(),
                token_end(line@, b as int) == token_end(line@, a as int),
            decreases line.len() - b,
        {
            b += 1;
        }
        let ghost done = tokens@;
        let ghost rest = tokens_from(line@, b as int);
        tokens.push(slice_subrange(line, a, b));
        proof {
            let token = line@.subrange(a as int, b as int);
            assert(texts(tokens@) =~= texts(done) + seq![token]);
            assert(texts(done) + (seq![token] + rest) =~= texts(done) + seq![token] + rest);
        }
        i = b;
    }
    tokens
}

} // verus!
