//! The word splitter: words are runs of characters other than whitespace, or
//! the contents of a span between double quotes.

use crate::text::{chars_of, to_string, whitespace};
use vstd::prelude::*;

verus! {

/// What a quoted span gives: the word as it stands once the span is read, the
/// index after the span, and whether a quote closed it.
pub struct Span {
    pub word: Seq<char>,
    pub end: int,
    pub closed: bool,
}

/// Reads `s` from index `i`, inside a quoted span, onto `word`. A backslash
/// followed by a quote stands for itself, both characters kept; a quote alone
/// closes the span; the end of `s` leaves it open.
pub open spec fn quoted_from(s: Seq<char>, i: int, word: Seq<char>) -> Span
    decreases s.len() - i,
{
    if i < 0 || i >= s.len() {
        Span { word, end: i, closed: false }
    } else if s[i] == '\\' && i + 1 < s.len() && s[i + 1] == '"' {
        quoted_from(s, i + 2, word.push('\\').push('"'))
    } else if s[i] == '"' {
        Span { word, end: i + 1, closed: true }
    } else {
        quoted_from(s, i + 1, word.push(s[i]))
    }
}

/// The word that a buffer gives at the end of the input: none if it is empty.
pub open spec fn at_end(word: Seq<char>) -> Option<Seq<char>> {
    if word.len() == 0 {
        None
    } else {
        Some(word)
    }
}

/// Reads `s` from index `i` onto the buffer `word` and gives the next word,
/// if there is one, with the index at which the reading stopped.
///
/// Whitespace before any content is passed over, and whitespace after content
/// ends the word. A double quote opens a span that is read by `quoted_from`
/// onto what the buffer holds; the quote that closes the span ends the word,
/// even an empty one. Where the input ends, inside a span or outside, the
/// buffer is the word unless it is empty.
pub open spec fn word_from(s: Seq<char>, i: int, word: Seq<char>) -> (Option<Seq<char>>, int)
    decreases s.len() - i,
{
    if i < 0 || i >= s.len() {
        (at_end(word), i)
    } else if s[i] == '"' {
        let span = quoted_from(s, i + 1, word);
        if span.closed {
            (Some(span.word), span.end)
        } else {
            (at_end(span.word), span.end)
        }
    } else if whitespace(s[i]) {
        if word.len() == 0 {
            word_from(s, i + 1, word)
        } else {
            (Some(word), i + 1)
        }
    } else {
        word_from(s, i + 1, word.push(s[i]))
    }
}

/// The words of `s` from index `i` on.
pub open spec fn words_from(s: Seq<char>, i: int) -> Seq<Seq<char>>
    decreases s.len() - i,
{
    match word_from(s, i, Seq::empty()) {
        (Some(w), j) => {
            proof {
                lemma_word_advances(s, i, Seq::empty());
            }
            seq![w] + words_from(s, j)
        },
        (None, _) => Seq::empty(),
    }
}

/// The words of `s`.
pub open spec fn words(s: Seq<char>) -> Seq<Seq<char>> {
    words_from(s, 0)
}

/// A quoted span ends within the input, at or after the index it was read
/// from, and past it where a quote closed it.
pub proof fn lemma_span_bounds(s: Seq<char>, i: int, word: Seq<char>)
    requires
        0 <= i <= s.len(),
    ensures
        i <= quoted_from(s, i, word).end <= s.len(),
        quoted_from(s, i, word).closed ==> i < quoted_from(s, i, word).end,
        !quoted_from(s, i, word).closed ==> quoted_from(s, i, word).end == s.len(),
    decreases s.len() - i,
{
    if i >= s.len() {
    } else if s[i] == '\\' && i + 1 < s.len() && s[i + 1] == '"' {
        lemma_span_bounds(s, i + 2, word.push('\\').push('"'));
    } else if s[i] == '"' {
    } else {
        lemma_span_bounds(s, i + 1, word.push(s[i]));
    }
}

/// Reading a word stops within the input; where a word was found, or there
/// was input left, it stops past the index it started from; where none was
/// found, it stops at the end.
pub proof fn lemma_word_advances(s: Seq<char>, i: int, word: Seq<char>)
    ensures
        0 <= i < s.len() ==> i < word_from(s, i, word).1 <= s.len(),
        0 <= i <= s.len() && word_from(s, i, word).0 is None ==> word_from(s, i, word).1
            == s.len(),
        !(0 <= i < s.len()) ==> word_from(s, i, word).1 == i,
    decreases s.len() - i,
{
    if i < 0 || i >= s.len() {
    } else if s[i] == '"' {
        lemma_span_bounds(s, i + 1, word);
    } else if whitespace(s[i]) {
        if word.len() == 0 {
            lemma_word_advances(s, i + 1, word);
        }
    } else {
        lemma_word_advances(s, i + 1, word.push(s[i]));
    }
}

/// Whether no character of `s` is a double quote.
pub open spec fn quote_free(s: Seq<char>) -> bool {
    forall|k: int| 0 <= k < s.len() ==> s[k] != '"'
}

/// Inside a span, a run of characters without a quote is taken as it
/// stands, unless it ends in a backslash that a quote follows.
pub proof fn lemma_span_takes_run(s: Seq<char>, i: int, n: int, word: Seq<char>)
    requires
        0 <= i,
        0 <= n,
        i + n <= s.len(),
        forall|k: int| i <= k < i + n ==> s[k] != '"',
        n > 0 && s[i + n - 1] == '\\' ==> i + n >= s.len() || s[i + n] != '"',
    ensures
        quoted_from(s, i, word) == quoted_from(s, i + n, word + s.subrange(i, i + n)),
    decreases n,
{
    if n == 0 {
        assert(word + s.subrange(i, i) == word);
    } else {
        lemma_span_takes_run(s, i + 1, n - 1, word.push(s[i]));
        assert(word.push(s[i]) + s.subrange(i + 1, i + n) == word + s.subrange(i, i + n));
    }
}

/// A span between quotes is one word, without the quotes, and a quote
/// behind a backslash inside it is kept with its backslash: where `x` and
/// `y` hold no quote and `y` does not end in a backslash, the span around
/// `x`, backslash, quote, `y` gives that text as its word.
pub proof fn quoted_word_keeps_escape(x: Seq<char>, y: Seq<char>, rest: Seq<char>)
    requires
        quote_free(x),
        quote_free(y),
        y.len() > 0 ==> y.last() != '\\',
    ensures
        ({
            let body = x + seq!['\\', '"'] + y;
            word_from(seq!['"'] + body + seq!['"'] + rest, 0, Seq::empty()) == (
                Some(body),
                body.len() as int + 2,
            )
        }),
{
    let body = x + seq!['\\', '"'] + y;
    let s = seq!['"'] + body + seq!['"'] + rest;
    let a = x.len() as int;
    let b = y.len() as int;
    assert(s[0] == '"');
    assert forall|k: int| 1 <= k < 1 + a implies s[k] != '"' by {
        assert(s[k] == x[k - 1]);
    }
    assert(s[1 + a] == '\\');
    assert(s[2 + a] == '"');
    assert forall|k: int| 3 + a <= k < 3 + a + b implies s[k] != '"' by {
        assert(s[k] == y[k - 3 - a]);
    }
    assert(s[3 + a + b] == '"');
    if b > 0 {
        assert(s[3 + a + b - 1] == y.last());
    }
    let empty = Seq::<char>::empty();
    lemma_span_takes_run(s, 1, a, empty);
    assert(empty + s.subrange(1, 1 + a) == x);
    let escaped = x.push('\\').push('"');
    assert(quoted_from(s, 1 + a, x) == quoted_from(s, 3 + a, escaped));
    lemma_span_takes_run(s, 3 + a, b, escaped);
    assert(escaped + s.subrange(3 + a, 3 + a + b) == body);
    assert(quoted_from(s, 3 + a + b, body) == Span { word: body, end: 4 + a + b, closed: true });
}

/// Reads the next word of `src` from index `pos`: the word, if there is one,
/// and the index at which the reading stopped.
pub fn next_word(src: &Vec<char>, pos: usize) -> (r: (Option<Vec<char>>, usize))
    ensures
        match word_from(src@, pos as int, Seq::empty()) {
            (Some(w), j) => r.0 matches Some(v) && v@ == w && r.1 == j,
            (None, j) => r.0 is None && r.1 == j,
        },
        pos <= src.len() ==> r.1 <= src.len(),
{
    proof {
        lemma_word_advances(src@, pos as int, Seq::empty());
    }
    let mut word: Vec<char> = Vec::new();
    let mut i: usize = pos;
    while i < src.len()
        invariant
            word_from(src@, pos as int, Seq::empty()) == word_from(src@, i as int, word@),
        decreases src.len() - i,
    {
        let c = src[i];
        if c == '"' {
            let ghost start = i + 1;
            let ghost before = word@;
            i += 1;
            while i < src.len()
                invariant
                    1 <= start <= i <= src.len(),
                    src@[start - 1] == '"',
                    word_from(src@, pos as int, Seq::empty()) == word_from(
                        src@,
                        start - 1,
                        before,
                    ),
                    quoted_from(src@, start, before) == quoted_from(src@, i as int, word@),
                decreases src.len() - i,
            {
                let d = src[i];
                if d == '\\' && i + 1 < src.len() && src[i + 1] == '"' {
                    word.push('\\');
                    word.push('"');
                    i += 2;
                } else if d == '"' {
                    return (Some(word), i + 1);
                } else {
                    word.push(d);
                    i += 1;
                }
            }
            if word.len() == 0 {
                return (None, i);
            } else {
                return (Some(word), i);
            }
        }
        if c.is_whitespace() {
            i += 1;
            if word.len() != 0 {
                return (Some(word), i);
            }
        } else {
            word.push(c);
            i += 1;
        }
    }
    if word.len() == 0 {
        (None, i)
    } else {
        (Some(word), i)
    }
}

/// The words of `src`, in order.
pub fn split_words(src: &Vec<char>) -> (out: Vec<Vec<char>>)
    ensures
        crate::text::texts(out@) == words(src@),
{
    let mut out: Vec<Vec<char>> = Vec::new();
    let mut pos: usize = 0;
    loop
        invariant
            pos <= src.len(),
            words(src@) == crate::text::texts(out@) + words_from(src@, pos as int),
        decreases src.len() - pos,
    {
        let ghost before = crate::text::texts(out@);
        proof {
            lemma_word_advances(src@, pos as int, Seq::empty());
        }
        let (word, end) = next_word(src, pos);
        match word {
            Some(w) => {
                out.push(w);
                assert(crate::text::texts(out@) == before.push(w@));
                assert(before.push(w@) + words_from(src@, end as int) == before + (seq![w@]
                    + words_from(src@, end as int)));
                pos = end;
            },
            None => {
                assert(before + Seq::<Seq<char>>::empty() == before);
                return out;
            },
        }
    }
}

/// A reader that hands out the words of a text one at a time. It holds the
/// text and the index up to which it has read.
pub struct SplitWords {
    src: Vec<char>,
    pos: usize,
}

impl SplitWords {
    /// The text that is read.
    pub closed spec fn text(&self) -> Seq<char> {
        self.src@
    }

    /// The index up to which the text has been read.
    pub closed spec fn position(&self) -> int {
        self.pos as int
    }

    /// The words that are still to come.
    pub open spec fn remaining(&self) -> Seq<Seq<char>> {
        words_from(self.text(), self.position())
    }

    /// A reader at the start of `s`.
    pub fn new(s: &str) -> (r: SplitWords)
        ensures
            r.text() == s@,
            r.position() == 0,
    {
        SplitWords { src: chars_of(s), pos: 0 }
    }

    /// The next word, or `None` when the text holds no further one. The reader
    /// moves to where the reading stopped.
    pub fn next(&mut self) -> (r: Option<String>)
        ensures
            final(self).text() == old(self).text(),
            match word_from(old(self).text(), old(self).position(), Seq::empty()) {
                (Some(w), j) => r matches Some(t) && t@ == w && final(self).position() == j,
                (None, j) => r is None && final(self).position() == j,
            },
    {
        let (word, end) = next_word(&self.src, self.pos);
        self.pos = end;
        match word {
            Some(w) => Some(to_string(&w)),
            None => None,
        }
    }

    /// All the words that are still to come, in order.
    pub fn collect(self) -> (r: Vec<String>)
        ensures
            crate::text::views(r@) == self.remaining(),
    {
        let mut reader = self;
        let mut out: Vec<String> = Vec::new();
        loop
            invariant
                reader.text() == self.text(),
                self.remaining() == crate::text::views(out@) + reader.remaining(),
            decreases reader.text().len() - reader.position(),
        {
            let ghost before = crate::text::views(out@);
            let ghost at = reader.position();
            proof {
                lemma_word_advances(reader.text(), at, Seq::empty());
            }
            match reader.next() {
                Some(w) => {
                    out.push(w);
                    assert(crate::text::views(out@) == before.push(w@));
                    assert(before.push(w@) + reader.remaining() == before + (seq![w@]
                        + reader.remaining()));
                },
                None => {
                    assert(before + Seq::<Seq<char>>::empty() == before);
                    return out;
                },
            }
        }
    }
}

} // verus!
