//! Splits source text into tokens: whitespace-separated words, each cut at `.`
//! into parts, tagged with their line. `#` starts a comment that runs to the end
//! of the line; lines starting with `#!` document the declaration right below.
use vstd::prelude::*;
use crate::ast::docs_view;
use crate::errors::{ParseErrorKind, ParsingError};
use crate::text::{chars_of, is_blank, is_blank_char, string_of, words_view};

verus! {

/// One word of the source.
pub struct Token {
    /// The word cut at each `.`; never empty.
    pub parts: Vec<Vec<char>>,
    /// The word as it stands in the source.
    pub text: String,
    /// The line the word stands on, counting from one.
    pub line: usize,
    /// The documentation lines right above this word, when it opens its line.
    pub docs: Option<String>,
}

/// The parts of each token.
pub open spec fn token_parts(ts: Seq<Token>) -> Seq<Seq<Seq<char>>> {
    ts.map_values(|t: Token| words_view(t.parts@))
}

// ---------------------------------------------------------------- the lexing rules

/// The first position in `[a, b)` that holds `c`, or `b`.
pub open spec fn first_from(cs: Seq<char>, a: int, b: int, c: char) -> int
    decreases b - a,
{
    if a >= b {
        b
    } else if cs[a] == c {
        a
    } else {
        first_from(cs, a + 1, b, c)
    }
}

/// The first position in `[a, b)` that is not blank, or `b`.
pub open spec fn skip_blanks(cs: Seq<char>, a: int, b: int) -> int
    decreases b - a,
{
    if a >= b {
        b
    } else if !is_blank(cs[a]) {
        a
    } else {
        skip_blanks(cs, a + 1, b)
    }
}

/// The end of `[a, b)` once its trailing blanks are dropped.
pub open spec fn drop_trailing_blanks(cs: Seq<char>, a: int, b: int) -> int
    decreases b - a,
{
    if b <= a {
        a
    } else if !is_blank(cs[b - 1]) {
        b
    } else {
        drop_trailing_blanks(cs, a, b - 1)
    }
}

/// The first blank position in `[a, b)`, or `b`.
pub open spec fn word_end(cs: Seq<char>, a: int, b: int) -> int
    decreases b - a,
{
    if a >= b {
        b
    } else if is_blank(cs[a]) {
        a
    } else {
        word_end(cs, a + 1, b)
    }
}

/// The blank-separated words of `cs[a..b]`.
pub open spec fn words_from(cs: Seq<char>, a: int, b: int) -> Seq<Seq<char>>
    decreases b - a,
{
    if a >= b {
        Seq::empty()
    } else if is_blank(cs[a]) {
        words_from(cs, a + 1, b)
    } else {
        let j = word_end(cs, a, b);
        if j <= a || j > b {
            Seq::empty()
        } else {
            seq![cs.subrange(a, j)] + words_from(cs, j, b)
        }
    }
}

/// The pieces of `w` from `start` on, cut at each `.`.
pub open spec fn parts_from(w: Seq<char>, start: int) -> Seq<Seq<char>>
    decreases w.len() - start,
{
    let d = first_from(w, start, w.len() as int, '.');
    if start < 0 || d < start || d >= w.len() {
        seq![w.subrange(start, w.len() as int)]
    } else {
        seq![w.subrange(start, d)] + parts_from(w, d + 1)
    }
}

/// A token seen as its parts and its documentation.
pub struct TokenView {
    pub parts: Seq<Seq<char>>,
    pub docs: Option<Seq<char>>,
}

impl View for Token {
    type V = TokenView;

    open spec fn view(&self) -> TokenView {
        TokenView { parts: words_view(self.parts@), docs: docs_view(self.docs) }
    }
}

pub open spec fn tokens_view(ts: Seq<Token>) -> Seq<TokenView> {
    ts.map_values(|t: Token| t@)
}

/// The tokens of the words `ws`, the first one carrying `docs`.
pub open spec fn word_tokens(ws: Seq<Seq<char>>, docs: Option<Seq<char>>) -> Seq<TokenView> {
    Seq::new(
        ws.len(),
        |i: int| TokenView { parts: parts_from(ws[i], 0), docs: if i == 0 { docs } else { None } },
    )
}

/// The documentation so far with the line `text` added.
pub open spec fn add_doc_line(pending: Option<Seq<char>>, text: Seq<char>) -> Option<Seq<char>> {
    match pending {
        None => Some(text),
        Some(d) => Some(d.push('\n') + text),
    }
}

/// The line `[start, end)` is a documentation line: `#!` once its leading blanks
/// are dropped.
pub open spec fn is_doc_line(cs: Seq<char>, start: int, end: int) -> bool {
    let ta = skip_blanks(cs, start, end);
    let tb = drop_trailing_blanks(cs, ta, end);
    tb - ta >= 2 && cs[ta] == '#' && cs[ta + 1] == '!'
}

/// Lexes the lines from position `start` on, with the documentation lines `pending`
/// read above and the tokens `acc` read before. `None` when a documentation run is
/// broken by a line without words.
pub open spec fn lex_from(cs: Seq<char>, start: int, pending: Option<Seq<char>>, acc: Seq<TokenView>) -> Option<
    Seq<TokenView>,
>
    decreases cs.len() - start,
{
    let end = first_from(cs, start, cs.len() as int, '\n');
    if start < 0 || start > cs.len() || end < start {
        Some(acc)
    } else {
        let ta = skip_blanks(cs, start, end);
        let tb = drop_trailing_blanks(cs, ta, end);
        if is_doc_line(cs, start, end) {
            let da = skip_blanks(cs, ta + 2, tb);
            let db = drop_trailing_blanks(cs, da, tb);
            let p = add_doc_line(pending, cs.subrange(da, db));
            if end >= cs.len() {
                Some(acc)
            } else {
                lex_from(cs, end + 1, p, acc)
            }
        } else {
            let ws = words_from(cs, start, first_from(cs, start, end, '#'));
            if ws.len() == 0 && pending is Some {
                None
            } else if end >= cs.len() {
                Some(acc + word_tokens(ws, pending))
            } else {
                lex_from(cs, end + 1, None, acc + word_tokens(ws, pending))
            }
        }
    }
}

/// The tokens of a source text, or `None` when a documentation run above a
/// declaration holds a line without words.
pub open spec fn lex(source: Seq<char>) -> Option<Seq<TokenView>> {
    lex_from(source, 0, None, Seq::empty())
}

/// The parts of each token.
pub open spec fn lexed_parts(ts: Seq<TokenView>) -> Seq<Seq<Seq<char>>> {
    ts.map_values(|t: TokenView| t.parts)
}

/// The documentation of each token.
pub open spec fn lexed_docs(ts: Seq<TokenView>) -> Seq<Option<Seq<char>>> {
    ts.map_values(|t: TokenView| t.docs)
}

/// The characters `cs[a..b]`.
pub fn slice_chars(cs: &Vec<char>, a: usize, b: usize) -> (r: Vec<char>)
    requires
        a <= b <= cs@.len(),
    ensures
        r@ == cs@.subrange(a as int, b as int),
{
    let mut r: Vec<char> = Vec::new();
    let mut i: usize = a;
    while i < b
        invariant
            a <= i <= b,
            b <= cs@.len(),
            r@ == cs@.subrange(a as int, i as int),
        decreases b - i,
    {
        r.push(cs[i]);
        i = i + 1;
        assert(r@ == cs@.subrange(a as int, i as int));
    }
    r
}

/// The first position in `[a, b)` that holds `c`, or `b` when none does.
pub fn find_char(cs: &Vec<char>, a: usize, b: usize, c: char) -> (r: usize)
    requires
        a <= b <= cs@.len(),
    ensures
        a <= r <= b,
        forall|k: int| a <= k < r ==> cs@[k] != c,
        r < b ==> cs@[r as int] == c,
        r == first_from(cs@, a as int, b as int, c),
{
    let mut i: usize = a;
    while i < b && cs[i] != c
        invariant
            a <= i <= b,
            b <= cs@.len(),
            forall|k: int| a <= k < i ==> cs@[k] != c,
            first_from(cs@, a as int, b as int, c) == first_from(cs@, i as int, b as int, c),
        decreases b - i,
    {
        i = i + 1;
    }
    i
}

/// The range `[a, b)` without its leading and trailing blanks.
pub fn trim_range(cs: &Vec<char>, a: usize, b: usize) -> (r: (usize, usize))
    requires
        a <= b <= cs@.len(),
    ensures
        a <= r.0 <= r.1 <= b,
        forall|k: int| a <= k < r.0 ==> is_blank(cs@[k]),
        forall|k: int| r.1 <= k < b ==> is_blank(cs@[k]),
        r.0 < r.1 ==> !is_blank(cs@[r.0 as int]) && !is_blank(cs@[r.1 - 1]),
        r.0 == skip_blanks(cs@, a as int, b as int),
        r.1 == drop_trailing_blanks(cs@, r.0 as int, b as int),
{
    let mut s: usize = a;
    while s < b && is_blank_char(cs[s])
        invariant
            a <= s <= b,
            b <= cs@.len(),
            forall|k: int| a <= k < s ==> is_blank(cs@[k]),
            skip_blanks(cs@, a as int, b as int) == skip_blanks(cs@, s as int, b as int),
        decreases b - s,
    {
        s = s + 1;
    }
    let mut e: usize = b;
    while e > s && is_blank_char(cs[e - 1])
        invariant
            s <= e <= b,
            b <= cs@.len(),
            forall|k: int| e <= k < b ==> is_blank(cs@[k]),
            drop_trailing_blanks(cs@, s as int, b as int) == drop_trailing_blanks(cs@, s as int, e as int),
        decreases e,
    {
        e = e - 1;
    }
    (s, e)
}

/// The pieces of `w` between the occurrences of `.`; there is always at least one.
pub fn split_parts(w: &Vec<char>) -> (r: Vec<Vec<char>>)
    ensures
        r@.len() >= 1,
        words_view(r@) == parts_from(w@, 0),
{
    let mut parts: Vec<Vec<char>> = Vec::new();
    let mut start: usize = 0;
    assert(words_view(parts@) =~= Seq::<Seq<char>>::empty());
    loop
        invariant_except_break
            start <= w@.len(),
            words_view(parts@) + parts_from(w@, start as int) == parts_from(w@, 0),
        ensures
            parts@.len() >= 1,
            words_view(parts@) == parts_from(w@, 0),
        decreases w@.len() - start,
    {
        let dot = find_char(w, start, w.len(), '.');
        let piece = slice_chars(w, start, dot);
        let ghost prev = parts@;
        let ghost pv = piece@;
        parts.push(piece);
        assert(words_view(parts@) =~= words_view(prev).push(pv));
        if dot >= w.len() {
            assert(words_view(parts@) =~= words_view(prev) + parts_from(w@, start as int));
            break;
        }
        assert(words_view(prev) + parts_from(w@, start as int) =~= words_view(parts@) + parts_from(
            w@,
            dot + 1,
        ));
        start = dot + 1;
    }
    parts
}

/// The tokens of a word followed by more words: the first carries the
/// documentation, the rest none.
proof fn lemma_word_tokens_cons(w: Seq<char>, rest: Seq<Seq<char>>, docs: Option<Seq<char>>)
    ensures
        word_tokens(seq![w] + rest, docs) == seq![TokenView { parts: parts_from(w, 0), docs }]
            + word_tokens(rest, None),
{
    assert(word_tokens(seq![w] + rest, docs) =~= seq![TokenView { parts: parts_from(w, 0), docs }]
        + word_tokens(rest, None));
}

/// Appends to `tokens` the words of `cs[a..b]`, the first one carrying `docs`.
/// Returns whether there was a word.
fn push_words(cs: &Vec<char>, a: usize, b: usize, line: usize, docs: Option<String>, tokens: &mut Vec<Token>) -> (r: bool)
    requires
        a <= b <= cs@.len(),
        forall|i: int| 0 <= i < old(tokens)@.len() ==> (#[trigger] old(tokens)@[i]).parts@.len() >= 1,
    ensures
        forall|i: int| 0 <= i < final(tokens)@.len() ==> (#[trigger] final(tokens)@[i]).parts@.len() >= 1,
        tokens_view(final(tokens)@) == tokens_view(old(tokens)@) + word_tokens(
            words_from(cs@, a as int, b as int),
            docs_view(docs),
        ),
        r == (words_from(cs@, a as int, b as int).len() > 0),
{
    let ghost total = words_from(cs@, a as int, b as int);
    let ghost d0 = docs_view(docs);
    let ghost base = tokens_view(tokens@);
    let mut docs = docs;
    let mut found = false;
    let mut i: usize = a;
    while i < b
        invariant
            a <= i <= b,
            b <= cs@.len(),
            forall|k: int| 0 <= k < tokens@.len() ==> (#[trigger] tokens@[k]).parts@.len() >= 1,
            tokens_view(tokens@) + word_tokens(words_from(cs@, i as int, b as int), docs_view(docs)) == base
                + word_tokens(total, d0),
            !found ==> docs_view(docs) == d0 && words_from(cs@, i as int, b as int) == total,
            found ==> total.len() > 0 && docs is None,
        decreases b - i,
    {
        if is_blank_char(cs[i]) {
            i = i + 1;
        } else {
            let mut j: usize = i;
            while j < b && !is_blank_char(cs[j])
                invariant
                    i <= j <= b,
                    b <= cs@.len(),
                    !is_blank(cs@[i as int]),
                    word_end(cs@, i as int, b as int) == word_end(cs@, j as int, b as int),
                    j > i || j == i,
                decreases b - j,
            {
                j = j + 1;
            }
            assert(j > i);
            let word = slice_chars(cs, i, j);
            let parts = split_parts(&word);
            let text = string_of(&word);
            let d = docs;
            docs = None;
            let ghost prev = tokens@;
            let ghost rest = words_from(cs@, j as int, b as int);
            proof {
                lemma_word_tokens_cons(word@, rest, docs_view(d));
            }
            let tok = Token { parts, text, line, docs: d };
            let ghost tv = tok@;
            tokens.push(tok);
            proof {
                assert(tokens_view(tokens@) =~= tokens_view(prev).push(tv));
                assert(tokens_view(tokens@) + word_tokens(rest, None) =~= tokens_view(prev) + word_tokens(
                    seq![word@] + rest,
                    docs_view(d),
                ));
            }
            found = true;
            i = j;
        }
    }
    assert(word_tokens(words_from(cs@, i as int, b as int), docs_view(docs)) =~= Seq::<TokenView>::empty());
    assert(tokens_view(tokens@) =~= base + word_tokens(total, d0));
    found
}

pub open spec fn pending_view(p: Option<Vec<char>>) -> Option<Seq<char>> {
    match p {
        Some(d) => Some(d@),
        None => None,
    }
}

/// Splits `source` into tokens, exactly as `lex` does.
///
/// A run of `#!` lines documents the word that opens the next line; a blank line
/// (or a line holding only a comment) inside such a run, before that word is
/// reached, is an error.
pub fn tokenize(source: &str) -> (r: Result<Vec<Token>, ParsingError>)
    ensures
        r matches Ok(ts) ==> forall|i: int| 0 <= i < ts@.len() ==> (#[trigger] ts@[i]).parts@.len() >= 1,
        match lex(source@) {
            None => r matches Err(e) && e.kind == ParseErrorKind::DocumentationBlankLine,
            Some(ts) => r matches Ok(toks) && tokens_view(toks@) == ts,
        },
{
    let cs = chars_of(source);
    let mut tokens: Vec<Token> = Vec::new();
    let mut pending: Option<Vec<char>> = None;
    let mut line: usize = 1;
    let mut start: usize = 0;
    assert(tokens_view(tokens@) =~= Seq::<TokenView>::empty());
    loop
        invariant_except_break
            start <= cs@.len(),
            cs@ == source@,
            lex(cs@) == lex_from(cs@, start as int, pending_view(pending), tokens_view(tokens@)),
        invariant
            forall|i: int| 0 <= i < tokens@.len() ==> (#[trigger] tokens@[i]).parts@.len() >= 1,
        ensures
            cs@ == source@,
            lex(cs@) == Some(tokens_view(tokens@)),
        decreases cs@.len() - start,
    {
        let end = find_char(&cs, start, cs.len(), '\n');
        let (ta, tb) = trim_range(&cs, start, end);
        if tb - ta >= 2 && cs[ta] == '#' && cs[ta + 1] == '!' {
            let (da, db) = trim_range(&cs, ta + 2, tb);
            let text = slice_chars(&cs, da, db);
            let ghost before = pending_view(pending);
            pending = match pending {
                None => Some(text),
                Some(mut d) => {
                    let ghost d0 = d@;
                    d.push('\n');
                    let mut k: usize = 0;
                    while k < text.len()
                        invariant
                            k <= text@.len(),
                            d@ == d0.push('\n') + text@.take(k as int),
                        decreases text@.len() - k,
                    {
                        d.push(text[k]);
                        k = k + 1;
                        assert(d@ =~= d0.push('\n') + text@.take(k as int));
                    }
                    assert(text@.take(k as int) == text@);
                    Some(d)
                },
            };
            assert(pending_view(pending) == add_doc_line(before, text@));
            if end >= cs.len() {
                break;
            }
        } else {
            let cut = find_char(&cs, start, end, '#');
            let docs = match &pending {
                Some(d) => Some(string_of(d)),
                None => None,
            };
            assert(docs_view(docs) == pending_view(pending));
            let had_docs = pending.is_some();
            let found = push_words(&cs, start, cut, line, docs, &mut tokens);
            if !found && had_docs {
                return Err(
                    ParsingError {
                        kind: ParseErrorKind::DocumentationBlankLine,
                        line,
                        token: String::new(),
                    },
                );
            }
            pending = None;
            if end >= cs.len() {
                break;
            }
        }
        start = end + 1;
        if line < usize::MAX {
            line = line + 1;
        }
    }
    Ok(tokens)
}

proof fn lemma_first_from_bounds(cs: Seq<char>, a: int, b: int, c: char)
    requires
        a <= b,
    ensures
        a <= first_from(cs, a, b, c) <= b,
    decreases b - a,
{
    if a < b && cs[a] != c {
        lemma_first_from_bounds(cs, a + 1, b, c);
    }
}

/// A range of blanks has no word, and skipping blanks crosses it whole.
proof fn lemma_blank_range(cs: Seq<char>, a: int, b: int)
    requires
        a <= b,
        forall|k: int| a <= k < b ==> is_blank(#[trigger] cs[k]),
    ensures
        skip_blanks(cs, a, b) == b,
        words_from(cs, a, b) == Seq::<Seq<char>>::empty(),
    decreases b - a,
{
    if a < b {
        lemma_blank_range(cs, a + 1, b);
    }
}

/// A line of blanks right below a documentation line breaks the documentation
/// run: lexing fails, however well formed the declaration that follows.
pub proof fn lemma_blank_line_breaks_docs(
    cs: Seq<char>,
    start: int,
    pending: Option<Seq<char>>,
    acc: Seq<TokenView>,
)
    requires
        0 <= start <= cs.len(),
        first_from(cs, start, cs.len() as int, '\n') < cs.len(),
        is_doc_line(cs, start, first_from(cs, start, cs.len() as int, '\n')),
        forall|k: int|
            first_from(cs, start, cs.len() as int, '\n') < k < first_from(
                cs,
                first_from(cs, start, cs.len() as int, '\n') + 1,
                cs.len() as int,
                '\n',
            ) ==> is_blank(#[trigger] cs[k]),
    ensures
        lex_from(cs, start, pending, acc) is None,
{
    let end = first_from(cs, start, cs.len() as int, '\n');
    lemma_first_from_bounds(cs, start, cs.len() as int, '\n');
    let next = end + 1;
    let end2 = first_from(cs, next, cs.len() as int, '\n');
    lemma_first_from_bounds(cs, next, cs.len() as int, '\n');
    let cut = first_from(cs, next, end2, '#');
    lemma_first_from_bounds(cs, next, end2, '#');
    lemma_blank_range(cs, next, end2);
    lemma_blank_range(cs, next, cut);
    let ta = skip_blanks(cs, start, end);
    let tb = drop_trailing_blanks(cs, ta, end);
    let da = skip_blanks(cs, ta + 2, tb);
    let db = drop_trailing_blanks(cs, da, tb);
    let p = add_doc_line(pending, cs.subrange(da, db));
    assert(!is_doc_line(cs, next, end2));
    assert(lex_from(cs, next, p, acc) is None);
}

} // verus!
