//! Conversions between `str`, `String` and sequences of characters.
use vstd::prelude::*;


verus! {

broadcast use vstd::string::axiom_spec_iter, vstd::string::next_postcondition;

/// The characters of `s`, in order.
pub fn chars_of(s: &str) -> (r: Vec<char>)
    ensures
        r@ == s@,
{
    let mut out: Vec<char> = Vec::new();
    for c in it: s.chars()
        invariant
            it.seq() == s@,
            out@ == s@.take(it.index() as int),
    {
        out.push(c);
    }
    assert(out@ == s@);
    out
}

/// Relies on `String::push`: appends one character.
#[verifier::external_body]
fn push_char(s: &mut String, c: char)
    ensures
        final(s)@ == old(s)@.push(c),
{
    s.push(c);
}

/// The string whose characters are `cs`.
pub fn string_of(cs: &Vec<char>) -> (r: String)
    ensures
        r@ == cs@,
{
    let mut r = String::new();
    let mut i: usize = 0;
    while i < cs.len()
        invariant
            i <= cs@.len(),
            r@ == cs@.take(i as int),
        decreases cs@.len() - i,
    {
        push_char(&mut r, cs[i]);
        i = i + 1;
        assert(r@ == cs@.take(i as int));
    }
    assert(cs@.take(i as int) == cs@);
    r
}

/// Whether `w` holds exactly the characters of `lit`.
pub fn is_word(w: &Vec<char>, lit: &str) -> (r: bool)
    ensures
        r == (w@ == lit@),
{
    let l = chars_of(lit);
    if w.len() != l.len() {
        return false;
    }
    let mut i: usize = 0;
    while i < w.len()
        invariant
            i <= w@.len(),
            w@.len() == l@.len(),
            l@ == lit@,
            w@.take(i as int) == l@.take(i as int),
        decreases w@.len() - i,
    {
        if w[i] != l[i] {
            assert(w@[i as int] != l@[i as int]);
            return false;
        }
        i = i + 1;
        assert(w@.take(i as int) == l@.take(i as int));
    }
    assert(w@ == w@.take(i as int));
    assert(l@ == l@.take(i as int));
    true
}

/// Whether `a` and `b` hold the same characters.
pub fn same_chars(a: &Vec<char>, b: &Vec<char>) -> (r: bool)
    ensures
        r == (a@ == b@),
{
    if a.len() != b.len() {
        return false;
    }
    let mut i: usize = 0;
    while i < a.len()
        invariant
            i <= a@.len(),
            a@.len() == b@.len(),
            a@.take(i as int) == b@.take(i as int),
        decreases a@.len() - i,
    {
        if a[i] != b[i] {
            assert(a@[i as int] != b@[i as int]);
            return false;
        }
        i = i + 1;
        assert(a@.take(i as int) == b@.take(i as int));
    }
    assert(a@ == a@.take(i as int));
    assert(b@ == b@.take(i as int));
    true
}

/// The characters of each element.
pub open spec fn words_view(s: Seq<Vec<char>>) -> Seq<Seq<char>> {
    s.map_values(|v: Vec<char>| v@)
}

/// The position of the first occurrence of `x` in `s`, or -1.
pub open spec fn index_of(s: Seq<Seq<char>>, x: Seq<char>) -> int
    decreases s.len(),
{
    if s.len() == 0 {
        -1
    } else if index_of(s.drop_last(), x) >= 0 {
        index_of(s.drop_last(), x)
    } else if s.last() == x {
        s.len() - 1
    } else {
        -1
    }
}

/// `index_of` names a position that holds `x`, and nothing before it does.
pub proof fn lemma_index_of(s: Seq<Seq<char>>, x: Seq<char>)
    ensures
        -1 <= index_of(s, x) < s.len(),
        index_of(s, x) >= 0 ==> s[index_of(s, x)] == x,
        forall|j: int| 0 <= j < s.len() && (index_of(s, x) < 0 || j < index_of(s, x)) ==> s[j] != x,
    decreases s.len(),
{
    if s.len() > 0 {
        let d = s.drop_last();
        lemma_index_of(d, x);
        assert forall|j: int| 0 <= j < s.len() && (index_of(s, x) < 0 || j < index_of(s, x)) implies s[j]
            != x by {
            if j < s.len() - 1 {
                assert(s[j] == d[j]);
            }
        }
    }
}

/// An occurrence within a prefix is the first occurrence in the whole.
proof fn lemma_index_of_prefix(s: Seq<Seq<char>>, x: Seq<char>, k: int)
    requires
        0 <= k <= s.len(),
        index_of(s.take(k), x) >= 0,
    ensures
        index_of(s, x) == index_of(s.take(k), x),
    decreases s.len() - k,
{
    if k < s.len() {
        assert(s.take(k + 1).drop_last() == s.take(k));
        lemma_index_of_prefix(s, x, k + 1);
    } else {
        assert(s.take(k) == s);
    }
}

/// The position of the first occurrence of `x` in `s`.
pub fn find_word(s: &Vec<Vec<char>>, x: &Vec<char>) -> (r: Option<usize>)
    ensures
        match r {
            Some(k) => index_of(words_view(s@), x@) == k as int,
            None => index_of(words_view(s@), x@) == -1,
        },
{
    let ghost w = words_view(s@);
    let mut i: usize = 0;
    while i < s.len()
        invariant
            i <= s@.len(),
            w == words_view(s@),
            index_of(w.take(i as int), x@) == -1,
        decreases s@.len() - i,
    {
        assert(w.take(i + 1).drop_last() == w.take(i as int));
        if same_chars(&s[i], x) {
            proof {
                lemma_index_of_prefix(w, x@, i + 1);
            }
            return Some(i);
        }
        i = i + 1;
    }
    assert(w.take(i as int) == w);
    None
}

/// The ASCII blank characters: space, tab, carriage return and line feed.
pub open spec fn is_blank(c: char) -> bool {
    c == ' ' || c == '\t' || c == '\r' || c == '\n'
}

pub fn is_blank_char(c: char) -> (r: bool)
    ensures
        r == is_blank(c),
{
    c == ' ' || c == '\t' || c == '\r' || c == '\n'
}

} // verus!
