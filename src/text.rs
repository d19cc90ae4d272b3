//! Character-level facts and slicing of borrowed strings.

use vstd::prelude::*;
use vstd::string::StringSliceAdditionalSpecFns;
use vstd::utf8::*;

verus! {

broadcast use vstd::string::group_string_axioms;

/// `t` is what is left of `s` after some prefix of it was taken off.
pub open spec fn is_suffix_of(t: Seq<char>, s: Seq<char>) -> bool {
    &&& t.len() <= s.len()
    &&& forall|i: int| 0 <= i < t.len() ==> t[i] == s[s.len() - t.len() + i]
}

/// Consumption never gives back input: a suffix of a suffix of `s` is a
/// suffix of `s`, so the rest of the input only shrinks over any sequence of
/// operations.
pub proof fn lemma_suffix_of_trans(a: Seq<char>, b: Seq<char>, c: Seq<char>)
    requires
        is_suffix_of(b, a),
        is_suffix_of(c, b),
    ensures
        is_suffix_of(c, a),
{
    assert forall|i: int| 0 <= i < c.len() implies c[i] == a[a.len() - c.len() + i] by {
        assert(c[i] == b[b.len() - c.len() + i]);
        assert(b[b.len() - c.len() + i] == a[a.len() - b.len() + (b.len() - c.len() + i)]);
    }
}

/// The Unicode `White_Space` property.
pub open spec fn is_white_space(c: char) -> bool {
    let v = c as u32;
    ||| 0x09 <= v <= 0x0d
    ||| v == 0x20
    ||| v == 0x85
    ||| v == 0xa0
    ||| v == 0x1680
    ||| 0x2000 <= v <= 0x200a
    ||| v == 0x2028
    ||| v == 0x2029
    ||| v == 0x202f
    ||| v == 0x205f
    ||| v == 0x3000
}

/// Relies on `char::is_whitespace`: true exactly for the characters with the
/// Unicode `White_Space` property.
#[verifier::external_body]
pub(crate) fn white_space(c: char) -> (r: bool)
    ensures
        r == is_white_space(c),
{
    c.is_whitespace()
}

proof fn lemma_encode_concat(x: Seq<char>, y: Seq<char>)
    ensures
        encode_utf8(x + y) == encode_utf8(x) + encode_utf8(y),
    decreases x.len(),
{
    if x.len() == 0 {
        assert(x + y =~= y);
        assert(encode_utf8(x) + encode_utf8(y) =~= encode_utf8(y));
    } else {
        assert((x + y).drop_first() =~= x.drop_first() + y);
        lemma_encode_concat(x.drop_first(), y);
        assert(encode_utf8(x + y) =~= encode_utf8(x) + encode_utf8(y));
    }
}

proof fn lemma_encode_boundary(x: Seq<char>, y: Seq<char>)
    ensures
        is_char_boundary(encode_utf8(x + y), encode_utf8(x).len() as int),
    decreases x.len(),
{
    let bytes = encode_utf8(x + y);
    encode_utf8_valid_utf8(x + y);
    if x.len() > 0 {
        assert((x + y).drop_first() =~= x.drop_first() + y);
        encode_utf8_first_scalar(x + y);
        lemma_encode_concat(x, y);
        lemma_encode_concat(x.drop_first(), y);
        assert(pop_first_scalar(bytes) =~= encode_utf8(x.drop_first() + y));
        lemma_encode_boundary(x.drop_first(), y);
    }
}

/// Number of bytes that `c` takes in UTF-8.
pub(crate) fn utf8_width(c: char) -> (r: usize)
    ensures
        r == encode_utf8(seq![c]).len(),
{
    let v = c as u32;
    proof {
        let w = seq![c];
        assert(w.drop_first() =~= Seq::<char>::empty());
        assert(encode_utf8(w) =~= encode_scalar(v) + encode_utf8(w.drop_first()));
        char_is_scalar(c);
    }
    if v < 0x80 {
        1
    } else if v < 0x800 {
        2
    } else if v < 0x10000 {
        3
    } else {
        4
    }
}

/// Splits `s` after its first `k` characters, which take `at` bytes.
pub(crate) fn split_chars<'a>(s: &'a str, Ghost(k): Ghost<int>, at: usize) -> (r: (&'a str, &'a str))
    requires
        0 <= k <= s@.len(),
        at == encode_utf8(s@.take(k)).len(),
    ensures
        r.0@ == s@.take(k),
        r.1@ == s@.skip(k),
{
    proof {
        let x = s@.take(k);
        let y = s@.skip(k);
        assert(s@ =~= x + y);
        lemma_encode_concat(x, y);
        lemma_encode_boundary(x, y);
    }
    let r = s.split_at(at);
    proof {
        let x = s@.take(k);
        let y = s@.skip(k);
        assert(r.0.spec_bytes() =~= encode_utf8(x));
        assert(r.1.spec_bytes() =~= encode_utf8(y));
        encode_utf8_decode_utf8(x);
        encode_utf8_decode_utf8(y);
        encode_utf8_decode_utf8(r.0@);
        encode_utf8_decode_utf8(r.1@);
    }
    r
}

/// The first character of `s`, if any.
pub(crate) fn first_char(s: &str) -> (r: Option<char>)
    ensures
        r == (if s@.len() == 0 { None } else { Some(s@[0]) }),
{
    let mut it = s.chars();
    it.next()
}

/// Length of the longest prefix of `s` whose characters are whitespace
/// (`space`) or are not (`!space`).
pub open spec fn run_len(s: Seq<char>, space: bool) -> nat
    decreases s.len(),
{
    if s.len() > 0 && is_white_space(s[0]) == space {
        1 + run_len(s.drop_first(), space)
    } else {
        0
    }
}

/// The whitespace that `s` starts with.
pub open spec fn space_prefix(s: Seq<char>) -> Seq<char> {
    s.take(run_len(s, true) as int)
}

/// What follows the leading whitespace of `s`.
pub open spec fn skip_space(s: Seq<char>) -> Seq<char> {
    s.skip(run_len(s, true) as int)
}

/// The first word of `s`: the non-whitespace run after its leading
/// whitespace, empty when no such character is left.
pub open spec fn word_of(s: Seq<char>) -> Seq<char> {
    let t = skip_space(s);
    t.take(run_len(t, false) as int)
}

/// What follows the first word of `s`.
pub open spec fn after_word(s: Seq<char>) -> Seq<char> {
    let t = skip_space(s);
    t.skip(run_len(t, false) as int)
}

/// A run is never longer than the sequence it starts.
pub proof fn lemma_run_len_bound(s: Seq<char>, space: bool)
    ensures
        run_len(s, space) <= s.len(),
    decreases s.len(),
{
    if s.len() > 0 && is_white_space(s[0]) == space {
        lemma_run_len_bound(s.drop_first(), space);
    }
}

/// `s` is its leading whitespace, then its first word, then what follows.
pub proof fn lemma_word_split(s: Seq<char>)
    ensures
        s == space_prefix(s) + word_of(s) + after_word(s),
{
    let t = skip_space(s);
    lemma_run_len_bound(s, true);
    lemma_run_len_bound(t, false);
    assert(s =~= space_prefix(s) + t);
    assert(t =~= word_of(s) + after_word(s));
    assert(s =~= space_prefix(s) + word_of(s) + after_word(s));
}

/// The whitespace skipped and the words read by calling `read_word` on `s`
/// again and again until nothing is left, concatenated in order.
pub open spec fn rejoin_words(s: Seq<char>) -> Seq<char>
    decreases s.len(),
    via rejoin_words_decreases
{
    if s.len() == 0 {
        s
    } else {
        space_prefix(s) + word_of(s) + rejoin_words(after_word(s))
    }
}

#[via_fn]
proof fn rejoin_words_decreases(s: Seq<char>) {
    if s.len() > 0 {
        lemma_after_word_shorter(s);
    }
}

/// Reading a word from a non-empty input consumes at least one character.
pub proof fn lemma_after_word_shorter(s: Seq<char>)
    requires
        s.len() > 0,
    ensures
        after_word(s).len() < s.len(),
{
    let t = skip_space(s);
    lemma_run_len_bound(s, true);
    lemma_run_len_bound(t, false);
    if run_len(s, true) == 0 {
        assert(t =~= s);
        assert(run_len(t, false) == 1 + run_len(t.drop_first(), false));
    }
}

/// Reading words until the input is exhausted loses nothing: the skipped
/// whitespace and the words, in order, give back the input exactly.
pub proof fn lemma_words_rejoin(s: Seq<char>)
    ensures
        rejoin_words(s) == s,
    decreases s.len(),
{
    if s.len() > 0 {
        lemma_after_word_shorter(s);
        lemma_word_split(s);
        lemma_words_rejoin(after_word(s));
    }
}

/// A run is measured by the first `k` characters when they all have the kind
/// `space` and the next one, if any, does not.
pub proof fn lemma_run_len_exact(s: Seq<char>, space: bool, k: int)
    requires
        0 <= k <= s.len(),
        forall|i: int| 0 <= i < k ==> is_white_space(#[trigger] s[i]) == space,
        k == s.len() || is_white_space(s[k]) != space,
    ensures
        run_len(s, space) == k,
    decreases k,
{
    if k > 0 {
        lemma_run_len_exact(s.drop_first(), space, k - 1);
    }
}

/// The first `k` characters of `s` all satisfy `f`, the next one does not.
pub(crate) fn scan_until<F: Fn(char) -> bool>(s: &str, f: &F) -> (r: (usize, Ghost<int>))
    requires
        forall|c: char| f.requires((c,)),
    ensures
        0 <= r.1@ <= s@.len(),
        r.0 == encode_utf8(s@.take(r.1@)).len(),
        forall|i: int| 0 <= i < r.1@ ==> f.ensures((s@[i],), false),
        r.1@ < s@.len() ==> f.ensures((s@[r.1@],), true),
{
    let total = s.as_bytes().len();
    proof {
        assert(s@.take(s@.len() as int) =~= s@);
    }
    let mut rest = s;
    let mut at: usize = 0;
    let ghost mut k: int = 0;
    loop
        invariant
            0 <= k <= s@.len(),
            rest@ == s@.skip(k),
            at == encode_utf8(s@.take(k)).len(),
            total == encode_utf8(s@).len(),
            forall|c: char| f.requires((c,)),
            forall|i: int| 0 <= i < k ==> f.ensures((s@[i],), false),
        decreases s@.len() - k,
    {
        match first_char(rest) {
            None => {
                return (at, Ghost(k));
            },
            Some(c) => {
                if f(c) {
                    return (at, Ghost(k));
                }
                let w = utf8_width(c);
                proof {
                    assert(s@.take(k + 1) =~= s@.take(k) + seq![c]);
                    assert(s@ =~= s@.take(k + 1) + s@.skip(k + 1));
                    assert(rest@.take(1) =~= seq![c]);
                    lemma_encode_concat(s@.take(k), seq![c]);
                    lemma_encode_concat(s@.take(k + 1), s@.skip(k + 1));
                }
                let (_, tail) = split_chars(rest, Ghost(1), w);
                rest = tail;
                at = at + w;
                proof {
                    assert(rest@ =~= s@.skip(k + 1));
                    k = k + 1;
                }
            },
        }
    }
}

/// Relies on `str::starts_with`: true exactly when `p` is a prefix of `s`.
#[verifier::external_body]
pub(crate) fn starts_with(s: &str, p: &str) -> (r: bool)
    ensures
        r == (p@.len() <= s@.len() && s@.take(p@.len() as int) == p@),
{
    s.starts_with(p)
}

} // verus!
