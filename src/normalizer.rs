//! The normalizer: Unicode lowercasing followed by whitespace collapsing.
use vstd::prelude::*;

verus! {

/// The Unicode `White_Space` property.
pub open spec fn is_white_space(c: char) -> bool {
    let u = c as u32;
    (0x9 <= u <= 0xd) || u == 0x20 || u == 0x85 || u == 0xa0 || u == 0x1680 || (0x2000 <= u
        <= 0x200a) || u == 0x2028 || u == 0x2029 || u == 0x202f || u == 0x205f || u == 0x3000
}

/// The maximal runs of non-whitespace characters of `s`, in order.
pub open spec fn words(s: Seq<char>) -> Seq<Seq<char>>
    decreases s.len(),
{
    if s.len() == 0 {
        seq![]
    } else {
        let ws = words(s.drop_last());
        let c = s.last();
        if is_white_space(c) {
            ws
        } else if s.len() >= 2 && !is_white_space(s[s.len() - 2]) {
            ws.drop_last().push(ws.last().push(c))
        } else {
            ws.push(seq![c])
        }
    }
}

/// The words of `ws` separated by single ASCII spaces.
pub open spec fn join_spaced(ws: Seq<Seq<char>>) -> Seq<char>
    decreases ws.len(),
{
    if ws.len() == 0 {
        seq![]
    } else if ws.len() == 1 {
        ws[0]
    } else {
        join_spaced(ws.drop_last()) + seq![' '] + ws.last()
    }
}

/// `s` with every run of whitespace replaced by one space and no whitespace at either end.
pub open spec fn collapse(s: Seq<char>) -> Seq<char> {
    join_spaced(words(s))
}

/// Extending the last word by one character extends the joined text by that character.
proof fn lemma_join_extend_last(ws: Seq<Seq<char>>, c: char)
    requires
        ws.len() > 0,
    ensures
        join_spaced(ws.drop_last().push(ws.last().push(c))) == join_spaced(ws).push(c),
{
    let ws2 = ws.drop_last().push(ws.last().push(c));
    assert(ws2.drop_last() =~= ws.drop_last());
    if ws.len() > 1 {
        assert(join_spaced(ws2) =~= join_spaced(ws).push(c));
    }
}

/// Adding a word to a list joins it after one space, or alone when the list was empty.
proof fn lemma_join_push(ws: Seq<Seq<char>>, w: Seq<char>)
    ensures
        join_spaced(ws.push(w)) == if ws.len() == 0 {
            w
        } else {
            join_spaced(ws) + seq![' '] + w
        },
{
    assert(ws.push(w).drop_last() =~= ws);
}

/// Relies on `char::is_whitespace`: true exactly for characters with the Unicode
/// `White_Space` property.
#[verifier::external_body]
fn white_space(c: char) -> (r: bool)
    ensures
        r == is_white_space(c),
{
    c.is_whitespace()
}

/// Relies on `String::push`: appends one character.
#[verifier::external_body]
fn push_char(s: &mut String, c: char)
    ensures
        final(s)@ == old(s)@.push(c),
{
    s.push(c)
}

/// Relies on `String::with_capacity`: an empty string; the capacity only reserves space.
#[verifier::external_body]
fn string_with_capacity(capacity: usize) -> (r: String)
    ensures
        r@ == Seq::<char>::empty(),
{
    String::with_capacity(capacity)
}

/// Collapses every run of whitespace in `text` to one space and trims both ends.
pub fn collapse_whitespace(text: &str) -> (r: String)
    ensures
        r@ == collapse(text@),
{
    let mut out = string_with_capacity(text.len());
    let mut in_word = false;
    let mut first = true;
    let ghost mut seen: Seq<char> = seq![];
    for c in it: text.chars()
        invariant
            it.seq() == text@,
            seen == text@.take(it.index() as int),
            out@ == collapse(seen),
            in_word == (seen.len() > 0 && !is_white_space(seen.last())),
            first == (words(seen).len() == 0),
            in_word ==> !first,
    {
        proof {
            assert(seen.push(c) =~= text@.take(it.index() + 1));
        }
        let ghost prev = seen;
        proof {
            seen = seen.push(c);
            assert(seen.drop_last() =~= prev);
        }
        if white_space(c) {
            in_word = false;
        } else {
            if in_word {
                proof {
                    lemma_join_extend_last(words(prev), c);
                }
            } else {
                proof {
                    lemma_join_push(words(prev), seq![c]);
                }
                if !first {
                    push_char(&mut out, ' ');
                }
            }
            push_char(&mut out, c);
            in_word = true;
            first = false;
        }
    }
    proof {
        assert(seen =~= text@);
    }
    out
}

/// What `str::to_lowercase` makes of a character sequence.
pub uninterp spec fn lower_of(s: Seq<char>) -> Seq<char>;

/// The normalized form of `text`: lowercased, whitespace runs collapsed, ends trimmed.
pub open spec fn normalized(text: Seq<char>) -> Seq<char> {
    collapse(lower_of(text))
}

/// Relies on `str::to_lowercase`: the full Unicode lowercase mapping, whose result
/// depends on the characters alone.
#[verifier::external_body]
fn lowercase(s: &str) -> (r: String)
    ensures
        r@ == lower_of(s@),
{
    s.to_lowercase()
}

/// Normalizes `text` for use as a cache key.
pub fn normalize(text: &str) -> (r: String)
    ensures
        r@ == normalized(text@),
{
    let lower = lowercase(text);
    collapse_whitespace(lower.as_str())
}

/// Normalizes `text` without hashing it.
pub fn normalize_text(text: &str) -> (r: String)
    ensures
        r@ == normalized(text@),
{
    normalize(text)
}

/// Every word is non-empty and holds no whitespace.
pub open spec fn plain_words(ws: Seq<Seq<char>>) -> bool {
    forall|k: int|
        0 <= k < ws.len() ==> #[trigger] ws[k].len() > 0 && forall|j: int|
            0 <= j < ws[k].len() ==> !is_white_space(#[trigger] ws[k][j])
}

/// The words of any text are plain.
pub proof fn lemma_words_plain(s: Seq<char>)
    ensures
        plain_words(words(s)),
    decreases s.len(),
{
    if s.len() > 0 {
        lemma_words_plain(s.drop_last());
        let ws = words(s.drop_last());
        let c = s.last();
        if !is_white_space(c) {
            if s.len() >= 2 && !is_white_space(s[s.len() - 2]) {
                let ws2 = ws.drop_last().push(ws.last().push(c));
                assert forall|k: int| 0 <= k < ws2.len() implies #[trigger] ws2[k].len() > 0
                    && forall|j: int| 0 <= j < ws2[k].len() ==> !is_white_space(
                    #[trigger] ws2[k][j],
                ) by {
                    if k == ws2.len() - 1 {
                        assert(ws2[k] == ws[k].push(c));
                    } else {
                        assert(ws2[k] == ws[k]);
                    }
                }
            } else {
                let ws2 = ws.push(seq![c]);
                assert forall|k: int| 0 <= k < ws2.len() implies #[trigger] ws2[k].len() > 0
                    && forall|j: int| 0 <= j < ws2[k].len() ==> !is_white_space(
                    #[trigger] ws2[k][j],
                ) by {
                    if k < ws.len() {
                        assert(ws2[k] == ws[k]);
                    }
                }
            }
        }
    }
}

/// A plain word after nothing or after whitespace is one new word.
proof fn lemma_words_append_word(x: Seq<char>, w: Seq<char>)
    requires
        x.len() == 0 || is_white_space(x.last()),
        w.len() > 0,
        forall|j: int| 0 <= j < w.len() ==> !is_white_space(#[trigger] w[j]),
    ensures
        words(x + w) == words(x).push(w),
    decreases w.len(),
{
    let c = w.last();
    assert((x + w).drop_last() =~= x + w.drop_last());
    if w.len() == 1 {
        assert(x + w.drop_last() =~= x);
        assert(seq![c] =~= w);
    } else {
        lemma_words_append_word(x, w.drop_last());
        assert((x + w.drop_last()).last() == w[w.len() - 2]);
        assert(words(x).push(w.drop_last()).drop_last() =~= words(x));
        assert(w.drop_last().push(c) =~= w);
    }
}

/// Splitting joined plain words gives the words back.
proof fn lemma_words_of_join(ws: Seq<Seq<char>>)
    requires
        plain_words(ws),
    ensures
        words(join_spaced(ws)) == ws,
    decreases ws.len(),
{
    if ws.len() == 0 {
    } else if ws.len() == 1 {
        let e: Seq<char> = seq![];
        assert(ws[0].len() > 0);
        assert(forall|j: int| 0 <= j < ws[0].len() ==> !is_white_space(#[trigger] ws[0][j]));
        lemma_words_append_word(e, ws[0]);
        assert(e + ws[0] =~= ws[0]);
        assert(seq![].push(ws[0]) =~= ws);
    } else {
        let init = ws.drop_last();
        let w = ws.last();
        assert(plain_words(init)) by {
            assert forall|k: int| 0 <= k < init.len() implies #[trigger] init[k].len() > 0
                && forall|j: int| 0 <= j < init[k].len() ==> !is_white_space(
                #[trigger] init[k][j],
            ) by {
                assert(init[k] == ws[k]);
            }
        }
        lemma_words_of_join(init);
        let x = join_spaced(init) + seq![' '];
        assert(x.drop_last() =~= join_spaced(init));
        assert(words(x) == words(join_spaced(init)));
        assert(w == ws[ws.len() - 1]);
        assert(forall|j: int| 0 <= j < w.len() ==> !is_white_space(#[trigger] w[j]));
        lemma_words_append_word(x, w);
        assert(init.push(w) =~= ws);
    }
}

/// Collapsing whitespace twice is the same as collapsing it once.
pub proof fn lemma_collapse_idempotent(s: Seq<char>)
    ensures
        collapse(collapse(s)) == collapse(s),
{
    lemma_words_plain(s);
    lemma_words_of_join(words(s));
}

/// Normalizing normalized text changes nothing, for every text whose normalized
/// form the lowercase mapping leaves as it is.
pub proof fn lemma_normalize_idempotent(t: Seq<char>)
    requires
        lower_of(normalized(t)) == normalized(t),
    ensures
        normalized(normalized(t)) == normalized(t),
{
    lemma_collapse_idempotent(lower_of(t));
}

} // verus!
