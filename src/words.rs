//! Words of a page body.
use crate::text::{lower_of, lowercase};
use vstd::prelude::*;

verus! {

/// Whether a character is alphabetic or numeric, as `char::is_alphanumeric`
/// decides.
pub uninterp spec fn alphanumeric(c: char) -> bool;

/// Relies on `char::is_alphanumeric`: the answer depends on the character
/// alone.
#[verifier::external_body]
fn is_alphanumeric(c: char) -> (r: bool)
    ensures
        r == alphanumeric(c),
{
    c.is_alphanumeric()
}

/// Relies on `str::chars`: the characters of a string, in order.
#[verifier::external_body]
fn chars_of(s: &str) -> (r: Vec<char>)
    ensures
        r@ == s@,
{
    s.chars().collect()
}

/// Relies on `String`'s `FromIterator<char>`: the string of the given
/// characters.
#[verifier::external_body]
fn string_of(cs: &[char]) -> (r: String)
    ensures
        r@ == cs@,
{
    cs.iter().collect()
}

/// The Unicode `White_Space` property, which `char::is_whitespace` tests.
pub open spec fn white_space(c: char) -> bool {
    let u = c as u32;
    (0x9 <= u && u <= 0xD) || u == 0x20 || u == 0x85 || u == 0xA0 || u == 0x1680 || (0x2000 <= u
        && u <= 0x200A) || u == 0x2028 || u == 0x2029 || u == 0x202F || u == 0x205F || u == 0x3000
}

fn is_white_space(c: char) -> (r: bool)
    ensures
        r == white_space(c),
{
    let u = c as u32;
    (0x9 <= u && u <= 0xD) || u == 0x20 || u == 0x85 || u == 0xA0 || u == 0x1680 || (0x2000 <= u
        && u <= 0x200A) || u == 0x2028 || u == 0x2029 || u == 0x202F || u == 0x205F || u == 0x3000
}

/// Scanning `s` left to right: the runs of non-white-space characters that
/// are finished, and where the current run starts.
pub open spec fn scan(s: Seq<char>) -> (Seq<Seq<char>>, int)
    decreases s.len(),
{
    if s.len() == 0 {
        (Seq::empty(), 0)
    } else {
        let prev = scan(s.drop_last());
        let i = s.len() - 1;
        if white_space(s[i]) {
            if prev.1 < i {
                (prev.0.push(s.subrange(prev.1, i)), i + 1)
            } else {
                (prev.0, i + 1)
            }
        } else {
            prev
        }
    }
}

/// The whitespace-separated tokens of `s`, in order.
pub open spec fn tokens(s: Seq<char>) -> Seq<Seq<char>> {
    if scan(s).1 < s.len() {
        scan(s).0.push(s.subrange(scan(s).1, s.len() as int))
    } else {
        scan(s).0
    }
}

/// `w` is a word: not empty, not a stop word, and alphanumeric throughout.
pub open spec fn is_word(w: Seq<char>, stop_words: Seq<String>) -> bool {
    &&& w.len() > 0
    &&& forall|j: int| 0 <= j < stop_words.len() ==> #[trigger] stop_words[j]@ != w
    &&& forall|k: int| 0 <= k < w.len() ==> alphanumeric(#[trigger] w[k])
}

/// `w` is the lowercase form of one of `toks` and a word.
pub open spec fn word_among(toks: Seq<Seq<char>>, stop_words: Seq<String>, w: Seq<char>) -> bool {
    exists|j: int| 0 <= j < toks.len() && w == lower_of(#[trigger] toks[j]) && is_word(w, stop_words)
}

proof fn lemma_scan_bounds(s: Seq<char>)
    ensures
        0 <= scan(s).1 <= s.len(),
        scan(s).1 == 0 || white_space(s[scan(s).1 - 1]),
    decreases s.len(),
{
    if s.len() > 0 {
        lemma_scan_bounds(s.drop_last());
        let prev = scan(s.drop_last());
        if prev.1 > 0 && !white_space(s[s.len() - 1]) {
            assert(s.drop_last()[prev.1 - 1] == s[prev.1 - 1]);
        }
    }
}

/// `w` is one of `v`.
pub open spec fn holds_text(v: Seq<String>, w: Seq<char>) -> bool {
    exists|j: int| 0 <= j < v.len() && #[trigger] v[j]@ == w
}

/// Whether `w` is a word.
fn check_word(w: &String, stop_words: &Vec<String>) -> (r: bool)
    ensures
        r == is_word(w@, stop_words@),
{
    let cs = chars_of(w.as_str());
    if cs.len() == 0 {
        return false;
    }
    let mut j: usize = 0;
    while j < stop_words.len()
        invariant
            0 <= j <= stop_words@.len(),
            forall|m: int| 0 <= m < j ==> #[trigger] stop_words@[m]@ != w@,
        decreases stop_words@.len() - j,
    {
        if stop_words[j] == *w {
            return false;
        }
        j += 1;
    }
    let mut k: usize = 0;
    while k < cs.len()
        invariant
            cs@ == w@,
            0 <= k <= cs@.len(),
            forall|m: int| 0 <= m < k ==> alphanumeric(#[trigger] cs@[m]),
        decreases cs@.len() - k,
    {
        if !is_alphanumeric(cs[k]) {
            return false;
        }
        k += 1;
    }
    true
}

/// Adds the lowercase form of the token `cs[start..end]` to `found` if it is
/// a word not found yet.
fn take_token(cs: &Vec<char>, start: usize, end: usize, stop_words: &Vec<String>, found: &mut Vec<String>)
    requires
        start <= end <= cs@.len(),
        forall|a: int, b: int| 0 <= a < b < old(found)@.len() ==> old(found)@[a]@ != old(found)@[b]@,
    ensures
        forall|a: int, b: int| 0 <= a < b < final(found)@.len() ==> final(found)@[a]@ != final(found)@[b]@,
        forall|w: Seq<char>|
            #[trigger] holds_text(final(found)@, w) <==> holds_text(old(found)@, w) || (w
                == lower_of(cs@.subrange(start as int, end as int)) && is_word(w, stop_words@)),
{
    let token = string_of(vstd::slice::slice_subrange(cs.as_slice(), start, end));
    let word = lowercase(token.as_str());
    assert(token@ == cs@.subrange(start as int, end as int));
    if !check_word(&word, stop_words) {
        return;
    }
    let mut j: usize = 0;
    while j < found.len()
        invariant
            0 <= j <= found@.len(),
            found@ == old(found)@,
            forall|a: int, b: int| 0 <= a < b < found@.len() ==> found@[a]@ != found@[b]@,
            start <= end <= cs@.len(),
            word@ == lower_of(cs@.subrange(start as int, end as int)),
            is_word(word@, stop_words@),
            forall|m: int| 0 <= m < j ==> #[trigger] found@[m]@ != word@,
        decreases found@.len() - j,
    {
        if found[j] == word {
            proof {
                assert(found@[j as int]@ == word@);
                assert forall|w: Seq<char>|
                    #[trigger] holds_text(found@, w) <==> holds_text(old(found)@, w) || (w
                        == lower_of(cs@.subrange(start as int, end as int)) && is_word(w, stop_words@)) by {
                    if w == word@ {
                        assert(found@[j as int]@ == w);
                    }
                }
            }
            return;
        }
        j += 1;
    }
    let ghost before = found@;
    let ghost wv = word@;
    assert(wv == lower_of(cs@.subrange(start as int, end as int)));
    found.push(word);
    proof {
        let n = before.len() as int;
        assert(found@[n]@ == wv);
        assert(before == old(found)@);
        assert forall|w: Seq<char>|
            #[trigger] holds_text(found@, w) <==> holds_text(before, w) || (w == lower_of(
                cs@.subrange(start as int, end as int),
            ) && is_word(w, stop_words@)) by {
            if holds_text(found@, w) {
                let j = choose|j: int| 0 <= j < found@.len() && #[trigger] found@[j]@ == w;
                if j < n {
                    assert(before[j]@ == w);
                }
            }
            if holds_text(before, w) {
                let j = choose|j: int| 0 <= j < before.len() && #[trigger] before[j]@ == w;
                assert(found@[j]@ == w);
            }
            if w == lower_of(cs@.subrange(start as int, end as int)) && is_word(w, stop_words@) {
                assert(found@[n]@ == w);
            }
        }
    }
}

proof fn lemma_word_among_push(toks: Seq<Seq<char>>, t: Seq<char>, stop_words: Seq<String>, w: Seq<char>)
    ensures
        word_among(toks.push(t), stop_words, w) == (word_among(toks, stop_words, w) || (w == lower_of(t)
            && is_word(w, stop_words))),
{
    let all = toks.push(t);
    if word_among(all, stop_words, w) {
        let j = choose|j: int| 0 <= j < all.len() && w == lower_of(#[trigger] all[j]) && is_word(w, stop_words);
        if j < toks.len() {
            assert(all[j] == toks[j]);
        }
    }
    if word_among(toks, stop_words, w) {
        let j = choose|j: int| 0 <= j < toks.len() && w == lower_of(#[trigger] toks[j]) && is_word(w, stop_words);
        assert(all[j] == toks[j]);
    }
    if w == lower_of(t) && is_word(w, stop_words) {
        assert(all[toks.len() as int] == t);
    }
}

/// The distinct words of a page body: each whitespace-separated token in
/// lowercase, kept when it is not empty, not a stop word, and alphanumeric
/// throughout.
pub fn extract_words(text: &str, stop_words: &Vec<String>) -> (r: Vec<String>)
    ensures
        forall|w: Seq<char>| #[trigger] holds_text(r@, w) <==> word_among(tokens(text@), stop_words@, w),
        forall|a: int, b: int| 0 <= a < b < r@.len() ==> r@[a]@ != r@[b]@,
{
    let cs = chars_of(text);
    let n = cs.len();
    let mut found: Vec<String> = Vec::new();
    let mut start: usize = 0;
    let mut i: usize = 0;
    assert(cs@.subrange(0, 0) =~= Seq::<char>::empty());
    while i < n
        invariant
            cs@ == text@,
            n == cs@.len(),
            0 <= start <= i <= n,
            scan(cs@.subrange(0, i as int)).1 == start,
            forall|w: Seq<char>|
                #[trigger] holds_text(found@, w) <==> word_among(scan(cs@.subrange(0, i as int)).0, stop_words@, w),
            forall|a: int, b: int| 0 <= a < b < found@.len() ==> found@[a]@ != found@[b]@,
        decreases n - i,
    {
        let ghost prefix = cs@.subrange(0, i as int);
        let ghost next = cs@.subrange(0, i as int + 1);
        proof {
            assert(next.drop_last() =~= prefix);
            assert(next[i as int] == cs@[i as int]);
        }
        if is_white_space(cs[i]) {
            if start < i {
                let ghost before = found@;
                take_token(&cs, start, i, stop_words, &mut found);
                proof {
                    assert(next.subrange(start as int, i as int) =~= cs@.subrange(start as int, i as int));
                    assert forall|w: Seq<char>|
                        #[trigger] holds_text(found@, w) <==> word_among(scan(next).0, stop_words@, w) by {
                        lemma_word_among_push(scan(prefix).0, cs@.subrange(start as int, i as int), stop_words@, w);
                    }
                }
            } else {
                proof {
                    assert forall|w: Seq<char>|
                        #[trigger] holds_text(found@, w) <==> word_among(scan(next).0, stop_words@, w) by {}
                }
            }
            start = i + 1;
        } else {
            proof {
                assert forall|w: Seq<char>|
                    #[trigger] holds_text(found@, w) <==> word_among(scan(next).0, stop_words@, w) by {}
            }
        }
        i += 1;
    }
    proof {
        assert(cs@.subrange(0, n as int) =~= text@);
    }
    if start < n {
        take_token(&cs, start, n, stop_words, &mut found);
        proof {
            assert forall|w: Seq<char>|
                #[trigger] holds_text(found@, w) <==> word_among(tokens(text@), stop_words@, w) by {
                lemma_word_among_push(scan(text@).0, cs@.subrange(start as int, n as int), stop_words@, w);
            }
        }
    }
    found
}

} // verus!
