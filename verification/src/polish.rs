//! Fast, offline transcript cleanup: filler removal, punctuation, casing.
//!
//! Each rule is stated over the transcript's characters; `polish_quick`
//! applies them in a fixed order.

pub mod fillers;
pub mod openers;

pub use fillers::{remove_fillers, strip_fillers};
pub use openers::{trim_leading, trim_leading_defined, try_trim_leading_phrases};

use vstd::prelude::*;
use openers::trim_leading_phrases;
use crate::text::{
    append_chars, chars_of, collapse, collapse_chars, is_alphabetic, is_alphanumeric,
    is_collapsed, is_ws, join_with_spaces, join_words, law_collapse_normalizes,
    lemma_collapse_keeps_last, lemma_trim_fixed, lemma_trim_shape, lemma_words_trim, split_words,
    string_of, sub_chars, to_lowercase, to_uppercase, trim, trim_chars, unicode_alphabetic,
    unicode_alphanumeric, unicode_lowercase, unicode_uppercase, views, words,
};

verus! {

/// No letter or digit stands just before index `i` of `t`.
pub open spec fn boundary_before(t: Seq<char>, i: int) -> bool {
    i == 0 || !unicode_alphanumeric(t[i - 1])
}

/// No letter or digit stands just after index `i` of `t`.
pub open spec fn boundary_after(t: Seq<char>, i: int) -> bool {
    i + 1 >= t.len() || !unicode_alphanumeric(t[i + 1])
}

/// Every `i` standing alone as a word becomes the pronoun `I`.
pub open spec fn fix_i(t: Seq<char>) -> Seq<char> {
    Seq::new(
        t.len(),
        |k: int|
            if t[k] == 'i' && boundary_before(t, k) && boundary_after(t, k) {
                'I'
            } else {
                t[k]
            },
    )
}

/// Whether index `i` of `chars` has no letter or digit just before it.
pub fn is_word_boundary_before(chars: &[char], i: usize) -> (b: bool)
    requires
        i <= chars@.len(),
    ensures
        b == boundary_before(chars@, i as int),
{
    i == 0 || !is_alphanumeric(chars[i - 1])
}

/// Whether index `i` of `chars` has no letter or digit just after it.
pub fn is_word_boundary_after(chars: &[char], i: usize) -> (b: bool)
    requires
        i < usize::MAX,
    ensures
        b == boundary_after(chars@, i as int),
{
    i + 1 >= chars.len() || !is_alphanumeric(chars[i + 1])
}

/// Capitalizes the pronoun `i` where it stands alone.
pub fn fix_i_pronoun(text: &str) -> (r: String)
    ensures
        r@ == fix_i(text@),
{
    let chars = chars_of(text);
    let mut out: Vec<char> = Vec::new();
    let mut i: usize = 0;
    while i < chars.len()
        invariant
            chars@ == text@,
            i <= chars@.len(),
            out@ =~= fix_i(chars@).take(i as int),
        decreases chars@.len() - i,
    {
        if chars[i] == 'i' && is_word_boundary_before(chars.as_slice(), i)
            && is_word_boundary_after(chars.as_slice(), i) {
            out.push('I');
        } else {
            out.push(chars[i]);
        }
        i += 1;
    }
    string_of(&out)
}

/// A character that ends a sentence.
pub open spec fn is_sentence_end(c: char) -> bool {
    c == '.' || c == '!' || c == '?'
}

/// Whether the next letter of `t` after its first `k` characters opens a
/// sentence: true at the start; a letter met while one is awaited closes it;
/// otherwise a sentence end reopens it.
pub open spec fn sentence_open(t: Seq<char>, k: int) -> bool
    decreases k,
{
    if k <= 0 {
        true
    } else {
        let c = t[k - 1];
        if sentence_open(t, k - 1) && unicode_alphabetic(c) {
            false
        } else if is_sentence_end(c) {
            true
        } else {
            sentence_open(t, k - 1)
        }
    }
}

/// What character `k` of `t` becomes: its uppercase form if it is the letter
/// that opens a sentence, else itself.
pub open spec fn capital_piece(t: Seq<char>, k: int) -> Seq<char> {
    if sentence_open(t, k) && unicode_alphabetic(t[k]) {
        unicode_uppercase(t[k])
    } else {
        seq![t[k]]
    }
}

/// The first `n` characters of `t`, each replaced by its `capital_piece`.
pub open spec fn capitalize_prefix(t: Seq<char>, n: int) -> Seq<char>
    decreases n,
{
    if n <= 0 {
        seq![]
    } else {
        capitalize_prefix(t, n - 1) + capital_piece(t, n - 1)
    }
}

/// `t` with the first letter of each sentence in uppercase.
pub open spec fn capitalize(t: Seq<char>) -> Seq<char> {
    capitalize_prefix(t, t.len() as int)
}

/// Uppercases the first letter of the text and of each sentence after `.`, `!` or `?`.
pub fn capitalize_sentences(text: &str) -> (r: String)
    ensures
        r@ == capitalize(text@),
{
    let chars = chars_of(text);
    let mut out: Vec<char> = Vec::new();
    let mut capitalize_next = true;
    for i in 0..chars.len()
        invariant
            chars@ == text@,
            out@ == capitalize_prefix(chars@, i as int),
            capitalize_next == sentence_open(chars@, i as int),
    {
        let c = chars[i];
        if capitalize_next && is_alphabetic(c) {
            let up = to_uppercase(c);
            append_chars(&mut out, &up);
            capitalize_next = false;
        } else {
            out.push(c);
            if c == '.' || c == '!' || c == '?' {
                capitalize_next = true;
            }
        }
        assert(out@ =~= capitalize_prefix(chars@, i + 1));
    }
    string_of(&out)
}

/// A character that may close a transcript.
pub open spec fn is_closing_punctuation(c: char) -> bool {
    c == '.' || c == '!' || c == '?' || c == ',' || c == ':' || c == ';'
}

/// `t` trimmed, with a period added unless it is empty or already ends in
/// closing punctuation.
pub open spec fn ensure_end(t: Seq<char>) -> Seq<char> {
    let tr = trim(t);
    if tr.len() == 0 {
        seq![]
    } else if is_closing_punctuation(tr.last()) {
        tr
    } else {
        tr.push('.')
    }
}

/// Trims the text and ends it with punctuation.
pub fn ensure_end_punctuation(text: &str) -> (r: String)
    ensures
        r@ == ensure_end(text@),
{
    let chars = chars_of(text);
    let mut trimmed = trim_chars(&chars);
    let n = trimmed.len();
    if n == 0 {
        return String::new();
    }
    let last = trimmed[n - 1];
    if last == '.' || last == '!' || last == '?' || last == ',' || last == ':' || last == ';' {
        string_of(&trimmed)
    } else {
        trimmed.push('.');
        string_of(&trimmed)
    }
}

/// The words of `ws`, each dropped when it equals the word before it up to case.
pub open spec fn dedup_words(ws: Seq<Seq<char>>) -> Seq<Seq<char>>
    decreases ws.len(),
{
    if ws.len() == 0 {
        seq![]
    } else {
        let d = dedup_words(ws.drop_last());
        if ws.len() >= 2 && unicode_lowercase(ws.last()) == unicode_lowercase(
            ws[ws.len() - 2],
        ) {
            d
        } else {
            d.push(ws.last())
        }
    }
}

/// The words of `t`, repeats removed, joined with single spaces.
pub open spec fn remove_dups(t: Seq<char>) -> Seq<char> {
    join_words(dedup_words(words(t)))
}

proof fn lemma_dedup_step(ws: Seq<Seq<char>>, i: int)
    requires
        1 <= i < ws.len(),
    ensures
        dedup_words(ws.take(i + 1)) == (if unicode_lowercase(ws[i]) == unicode_lowercase(
            ws[i - 1],
        ) {
            dedup_words(ws.take(i))
        } else {
            dedup_words(ws.take(i)).push(ws[i])
        }),
{
    let t = ws.take(i + 1);
    assert(t.drop_last() =~= ws.take(i));
    assert(t.last() == ws[i]);
    assert(t[t.len() - 2] == ws[i - 1]);
}

/// The lowercase of a word held as characters.
fn lowercase_of(w: &Vec<char>) -> (r: String)
    ensures
        r@ == unicode_lowercase(w@),
{
    let s = string_of(w);
    to_lowercase(s.as_str())
}

/// Drops each word that repeats the word before it, ignoring case.
pub fn remove_duplicate_words(text: &str) -> (r: String)
    ensures
        r@ == remove_dups(text@),
{
    let chars = chars_of(text);
    let ws = split_words(&chars);
    let ghost wsv = views(ws@);
    if ws.len() == 0 {
        return String::new();
    }
    let mut out: Vec<Vec<char>> = Vec::new();
    let w0 = sub_chars(&ws[0], 0, ws[0].len());
    assert(w0@ =~= wsv[0]);
    out.push(w0);
    proof {
        let t = wsv.take(1);
        assert(t.drop_last() =~= wsv.take(0));
        assert(dedup_words(wsv.take(0)) =~= Seq::<Seq<char>>::empty());
        assert(views(out@) =~= dedup_words(wsv.take(1)));
    }
    let mut i: usize = 1;
    while i < ws.len()
        invariant
            wsv == views(ws@),
            wsv == words(text@),
            1 <= i <= ws@.len(),
            views(out@) == dedup_words(wsv.take(i as int)),
            out@.len() > 0,
            unicode_lowercase(out@.last()@) == unicode_lowercase(wsv[i - 1]),
        decreases ws@.len() - i,
    {
        proof {
            lemma_dedup_step(wsv, i as int);
        }
        let lw = lowercase_of(&ws[i]);
        let ll = lowercase_of(&out[out.len() - 1]);
        assert(ws@[i as int]@ == wsv[i as int]);
        if lw != ll {
            let ghost before = views(out@);
            let w = sub_chars(&ws[i], 0, ws[i].len());
            let ghost wv = w@;
            assert(wv =~= wsv[i as int]);
            out.push(w);
            assert(views(out@) =~= before.push(wv));
        }
        i += 1;
    }
    assert(wsv.take(ws@.len() as int) =~= wsv);
    let joined = join_with_spaces(&out);
    string_of(&joined)
}


/// Collapses every run of whitespace into one space and trims both ends.
pub fn collapse_whitespace(s: &str) -> (r: String)
    ensures
        r@ == collapse(s@),
{
    let chars = chars_of(s);
    string_of(&collapse_chars(&chars))
}

/// The text as it stands when the leading openers are cut: trimmed,
/// whitespace collapsed, fillers removed.
pub open spec fn before_leading_trim(t: Seq<char>) -> Seq<char> {
    strip_fillers(collapse(trim(t)))
}

/// The cleanup never has to slice the text inside a character (see
/// `trim_leading_defined`).
pub open spec fn polish_defined(t: Seq<char>) -> bool {
    trim(t).len() == 0 || trim_leading_defined(before_leading_trim(t))
}

/// The cleaned transcript: empty for blank input; otherwise trimmed and
/// collapsed, fillers removed, leading openers cut, repeated words dropped,
/// the pronoun `I` fixed, sentences capitalized, closing punctuation ensured,
/// and whitespace collapsed once more.
pub open spec fn polish(t: Seq<char>) -> Seq<char> {
    if trim(t).len() == 0 {
        seq![]
    } else {
        collapse(
            ensure_end(capitalize(fix_i(remove_dups(trim_leading(before_leading_trim(t)))))),
        )
    }
}

/// Rule-based polish of a transcript, always available offline.
pub fn polish_quick(text: &str) -> (r: String)
    requires
        polish_defined(text@),
    ensures
        r@ == polish(text@),
{
    let chars = chars_of(text);
    let trimmed = trim_chars(&chars);
    if trimmed.len() == 0 {
        return String::new();
    }
    let s = string_of(&collapse_chars(&trimmed));
    let s = remove_fillers(s.as_str());
    let s = trim_leading_phrases(s);
    let s = remove_duplicate_words(s.as_str());
    let s = fix_i_pronoun(s.as_str());
    let s = capitalize_sentences(s.as_str());
    let s = ensure_end_punctuation(s.as_str());
    collapse_whitespace(s.as_str())
}

/// `polish_quick` for any text: `None` exactly where cutting a leading
/// opener would split a character, so that byte slicing would panic.
pub fn try_polish_quick(text: &str) -> (r: Option<String>)
    ensures
        r is Some <==> polish_defined(text@),
        r matches Some(s) ==> s@ == polish(text@),
{
    let chars = chars_of(text);
    let trimmed = trim_chars(&chars);
    if trimmed.len() == 0 {
        return Some(polish_quick(text));
    }
    let s = string_of(&collapse_chars(&trimmed));
    let s = remove_fillers(s.as_str());
    match try_trim_leading_phrases(s) {
        Some(_) => Some(polish_quick(text)),
        None => None,
    }
}


/// Closing punctuation is not whitespace.
proof fn lemma_closing_not_ws(c: char)
    requires
        is_closing_punctuation(c),
    ensures
        !is_ws(c),
{
}

/// Ensuring closing punctuation twice is ensuring it once.
pub proof fn law_ensure_end_idempotent(t: Seq<char>)
    ensures
        ensure_end(ensure_end(t)) == ensure_end(t),
{
    let tr = trim(t);
    lemma_trim_shape(t);
    let e = ensure_end(t);
    if tr.len() > 0 {
        if is_closing_punctuation(tr.last()) {
            lemma_trim_fixed(e);
        } else {
            assert(e[0] == tr[0]);
            lemma_closing_not_ws('.');
            lemma_trim_fixed(e);
        }
        lemma_closing_not_ws(e.last());
    } else {
        assert(trim(Seq::<char>::empty()) =~= Seq::<char>::empty());
    }
}

/// A cleaned transcript is collapsed text, and is empty or ends with closing
/// punctuation.
pub proof fn law_polish_shape(t: Seq<char>)
    ensures
        is_collapsed(polish(t)),
        polish(t).len() == 0 || is_closing_punctuation(polish(t).last()),
        trim(t).len() == 0 ==> polish(t).len() == 0,
{
    if trim(t).len() > 0 {
        let e = ensure_end(capitalize(fix_i(remove_dups(trim_leading(before_leading_trim(t))))));
        law_collapse_normalizes(e);
        if e.len() > 0 {
            lemma_closing_not_ws(e.last());
            lemma_collapse_keeps_last(e);
        } else {
            assert(e =~= Seq::<char>::empty());
            assert(crate::text::words(e) =~= Seq::<Seq<char>>::empty());
        }
    } else {
        assert(is_collapsed(Seq::<char>::empty()));
    }
}

/// Keeping the first of each run of words equal up to case: no two adjacent
/// kept words are equal up to case, and the last kept word equals the last
/// word up to case.
pub proof fn law_dedup_adjacent_distinct(ws: Seq<Seq<char>>)
    ensures
        ws.len() > 0 ==> dedup_words(ws).len() > 0 && unicode_lowercase(dedup_words(ws).last())
            == unicode_lowercase(ws.last()),
        forall|k: int|
            0 <= k < dedup_words(ws).len() - 1 ==> unicode_lowercase(#[trigger] dedup_words(ws)[k])
                != unicode_lowercase(dedup_words(ws)[k + 1]),
    decreases ws.len(),
{
    if ws.len() > 0 {
        let front = ws.drop_last();
        law_dedup_adjacent_distinct(front);
        let d = dedup_words(front);
        if ws.len() >= 2 && unicode_lowercase(ws.last()) == unicode_lowercase(ws[ws.len() - 2]) {
            assert(front.last() == ws[ws.len() - 2]);
        } else {
            let d2 = d.push(ws.last());
            assert forall|k: int| 0 <= k < d2.len() - 1 implies unicode_lowercase(#[trigger] d2[k])
                != unicode_lowercase(d2[k + 1]) by {
                if k < d.len() - 1 {
                    assert(d2[k] == d[k]);
                    assert(d2[k + 1] == d[k + 1]);
                } else {
                    assert(d2[k] == d.last());
                    assert(front.last() == ws[ws.len() - 2]);
                }
            }
        }
    }
}

/// The pronoun fix changes only standalone `i`, into `I`, and keeps the length.
pub proof fn law_fix_i_changes_only_i(t: Seq<char>)
    ensures
        fix_i(t).len() == t.len(),
        forall|k: int| 0 <= k < t.len() && #[trigger] fix_i(t)[k] != t[k] ==> t[k] == 'i'
            && fix_i(t)[k] == 'I',
{
}


/// A standalone `i` always becomes `I`: wherever the text has `i` with no
/// letter or digit just before it and none just after it (whatever other
/// character follows, an apostrophe or punctuation included), the result
/// has `I`; every other character is kept as it is.
pub proof fn law_fix_i_capitalizes_lone_i(t: Seq<char>)
    ensures
        fix_i(t).len() == t.len(),
        forall|k: int|
            0 <= k < t.len() && t[k] == 'i' && (k == 0 || !unicode_alphanumeric(t[k - 1])) && (k
                + 1 == t.len() || !unicode_alphanumeric(t[k + 1])) ==> #[trigger] fix_i(t)[k]
                == 'I',
        forall|k: int|
            0 <= k < t.len() && !(t[k] == 'i' && (k == 0 || !unicode_alphanumeric(t[k - 1])) && (
            k + 1 == t.len() || !unicode_alphanumeric(t[k + 1]))) ==> #[trigger] fix_i(t)[k]
                == t[k],
{
}

/// Closing the transcript: blank text gives the empty text; text whose last
/// non-whitespace character is `.`, `!`, `?`, `,`, `:` or `;` is only trimmed,
/// nothing appended; any other text is trimmed and gets a final period.
pub proof fn law_ensure_end_keeps_closing_punctuation(t: Seq<char>)
    ensures
        trim(t).len() == 0 ==> ensure_end(t).len() == 0,
        trim(t).len() > 0 && (trim(t).last() == '.' || trim(t).last() == '!' || trim(t).last()
            == '?' || trim(t).last() == ',' || trim(t).last() == ':' || trim(t).last() == ';')
            ==> ensure_end(t) == trim(t),
        trim(t).len() > 0 && !(trim(t).last() == '.' || trim(t).last() == '!' || trim(t).last()
            == '?' || trim(t).last() == ',' || trim(t).last() == ':' || trim(t).last() == ';')
            ==> ensure_end(t) == trim(t) + seq!['.'],
{
    assert(trim(t).push('.') =~= trim(t) + seq!['.']);
}

/// The cleanup sees only the words of a transcript: two texts with the same
/// whitespace-separated words, whatever the whitespace between them, are
/// cleaned alike, and cleaning is defined on both or on neither.
pub proof fn law_polish_sees_only_words(a: Seq<char>, b: Seq<char>)
    requires
        words(a) == words(b),
    ensures
        polish(a) == polish(b),
        polish_defined(a) == polish_defined(b),
{
    lemma_words_trim(a);
    lemma_words_trim(b);
    assert(collapse(trim(a)) == collapse(trim(b)));
}

} // verus!
