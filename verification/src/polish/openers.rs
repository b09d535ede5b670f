//! Cutting conversational openers ("so", "well", "okay", "yeah", "right")
//! from the start of a transcript, again and again.

use vstd::prelude::*;
use vstd::utf8::encode_utf8;
use crate::text::{
    chars_of, lemma_encode_utf8_take, lemma_trim_start_len, string_of, sub_chars, to_lowercase,
    trim_start, trim_start_chars, unicode_lowercase, utf8_len,
};

verus! {

/// The openers that cleanup drops from the start of a transcript, in the
/// order they are tried.
pub open spec fn leading_phrases() -> Seq<Seq<char>> {
    seq![
        seq!['s', 'o', ' '],
        seq!['w', 'e', 'l', 'l', ' '],
        seq!['o', 'k', 'a', 'y', ' '],
        seq!['y', 'e', 'a', 'h', ' '],
        seq!['r', 'i', 'g', 'h', 't', ' '],
    ]
}

/// The number of leading phrases.
pub open spec fn num_leading_phrases() -> int {
    5
}

/// Leading phrase number `i` (of `num_leading_phrases()`).
fn leading_phrase(i: usize) -> (f: &'static str)
    requires
        i < num_leading_phrases(),
    ensures
        f@ == leading_phrases()[i as int],
{
    match i {
        0 => {
            proof {
                reveal_strlit("so ");
            }
            assert("so "@ =~= seq!['s', 'o', ' ']);
            "so "
        },
        1 => {
            proof {
                reveal_strlit("well ");
            }
            assert("well "@ =~= seq!['w', 'e', 'l', 'l', ' ']);
            "well "
        },
        2 => {
            proof {
                reveal_strlit("okay ");
            }
            assert("okay "@ =~= seq!['o', 'k', 'a', 'y', ' ']);
            "okay "
        },
        3 => {
            proof {
                reveal_strlit("yeah ");
            }
            assert("yeah "@ =~= seq!['y', 'e', 'a', 'h', ' ']);
            "yeah "
        },
        _ => {
            proof {
                reveal_strlit("right ");
            }
            assert("right "@ =~= seq!['r', 'i', 'g', 'h', 't', ' ']);
            "right "
        },
    }
}

/// `s` begins with `p`.
pub open spec fn begins_with(s: Seq<char>, p: Seq<char>) -> bool {
    p.len() <= s.len() && s.subrange(0, p.len() as int) == p
}

/// The first leading phrase, from number `i` on, that `lower` begins with.
pub open spec fn first_phrase_from(lower: Seq<char>, i: int) -> Option<int>
    decreases num_leading_phrases() - i,
{
    if i < 0 || i >= num_leading_phrases() {
        None
    } else if begins_with(lower, leading_phrases()[i]) {
        Some(i)
    } else {
        first_phrase_from(lower, i + 1)
    }
}

/// The first leading phrase that `lower` begins with.
pub open spec fn first_phrase(lower: Seq<char>) -> Option<int> {
    first_phrase_from(lower, 0)
}

/// The number of UTF-8 bytes that encode the first `k` characters of `t`.
pub open spec fn byte_offset(t: Seq<char>, k: int) -> int {
    encode_utf8(t.take(k)).len() as int
}

/// Byte `n` of `t`'s UTF-8 encoding starts a character (or ends the text).
pub open spec fn is_boundary(t: Seq<char>, n: int) -> bool {
    exists|k: int| 0 <= k <= t.len() && #[trigger] byte_offset(t, k) == n
}

/// The index of the character that starts at byte `n` of `t`.
pub open spec fn char_index_at(t: Seq<char>, n: int) -> int {
    choose|k: int| 0 <= k <= t.len() && #[trigger] byte_offset(t, k) == n
}

/// Byte offsets grow strictly with the character index.
proof fn lemma_byte_offset_increasing(t: Seq<char>, a: int, b: int)
    requires
        0 <= a < b <= t.len(),
    ensures
        byte_offset(t, a) < byte_offset(t, b),
    decreases b - a,
{
    lemma_encode_utf8_take(t, b - 1);
    if a < b - 1 {
        lemma_byte_offset_increasing(t, a, b - 1);
    }
}

/// `t` with the leading phrases repeatedly removed from its start: while the
/// lowercase of `t` begins with one of them, the bytes it spans are cut from
/// `t` and the leading whitespace after them dropped.
pub open spec fn trim_leading(t: Seq<char>) -> Seq<char>
    decreases t.len(),
{
    match first_phrase(unicode_lowercase(t)) {
        None => t,
        Some(i) => {
            let n = leading_phrases()[i].len() as int;
            let k = char_index_at(t, n);
            if is_boundary(t, n) && 0 < k <= t.len() {
                proof {
                    lemma_trim_start_len(t.skip(k));
                }
                trim_leading(trim_start(t.skip(k)))
            } else {
                t
            }
        },
    }
}

/// Cutting the leading phrases from `t` never splits a character: each cut
/// falls on a character boundary of `t`'s UTF-8 bytes, as slicing a `str`
/// at a byte index requires.
pub open spec fn trim_leading_defined(t: Seq<char>) -> bool
    decreases t.len(),
{
    match first_phrase(unicode_lowercase(t)) {
        None => true,
        Some(i) => {
            let n = leading_phrases()[i].len() as int;
            let k = char_index_at(t, n);
            if is_boundary(t, n) && 0 < k <= t.len() {
                proof {
                    lemma_trim_start_len(t.skip(k));
                }
                trim_leading_defined(trim_start(t.skip(k)))
            } else {
                false
            }
        },
    }
}


/// Whether `s` begins with `p`.
fn begins_with_chars(s: &Vec<char>, p: &Vec<char>) -> (b: bool)
    ensures
        b == begins_with(s@, p@),
{
    if p.len() > s.len() {
        return false;
    }
    let mut k: usize = 0;
    while k < p.len()
        invariant
            p@.len() <= s@.len(),
            k <= p@.len(),
            forall|j: int| 0 <= j < k ==> s@[j] == p@[j],
        decreases p@.len() - k,
    {
        if s[k] != p[k] {
            assert(s@.subrange(0, p@.len() as int)[k as int] == s@[k as int]);
            return false;
        }
        k += 1;
    }
    assert(s@.subrange(0, p@.len() as int) =~= p@);
    true
}

/// The first leading phrase that `lower` begins with.
fn find_leading_phrase(lower: &Vec<char>) -> (r: Option<usize>)
    ensures
        r matches Some(i) ==> first_phrase(lower@) == Some(i as int) && i < num_leading_phrases(),
        r is None ==> first_phrase(lower@) is None,
{
    let mut i: usize = 0;
    while i < 5
        invariant
            i <= 5,
            first_phrase(lower@) == first_phrase_from(lower@, i as int),
        decreases 5 - i,
    {
        let p = chars_of(leading_phrase(i));
        if begins_with_chars(lower, &p) {
            return Some(i);
        }
        i += 1;
    }
    None
}

/// The index of the character of `t` that starts at byte `n` of its UTF-8
/// encoding, if one does.
fn char_index_at_byte(t: &Vec<char>, n: usize) -> (r: Option<usize>)
    ensures
        r is Some <==> is_boundary(t@, n as int),
        r matches Some(k) ==> k == char_index_at(t@, n as int) && k <= t@.len() && byte_offset(
            t@,
            k as int,
        ) == n,
{
    let mut k: usize = 0;
    let mut off: usize = 0;
    proof {
        assert(t@.take(0) =~= Seq::<char>::empty());
        assert(encode_utf8(Seq::<char>::empty()) =~= Seq::<u8>::empty());
    }
    while k < t.len() && off < n
        invariant
            k <= t@.len(),
            off == byte_offset(t@, k as int),
            off <= n,
            forall|j: int| 0 <= j < k ==> #[trigger] byte_offset(t@, j) < n,
        decreases t@.len() - k,
    {
        proof {
            lemma_encode_utf8_take(t@, k as int);
        }
        let w = utf8_len(t[k]);
        if w > n - off {
            k += 1;
            proof {
                assert forall|j: int| 0 <= j <= t@.len() implies #[trigger] byte_offset(t@, j)
                    != n by {
                    if j < k {
                    } else if j > k {
                        lemma_byte_offset_increasing(t@, k as int, j);
                    }
                }
            }
            return None;
        }
        off = off + w;
        k += 1;
    }
    if off == n {
        proof {
            assert forall|j: int| 0 <= j <= t@.len() && #[trigger] byte_offset(t@, j) == n
                implies j == k by {
                if j < k {
                    lemma_byte_offset_increasing(t@, j, k as int);
                } else if j > k {
                    lemma_byte_offset_increasing(t@, k as int, j);
                }
            }
            assert(byte_offset(t@, k as int) == n);
        }
        Some(k)
    } else {
        proof {
            assert forall|j: int| 0 <= j <= t@.len() implies #[trigger] byte_offset(t@, j) != n by {
                if j < k {
                } else if j > k {
                    lemma_byte_offset_increasing(t@, k as int, j);
                }
            }
        }
        None
    }
}

/// Drops leading openers ("so", "well", "okay", "yeah", "right") from the
/// start of the text, again and again, with the whitespace after each;
/// `None` where cutting an opener's bytes would split a character.
pub fn try_trim_leading_phrases(text: String) -> (r: Option<String>)
    ensures
        r is Some <==> trim_leading_defined(text@),
        r matches Some(s) ==> s@ == trim_leading(text@),
{
    let mut cur = chars_of(text.as_str());
    loop
        invariant
            trim_leading(cur@) == trim_leading(text@),
            trim_leading_defined(cur@) == trim_leading_defined(text@),
        decreases cur@.len(),
    {
        let lower = chars_of(to_lowercase(string_of(&cur).as_str()).as_str());
        match find_leading_phrase(&lower) {
            None => {
                return Some(string_of(&cur));
            },
            Some(i) => {
                let phrase = chars_of(leading_phrase(i));
                let n = phrase.len();
                match char_index_at_byte(&cur, n) {
                    None => {
                        return None;
                    },
                    Some(k) => {
                        assert(leading_phrases()[i as int].len() > 0);
                        if k == 0 {
                            assert(byte_offset(cur@, 0) == 0) by {
                                assert(cur@.take(0) =~= Seq::<char>::empty());
                                assert(encode_utf8(Seq::<char>::empty()) =~= Seq::<u8>::empty());
                            }
                            return None;
                        }
                        let rest = sub_chars(&cur, k, cur.len());
                        assert(rest@ =~= cur@.skip(k as int));
                        proof {
                            lemma_trim_start_len(rest@);
                        }
                        cur = trim_start_chars(&rest);
                    },
                }
            },
        }
    }
}


/// Drops leading openers from the start of the text (see `try_trim_leading_phrases`).
pub(crate) fn trim_leading_phrases(text: String) -> (r: String)
    requires
        trim_leading_defined(text@),
    ensures
        r@ == trim_leading(text@),
{
    try_trim_leading_phrases(text).unwrap()
}

/// Once the leading openers are cut, the lowercase text begins with none of them.
pub proof fn law_trim_leading_complete(t: Seq<char>)
    requires
        trim_leading_defined(t),
    ensures
        first_phrase(unicode_lowercase(trim_leading(t))) is None,
    decreases t.len(),
{
    match first_phrase(unicode_lowercase(t)) {
        None => {},
        Some(i) => {
            let n = leading_phrases()[i].len() as int;
            let k = char_index_at(t, n);
            lemma_trim_start_len(t.skip(k));
            law_trim_leading_complete(trim_start(t.skip(k)));
        },
    }
}

} // verus!
