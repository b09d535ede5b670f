//! Filler removal: whole-word occurrences of filler words and phrases are
//! found in the UTF-8 bytes of the lowercased transcript, and the characters
//! of the transcript that start at those bytes are dropped.

use vstd::prelude::*;
use vstd::utf8::{encode_scalar, encode_utf8, is_ascii_chars, is_ascii_chars_encode_utf8};
use crate::text::{
    chars_of, lemma_encode_utf8_take, string_of, to_lowercase, unicode_lowercase, utf8_len,
};

verus! {

/// The filler words and phrases that cleanup removes, in the order they are scanned.
pub open spec fn filler_words() -> Seq<Seq<char>> {
    seq![
        seq!['u', 'm'],
        seq!['u', 'h'],
        seq!['u', 'h', 'h'],
        seq!['u', 'm', 'm'],
        seq!['e', 'r'],
        seq!['a', 'h'],
        seq!['h', 'm', 'm'],
        seq!['h', 'm'],
        seq!['l', 'i', 'k', 'e'],
        seq!['y', 'o', 'u', ' ', 'k', 'n', 'o', 'w'],
        seq!['s', 'o', 'r', 't', ' ', 'o', 'f'],
        seq!['k', 'i', 'n', 'd', ' ', 'o', 'f'],
        seq!['i', ' ', 'm', 'e', 'a', 'n'],
        seq!['b', 'a', 's', 'i', 'c', 'a', 'l', 'l', 'y'],
        seq!['l', 'i', 't', 'e', 'r', 'a', 'l', 'l', 'y'],
        seq!['a', 'c', 't', 'u', 'a', 'l', 'l', 'y'],
        seq!['s', 'o'],
        seq!['w', 'e', 'l', 'l'],
        seq!['o', 'k', 'a', 'y'],
        seq!['r', 'i', 'g', 'h', 't'],
    ]
}

/// The number of filler words and phrases.
pub open spec fn num_fillers() -> int {
    20
}

/// Filler number `i` (of `num_fillers()`).
fn filler(i: usize) -> (f: &'static str)
    requires
        i < num_fillers(),
    ensures
        f@ == filler_words()[i as int],
{
    match i {
        0 => {
            proof {
                reveal_strlit("um");
            }
            assert("um"@ =~= seq!['u', 'm']);
            "um"
        },
        1 => {
            proof {
                reveal_strlit("uh");
            }
            assert("uh"@ =~= seq!['u', 'h']);
            "uh"
        },
        2 => {
            proof {
                reveal_strlit("uhh");
            }
            assert("uhh"@ =~= seq!['u', 'h', 'h']);
            "uhh"
        },
        3 => {
            proof {
                reveal_strlit("umm");
            }
            assert("umm"@ =~= seq!['u', 'm', 'm']);
            "umm"
        },
        4 => {
            proof {
                reveal_strlit("er");
            }
            assert("er"@ =~= seq!['e', 'r']);
            "er"
        },
        5 => {
            proof {
                reveal_strlit("ah");
            }
            assert("ah"@ =~= seq!['a', 'h']);
            "ah"
        },
        6 => {
            proof {
                reveal_strlit("hmm");
            }
            assert("hmm"@ =~= seq!['h', 'm', 'm']);
            "hmm"
        },
        7 => {
            proof {
                reveal_strlit("hm");
            }
            assert("hm"@ =~= seq!['h', 'm']);
            "hm"
        },
        8 => {
            proof {
                reveal_strlit("like");
            }
            assert("like"@ =~= seq!['l', 'i', 'k', 'e']);
            "like"
        },
        9 => {
            proof {
                reveal_strlit("you know");
            }
            assert("you know"@ =~= seq!['y', 'o', 'u', ' ', 'k', 'n', 'o', 'w']);
            "you know"
        },
        10 => {
            proof {
                reveal_strlit("sort of");
            }
            assert("sort of"@ =~= seq!['s', 'o', 'r', 't', ' ', 'o', 'f']);
            "sort of"
        },
        11 => {
            proof {
                reveal_strlit("kind of");
            }
            assert("kind of"@ =~= seq!['k', 'i', 'n', 'd', ' ', 'o', 'f']);
            "kind of"
        },
        12 => {
            proof {
                reveal_strlit("i mean");
            }
            assert("i mean"@ =~= seq!['i', ' ', 'm', 'e', 'a', 'n']);
            "i mean"
        },
        13 => {
            proof {
                reveal_strlit("basically");
            }
            assert("basically"@ =~= seq!['b', 'a', 's', 'i', 'c', 'a', 'l', 'l', 'y']);
            "basically"
        },
        14 => {
            proof {
                reveal_strlit("literally");
            }
            assert("literally"@ =~= seq!['l', 'i', 't', 'e', 'r', 'a', 'l', 'l', 'y']);
            "literally"
        },
        15 => {
            proof {
                reveal_strlit("actually");
            }
            assert("actually"@ =~= seq!['a', 'c', 't', 'u', 'a', 'l', 'l', 'y']);
            "actually"
        },
        16 => {
            proof {
                reveal_strlit("so");
            }
            assert("so"@ =~= seq!['s', 'o']);
            "so"
        },
        17 => {
            proof {
                reveal_strlit("well");
            }
            assert("well"@ =~= seq!['w', 'e', 'l', 'l']);
            "well"
        },
        18 => {
            proof {
                reveal_strlit("okay");
            }
            assert("okay"@ =~= seq!['o', 'k', 'a', 'y']);
            "okay"
        },
        _ => {
            proof {
                reveal_strlit("right");
            }
            assert("right"@ =~= seq!['r', 'i', 'g', 'h', 't']);
            "right"
        },
    }
}


/// The bytes of filler number `i`, as `str::find` compares them.
pub open spec fn filler_bytes(i: int) -> Seq<u8> {
    encode_utf8(filler_words()[i])
}

/// What `u8::is_ascii_alphanumeric` answers: an ASCII digit or letter.
pub open spec fn is_ascii_alnum(b: u8) -> bool {
    (0x30 <= b <= 0x39) || (0x41 <= b <= 0x5A) || (0x61 <= b <= 0x7A)
}

/// Whether `b` is an ASCII digit or letter.
fn ascii_alnum(b: u8) -> (r: bool)
    ensures
        r == is_ascii_alnum(b),
{
    (0x30 <= b && b <= 0x39) || (0x41 <= b && b <= 0x5A) || (0x61 <= b && b <= 0x7A)
}

/// `pat` appears in `h` starting at byte `p`.
pub open spec fn matches_at(h: Seq<u8>, pat: Seq<u8>, p: int) -> bool {
    0 <= p && p + pat.len() <= h.len() && h.subrange(p, p + pat.len()) == pat
}

/// `pat` appears in `h` at byte `p` as a whole word: no ASCII letter or digit
/// touches it on either side.
pub open spec fn occurs_at(h: Seq<u8>, pat: Seq<u8>, p: int) -> bool {
    &&& matches_at(h, pat, p)
    &&& (p == 0 || !is_ascii_alnum(h[p - 1]))
    &&& (p + pat.len() >= h.len() || !is_ascii_alnum(h[p + pat.len()]))
}

/// Byte `j` of `h` lies inside a whole-word occurrence of `pat`.
pub open spec fn covered(h: Seq<u8>, pat: Seq<u8>, j: int) -> bool {
    exists|p: int| #[trigger] occurs_at(h, pat, p) && p <= j < p + pat.len()
}

/// Byte `j` of `h` lies inside a whole-word occurrence of `pat` that starts before `s`.
pub open spec fn covered_before(h: Seq<u8>, pat: Seq<u8>, j: int, s: int) -> bool {
    exists|p: int| #[trigger] occurs_at(h, pat, p) && p < s && p <= j < p + pat.len()
}

/// Byte `j` of `h` lies inside a whole-word occurrence of one of the first `n` fillers.
pub open spec fn marked_by(h: Seq<u8>, j: int, n: int) -> bool {
    exists|i: int| 0 <= i < n && #[trigger] covered(h, filler_bytes(i), j)
}

/// Byte `j` of `h` lies inside a whole-word occurrence of a filler.
pub open spec fn marked(h: Seq<u8>, j: int) -> bool {
    marked_by(h, j, num_fillers())
}

/// Two occurrences of `pat` cannot overlap: its first byte, or its last,
/// appears nowhere else in it.
pub open spec fn self_disjoint(pat: Seq<u8>) -> bool {
    ||| (forall|j: int| 1 <= j < pat.len() ==> #[trigger] pat[j] != pat[0])
    ||| (forall|j: int| 0 <= j < pat.len() - 1 ==> #[trigger] pat[j] != pat[pat.len() - 1])
}

/// Occurrences of a self-disjoint pattern never overlap.
proof fn lemma_no_overlap(h: Seq<u8>, pat: Seq<u8>, p: int, q: int)
    requires
        self_disjoint(pat),
        matches_at(h, pat, p),
        matches_at(h, pat, q),
        p < q,
    ensures
        q >= p + pat.len(),
{
    if q < p + pat.len() {
        let n = pat.len();
        assert(h.subrange(p, p + n)[q - p] == h[q]);
        assert(h.subrange(q, q + n)[0] == h[q]);
        assert(h.subrange(p, p + n)[n - 1] == h[p + n - 1]);
        assert(h.subrange(q, q + n)[p + n - 1 - q] == h[p + n - 1]);
    }
}

/// Distinct ASCII characters have distinct bytes.
proof fn lemma_ascii_byte_injective(c: char, d: char)
    requires
        c as u32 <= 0x7f,
        d as u32 <= 0x7f,
        c != d,
    ensures
        c as u8 != d as u8,
{
    let x = c as u32;
    let y = d as u32;
    assert(x != y);
    assert(x <= 0x7f && y <= 0x7f && x != y ==> x as u8 != y as u8) by (bit_vector);
    assert(c as u8 == x as u8);
    assert(d as u8 == y as u8);
}

/// No filler can overlap itself.
proof fn lemma_filler_self_disjoint(i: int)
    requires
        0 <= i < num_fillers(),
    ensures
        self_disjoint(filler_bytes(i)),
        filler_bytes(i).len() == filler_words()[i].len(),
        filler_bytes(i).len() >= 2,
{
    let w = filler_words()[i];
    assert(is_ascii_chars(w));
    is_ascii_chars_encode_utf8(w);
    let b = filler_bytes(i);
    let n = w.len();
    if forall|j: int| 1 <= j < n ==> #[trigger] w[j] != w[0] {
        assert forall|j: int| 1 <= j < b.len() implies #[trigger] b[j] != b[0] by {
            lemma_ascii_byte_injective(w[j], w[0]);
        }
    } else {
        assert(forall|j: int| 0 <= j < n - 1 ==> #[trigger] w[j] != w[n - 1]);
        assert forall|j: int| 0 <= j < b.len() - 1 implies #[trigger] b[j] != b[b.len() - 1] by {
            lemma_ascii_byte_injective(w[j], w[n - 1]);
        }
    }
}


/// Whether `pat` appears in `h` at byte `p`.
fn bytes_match(h: &[u8], pat: &[u8], p: usize) -> (b: bool)
    requires
        p + pat@.len() <= h@.len(),
    ensures
        b == matches_at(h@, pat@, p as int),
{
    let m = pat.len();
    let n = h.len();
    let mut k: usize = 0;
    while k < m
        invariant
            n == h@.len(),
            m == pat@.len(),
            p + m <= h@.len(),
            k <= m,
            forall|j: int| 0 <= j < k ==> h@[p + j] == pat@[j],
        decreases m - k,
    {
        if h[p + k] != pat[k] {
            assert(h@.subrange(p as int, p + m)[k as int] == h@[p + k]);
            return false;
        }
        k += 1;
    }
    assert(h@.subrange(p as int, p + m) =~= pat@);
    true
}

/// The first byte at or after `start` where `pat` appears in `h`
/// (what `str::find` on the tail from `start` reports).
fn find_from(h: &[u8], pat: &[u8], start: usize) -> (r: Option<usize>)
    requires
        start <= h@.len(),
        pat@.len() >= 1,
    ensures
        match r {
            Some(p) => start <= p && matches_at(h@, pat@, p as int) && forall|q: int|
                start <= q < p ==> !#[trigger] matches_at(h@, pat@, q),
            None => forall|q: int| start <= q ==> !#[trigger] matches_at(h@, pat@, q),
        },
{
    let n = h.len();
    let m = pat.len();
    if m > n {
        return None;
    }
    let mut p = start;
    while p <= n - m
        invariant
            n == h@.len(),
            m == pat@.len(),
            1 <= m <= n,
            start <= p,
            forall|q: int| start <= q < p ==> !#[trigger] matches_at(h@, pat@, q),
        decreases n + 1 - p,
    {
        if bytes_match(h, pat, p) {
            return Some(p);
        }
        p += 1;
    }
    None
}

/// Marks every byte of `h` inside a whole-word occurrence of `pat`, keeping
/// the marks already set.
fn mark_pattern(h: &[u8], pat: &[u8], markers: &mut Vec<bool>)
    requires
        old(markers)@.len() == h@.len(),
        pat@.len() >= 1,
        self_disjoint(pat@),
    ensures
        final(markers)@.len() == h@.len(),
        forall|j: int|
            0 <= j < h@.len() ==> #[trigger] final(markers)@[j] == (old(markers)@[j] || covered(
                h@,
                pat@,
                j,
            )),
{
    let n = h.len();
    let m = pat.len();
    let ghost orig = markers@;
    let mut start: usize = 0;
    loop
        invariant
            n == h@.len(),
            m == pat@.len(),
            m >= 1,
            self_disjoint(pat@),
            orig.len() == n,
            start <= n,
            markers@.len() == n,
            forall|j: int|
                0 <= j < n ==> #[trigger] markers@[j] == (orig[j] || covered_before(
                    h@,
                    pat@,
                    j,
                    start as int,
                )),
        ensures
            markers@.len() == n,
            forall|j: int|
                0 <= j < n ==> #[trigger] markers@[j] == (orig[j] || covered(h@, pat@, j)),
        decreases n - start,
    {
        match find_from(h, pat, start) {
            None => {
                assert forall|j: int| 0 <= j < n implies #[trigger] markers@[j] == (orig[j]
                    || covered(h@, pat@, j)) by {
                    if covered(h@, pat@, j) {
                        let p = choose|p: int| #[trigger]
                            occurs_at(h@, pat@, p) && p <= j < p + pat@.len();
                        assert(covered_before(h@, pat@, j, start as int));
                    }
                    if covered_before(h@, pat@, j, start as int) {
                        let p = choose|p: int| #[trigger]
                            occurs_at(h@, pat@, p) && p < start && p <= j < p + pat@.len();
                        assert(covered(h@, pat@, j));
                    }
                }
                break;
            },
            Some(p) => {
                let end = p + m;
                let before_ok = p == 0 || !ascii_alnum(h[p - 1]);
                let after_ok = end >= n || !ascii_alnum(h[end]);
                let ok = before_ok && after_ok;
                assert(ok == occurs_at(h@, pat@, p as int));
                let ghost prev = markers@;
                if ok {
                    let mut k = p;
                    while k < end
                        invariant
                            p <= k <= end <= n,
                            markers@.len() == n,
                            forall|j: int|
                                0 <= j < n ==> #[trigger] markers@[j] == (prev[j] || (p <= j
                                    < k)),
                        decreases end - k,
                    {
                        markers.set(k, true);
                        k += 1;
                    }
                }
                assert forall|j: int| 0 <= j < n implies #[trigger] markers@[j] == (orig[j]
                    || covered_before(h@, pat@, j, end as int)) by {
                    if covered_before(h@, pat@, j, end as int) {
                        let q = choose|q: int| #[trigger]
                            occurs_at(h@, pat@, q) && q < end && q <= j < q + pat@.len();
                        if q >= start && q < p {
                        } else if q > p {
                            lemma_no_overlap(h@, pat@, p as int, q);
                        } else if q < start {
                            assert(covered_before(h@, pat@, j, start as int));
                        }
                    }
                    if covered_before(h@, pat@, j, start as int) {
                        let q = choose|q: int| #[trigger]
                            occurs_at(h@, pat@, q) && q < start && q <= j < q + pat@.len();
                        assert(covered_before(h@, pat@, j, end as int));
                    }
                    if ok && p <= j < end {
                        assert(covered_before(h@, pat@, j, end as int));
                    }
                }
                start = end;
            },
        }
    }
}

/// For each byte of `h`: whether it lies inside a whole-word filler.
fn mark_fillers(h: &[u8]) -> (markers: Vec<bool>)
    ensures
        markers@.len() == h@.len(),
        forall|j: int| 0 <= j < h@.len() ==> #[trigger] markers@[j] == marked(h@, j),
{
    let mut markers = vec![false; h.len()];
    for i in 0..20
        invariant
            markers@.len() == h@.len(),
            forall|j: int|
                0 <= j < h@.len() ==> #[trigger] markers@[j] == marked_by(h@, j, i as int),
    {
        let f = filler(i);
        let pat = f.as_bytes();
        proof {
            lemma_filler_self_disjoint(i as int);
        }
        let ghost prev = markers@;
        mark_pattern(h, pat, &mut markers);
        assert forall|j: int| 0 <= j < h@.len() implies #[trigger] markers@[j] == marked_by(
            h@,
            j,
            i + 1,
        ) by {
            if marked_by(h@, j, i + 1) {
                let ii = choose|ii: int| 0 <= ii < i + 1 && #[trigger] covered(h@, filler_bytes(ii), j);
                if ii < i {
                    assert(marked_by(h@, j, i as int));
                }
            }
            if marked_by(h@, j, i as int) {
                let ii = choose|ii: int| 0 <= ii < i && #[trigger] covered(h@, filler_bytes(ii), j);
                assert(marked_by(h@, j, i + 1));
            }
            if covered(h@, filler_bytes(i as int), j) {
                assert(marked_by(h@, j, i + 1));
            }
        }
    }
    markers
}


/// The characters of `t` that do not start at a marked byte of `h`, where a
/// character starts at the byte offset of its UTF-8 encoding within `t`.
pub open spec fn strip_marked(t: Seq<char>, h: Seq<u8>) -> Seq<char>
    decreases t.len(),
{
    if t.len() == 0 {
        seq![]
    } else {
        let rest = strip_marked(t.drop_last(), h);
        if marked(h, encode_utf8(t.drop_last()).len() as int) {
            rest
        } else {
            rest.push(t.last())
        }
    }
}

/// `t` without the whole-word fillers found in its lowercase form: the
/// characters of `t` at the byte offsets covered by a filler in the UTF-8
/// bytes of `unicode_lowercase(t)` are dropped.
pub open spec fn strip_fillers(t: Seq<char>) -> Seq<char> {
    strip_marked(t, encode_utf8(unicode_lowercase(t)))
}

/// Removes filler words and phrases ("um", "you know", "basically", ...)
/// wherever they stand as whole words, matching without regard to case.
pub fn remove_fillers(text: &str) -> (r: String)
    ensures
        r@ == strip_fillers(text@),
{
    let lower = to_lowercase(text);
    let h = lower.as_str().as_bytes();
    let markers = mark_fillers(h);
    let chars = chars_of(text);
    let total = text.as_bytes().len();
    let mut out: Vec<char> = Vec::new();
    let mut off: usize = 0;
    for k in 0..chars.len()
        invariant
            chars@ == text@,
            h@ == encode_utf8(unicode_lowercase(text@)),
            markers@.len() == h@.len(),
            forall|j: int| 0 <= j < h@.len() ==> #[trigger] markers@[j] == marked(h@, j),
            total == encode_utf8(text@).len(),
            off == encode_utf8(chars@.take(k as int)).len(),
            out@ == strip_marked(chars@.take(k as int), h@),
    {
        let c = chars[k];
        proof {
            lemma_encode_utf8_take(chars@, k as int);
            let t = chars@.take(k + 1);
            assert(t.drop_last() =~= chars@.take(k as int));
            assert(t.last() == c);
            if off >= markers@.len() {
                if marked(h@, off as int) {
                    let i = choose|i: int|
                        0 <= i < num_fillers() && #[trigger] covered(h@, filler_bytes(i), off as int);
                    let p = choose|p: int| #[trigger]
                        occurs_at(h@, filler_bytes(i), p) && p <= off < p + filler_bytes(i).len();
                }
            }
        }
        let is_marked = off < markers.len() && markers[off];
        if !is_marked {
            out.push(c);
        }
        off = off + utf8_len(c);
    }
    proof {
        assert(chars@.take(chars@.len() as int) =~= chars@);
    }
    string_of(&out)
}


/// With no byte marked, every character is kept.
proof fn lemma_strip_nothing_marked(t: Seq<char>, h: Seq<u8>)
    requires
        forall|j: int| !#[trigger] marked(h, j),
    ensures
        strip_marked(t, h) == t,
    decreases t.len(),
{
    if t.len() > 0 {
        lemma_strip_nothing_marked(t.drop_last(), h);
        assert(!marked(h, encode_utf8(t.drop_last()).len() as int));
        assert(t.drop_last().push(t.last()) =~= t);
    }
}

/// Text whose lowercase holds no whole-word filler comes through filler
/// removal unchanged.
pub proof fn law_no_filler_unchanged(t: Seq<char>)
    requires
        forall|j: int| !#[trigger] marked(encode_utf8(unicode_lowercase(t)), j),
    ensures
        strip_fillers(t) == t,
{
    lemma_strip_nothing_marked(t, encode_utf8(unicode_lowercase(t)));
}

/// Filler removal only drops characters: what is left is never longer.
pub proof fn law_fillers_only_drop(t: Seq<char>, h: Seq<u8>)
    ensures
        strip_marked(t, h).len() <= t.len(),
    decreases t.len(),
{
    if t.len() > 0 {
        law_fillers_only_drop(t.drop_last(), h);
    }
}


/// A whole-word occurrence of filler number `i` marks each of its bytes.
proof fn lemma_filler_marks(h: Seq<u8>, i: int, p: int, j: int)
    requires
        0 <= i < num_fillers(),
        occurs_at(h, filler_bytes(i), p),
        p <= j < p + filler_bytes(i).len(),
    ensures
        marked(h, j),
{
    assert(covered(h, filler_bytes(i), j));
}

/// Each filler word and phrase (um, uh, uhh, umm, er, ah, hmm, hm, like,
/// you know, sort of, kind of, i mean, basically, literally, actually, so,
/// well, okay, right) is caught wherever it stands as a whole word in the
/// lowercased text: every byte of the occurrence is marked for removal.
pub proof fn law_every_filler_marked(h: Seq<u8>, f: Seq<char>, p: int, j: int)
    requires
        f == seq!['u', 'm'] || f == seq!['u', 'h'] || f == seq!['u', 'h', 'h'] || f == seq!['u', 'm', 'm'] || f == seq!['e', 'r'] || f == seq!['a', 'h'] || f == seq!['h', 'm', 'm'] || f == seq!['h', 'm'] || f == seq!['l', 'i', 'k', 'e'] || f == seq!['y', 'o', 'u', ' ', 'k', 'n', 'o', 'w'] || f == seq!['s', 'o', 'r', 't', ' ', 'o', 'f'] || f == seq!['k', 'i', 'n', 'd', ' ', 'o', 'f'] || f == seq!['i', ' ', 'm', 'e', 'a', 'n'] || f == seq!['b', 'a', 's', 'i', 'c', 'a', 'l', 'l', 'y'] || f == seq!['l', 'i', 't', 'e', 'r', 'a', 'l', 'l', 'y'] || f == seq!['a', 'c', 't', 'u', 'a', 'l', 'l', 'y'] || f == seq!['s', 'o'] || f == seq!['w', 'e', 'l', 'l'] || f == seq!['o', 'k', 'a', 'y'] || f == seq!['r', 'i', 'g', 'h', 't'],
        occurs_at(h, encode_utf8(f), p),
        p <= j < p + encode_utf8(f).len(),
    ensures
        marked(h, j),
{
    if f == seq!['u', 'm'] {
        lemma_filler_marks(h, 0, p, j);
    } else if f == seq!['u', 'h'] {
        lemma_filler_marks(h, 1, p, j);
    } else if f == seq!['u', 'h', 'h'] {
        lemma_filler_marks(h, 2, p, j);
    } else if f == seq!['u', 'm', 'm'] {
        lemma_filler_marks(h, 3, p, j);
    } else if f == seq!['e', 'r'] {
        lemma_filler_marks(h, 4, p, j);
    } else if f == seq!['a', 'h'] {
        lemma_filler_marks(h, 5, p, j);
    } else if f == seq!['h', 'm', 'm'] {
        lemma_filler_marks(h, 6, p, j);
    } else if f == seq!['h', 'm'] {
        lemma_filler_marks(h, 7, p, j);
    } else if f == seq!['l', 'i', 'k', 'e'] {
        lemma_filler_marks(h, 8, p, j);
    } else if f == seq!['y', 'o', 'u', ' ', 'k', 'n', 'o', 'w'] {
        lemma_filler_marks(h, 9, p, j);
    } else if f == seq!['s', 'o', 'r', 't', ' ', 'o', 'f'] {
        lemma_filler_marks(h, 10, p, j);
    } else if f == seq!['k', 'i', 'n', 'd', ' ', 'o', 'f'] {
        lemma_filler_marks(h, 11, p, j);
    } else if f == seq!['i', ' ', 'm', 'e', 'a', 'n'] {
        lemma_filler_marks(h, 12, p, j);
    } else if f == seq!['b', 'a', 's', 'i', 'c', 'a', 'l', 'l', 'y'] {
        lemma_filler_marks(h, 13, p, j);
    } else if f == seq!['l', 'i', 't', 'e', 'r', 'a', 'l', 'l', 'y'] {
        lemma_filler_marks(h, 14, p, j);
    } else if f == seq!['a', 'c', 't', 'u', 'a', 'l', 'l', 'y'] {
        lemma_filler_marks(h, 15, p, j);
    } else if f == seq!['s', 'o'] {
        lemma_filler_marks(h, 16, p, j);
    } else if f == seq!['w', 'e', 'l', 'l'] {
        lemma_filler_marks(h, 17, p, j);
    } else if f == seq!['o', 'k', 'a', 'y'] {
        lemma_filler_marks(h, 18, p, j);
    } else if f == seq!['r', 'i', 'g', 'h', 't'] {
        lemma_filler_marks(h, 19, p, j);
    }
}


/// With every byte of `h` below the encoding's length of `t` marked, no
/// character of the first `n` characters of `t` is kept.
proof fn lemma_strip_all_marked(t: Seq<char>, n: int, h: Seq<u8>)
    requires
        0 <= n <= t.len(),
        forall|j: int| 0 <= j < encode_utf8(t).len() ==> #[trigger] marked(h, j),
    ensures
        strip_marked(t.take(n), h).len() == 0,
    decreases n,
{
    if n > 0 {
        lemma_strip_all_marked(t, n - 1, h);
        lemma_encode_utf8_take(t, n - 1);
        assert(t.take(n).drop_last() =~= t.take(n - 1));
        let off = encode_utf8(t.take(n - 1)).len() as int;
        assert(encode_scalar(t[n - 1] as u32).len() >= 1);
        assert(marked(h, off));
    }
}

/// A filler standing alone, already in lowercase, is removed entirely:
/// nothing is left of it.
pub proof fn law_lone_filler_removed(t: Seq<char>)
    requires
        t == seq!['u', 'm'] || t == seq!['u', 'h'] || t == seq!['u', 'h', 'h'] || t == seq!['u', 'm', 'm'] || t == seq!['e', 'r'] || t == seq!['a', 'h'] || t == seq!['h', 'm', 'm'] || t == seq!['h', 'm'] || t == seq!['l', 'i', 'k', 'e'] || t == seq!['y', 'o', 'u', ' ', 'k', 'n', 'o', 'w'] || t == seq!['s', 'o', 'r', 't', ' ', 'o', 'f'] || t == seq!['k', 'i', 'n', 'd', ' ', 'o', 'f'] || t == seq!['i', ' ', 'm', 'e', 'a', 'n'] || t == seq!['b', 'a', 's', 'i', 'c', 'a', 'l', 'l', 'y'] || t == seq!['l', 'i', 't', 'e', 'r', 'a', 'l', 'l', 'y'] || t == seq!['a', 'c', 't', 'u', 'a', 'l', 'l', 'y'] || t == seq!['s', 'o'] || t == seq!['w', 'e', 'l', 'l'] || t == seq!['o', 'k', 'a', 'y'] || t == seq!['r', 'i', 'g', 'h', 't'],
        unicode_lowercase(t) == t,
    ensures
        strip_fillers(t).len() == 0,
{
    let h = encode_utf8(t);
    assert(h.subrange(0, h.len() as int) =~= h);
    assert(occurs_at(h, encode_utf8(t), 0));
    assert forall|j: int| 0 <= j < encode_utf8(t).len() implies #[trigger] marked(h, j) by {
        law_every_filler_marked(h, t, 0, j);
    }
    lemma_strip_all_marked(t, t.len() as int, h);
    assert(t.take(t.len() as int) =~= t);
}

} // verus!
