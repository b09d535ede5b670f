//! Character-level building blocks shared by the transcript cleanup rules:
//! the Unicode whitespace set, trimming, word splitting and joining, and the
//! case and classification queries that the standard library answers.

use vstd::prelude::*;
use vstd::utf8::{char_is_scalar, encode_scalar, encode_utf8, encode_utf8_decode_utf8};

verus! {

/// The Unicode `White_Space` property, which `char::is_whitespace` tests.
pub open spec fn is_ws(c: char) -> bool {
    let u = c as u32;
    ||| 0x09 <= u <= 0x0D
    ||| u == 0x20
    ||| u == 0x85
    ||| u == 0xA0
    ||| u == 0x1680
    ||| 0x2000 <= u <= 0x200A
    ||| u == 0x2028
    ||| u == 0x2029
    ||| u == 0x202F
    ||| u == 0x205F
    ||| u == 0x3000
}

/// Whether `c` is Unicode whitespace.
pub fn is_whitespace(c: char) -> (r: bool)
    ensures
        r == is_ws(c),
{
    let u = c as u32;
    (0x09 <= u && u <= 0x0D) || u == 0x20 || u == 0x85 || u == 0xA0 || u == 0x1680 || (0x2000
        <= u && u <= 0x200A) || u == 0x2028 || u == 0x2029 || u == 0x202F || u == 0x205F || u
        == 0x3000
}

/// The characters of a string slice, in order.
pub fn chars_of(s: &str) -> (v: Vec<char>)
    ensures
        v@ == s@,
{
    let mut v: Vec<char> = Vec::new();
    for c in it: s.chars()
        invariant
            v@ == it.seq().take(it.index() as int),
            it.seq() == s@,
    {
        v.push(c);
    }
    v
}


/// Calls `<String as FromIterator<&char>>::from_iter` on the characters of `v`;
/// claimed: the string holds exactly those characters, in order.
#[verifier::external_body]
pub(crate) fn string_of(v: &Vec<char>) -> (s: String)
    ensures
        s@ == v@,
{
    v.iter().collect()
}

/// `out` extended by the characters of `w`.
pub fn append_chars(out: &mut Vec<char>, w: &Vec<char>)
    ensures
        final(out)@ == old(out)@ + w@,
{
    let ghost start = out@;
    for i in 0..w.len()
        invariant
            out@ == start + w@.take(i as int),
    {
        out.push(w[i]);
        assert(w@.take(i + 1) =~= w@.take(i as int).push(w@[i as int]));
    }
    assert(w@.take(w@.len() as int) =~= w@);
}

/// The characters of `v` from index `from` up to (not including) `to`.
pub fn sub_chars(v: &Vec<char>, from: usize, to: usize) -> (r: Vec<char>)
    requires
        from <= to <= v@.len(),
    ensures
        r@ == v@.subrange(from as int, to as int),
{
    let mut r: Vec<char> = Vec::new();
    let mut i = from;
    while i < to
        invariant
            from <= i <= to <= v@.len(),
            r@ == v@.subrange(from as int, i as int),
        decreases to - i,
    {
        r.push(v[i]);
        assert(v@.subrange(from as int, i + 1) =~= v@.subrange(from as int, i as int).push(
            v@[i as int],
        ));
        i = i + 1;
    }
    r
}

/// `s` without its leading whitespace (what `str::trim_start` gives).
pub open spec fn trim_start(s: Seq<char>) -> Seq<char>
    decreases s.len(),
{
    if s.len() > 0 && is_ws(s[0]) {
        trim_start(s.drop_first())
    } else {
        s
    }
}

/// `s` without its trailing whitespace (what `str::trim_end` gives).
pub open spec fn trim_end(s: Seq<char>) -> Seq<char>
    decreases s.len(),
{
    if s.len() > 0 && is_ws(s.last()) {
        trim_end(s.drop_last())
    } else {
        s
    }
}

/// `s` without leading and trailing whitespace (what `str::trim` gives).
pub open spec fn trim(s: Seq<char>) -> Seq<char> {
    trim_end(trim_start(s))
}

proof fn lemma_trim_start_skip(s: Seq<char>, i: int)
    requires
        0 <= i <= s.len(),
        forall|j: int| 0 <= j < i ==> is_ws(#[trigger] s[j]),
    ensures
        trim_start(s) == trim_start(s.subrange(i, s.len() as int)),
    decreases i,
{
    if i > 0 {
        lemma_trim_start_skip(s, i - 1);
        let t = s.subrange(i - 1, s.len() as int);
        assert(t[0] == s[i - 1]);
        assert(t.drop_first() =~= s.subrange(i, s.len() as int));
    } else {
        assert(s.subrange(0, s.len() as int) =~= s);
    }
}

proof fn lemma_trim_end_take(s: Seq<char>, j: int)
    requires
        0 <= j <= s.len(),
        forall|k: int| j <= k < s.len() ==> is_ws(#[trigger] s[k]),
    ensures
        trim_end(s) == trim_end(s.subrange(0, j)),
    decreases s.len() - j,
{
    if j < s.len() {
        lemma_trim_end_take(s, j + 1);
        let t = s.subrange(0, j + 1);
        assert(t.last() == s[j]);
        assert(t.drop_last() =~= s.subrange(0, j));
    } else {
        assert(s.subrange(0, j) =~= s);
    }
}

/// `s` without its leading whitespace.
pub fn trim_start_chars(s: &Vec<char>) -> (r: Vec<char>)
    ensures
        r@ == trim_start(s@),
{
    let mut i: usize = 0;
    while i < s.len() && is_whitespace(s[i])
        invariant
            i <= s@.len(),
            forall|j: int| 0 <= j < i ==> is_ws(#[trigger] s@[j]),
        decreases s@.len() - i,
    {
        i = i + 1;
    }
    proof {
        lemma_trim_start_skip(s@, i as int);
    }
    sub_chars(s, i, s.len())
}

/// `s` without its trailing whitespace.
pub fn trim_end_chars(s: &Vec<char>) -> (r: Vec<char>)
    ensures
        r@ == trim_end(s@),
{
    let mut j: usize = s.len();
    while j > 0 && is_whitespace(s[j - 1])
        invariant
            j <= s@.len(),
            forall|k: int| j <= k < s@.len() ==> is_ws(#[trigger] s@[k]),
        decreases j,
    {
        j = j - 1;
    }
    proof {
        lemma_trim_end_take(s@, j as int);
    }
    sub_chars(s, 0, j)
}

/// `s` without leading and trailing whitespace.
pub fn trim_chars(s: &Vec<char>) -> (r: Vec<char>)
    ensures
        r@ == trim(s@),
{
    let t = trim_start_chars(s);
    trim_end_chars(&t)
}


/// The whitespace-separated words of `s` (what `str::split_whitespace` yields),
/// described by the last character: whitespace ends the current word, any
/// other character extends it, or starts a new one after whitespace.
pub open spec fn words(s: Seq<char>) -> Seq<Seq<char>>
    decreases s.len(),
{
    if s.len() == 0 {
        seq![]
    } else {
        let w = words(s.drop_last());
        let c = s.last();
        if is_ws(c) {
            w
        } else if s.len() >= 2 && !is_ws(s[s.len() - 2]) {
            w.update(w.len() - 1, w.last().push(c))
        } else {
            w.push(seq![c])
        }
    }
}

/// `ws` joined with single spaces (what `[&str]::join(" ")` gives).
pub open spec fn join_words(ws: Seq<Seq<char>>) -> Seq<char>
    decreases ws.len(),
{
    if ws.len() == 0 {
        seq![]
    } else if ws.len() == 1 {
        ws[0]
    } else {
        join_words(ws.drop_last()) + seq![' '] + ws.last()
    }
}

/// Every run of whitespace replaced by one space, with none at either end.
pub open spec fn collapse(s: Seq<char>) -> Seq<char> {
    join_words(words(s))
}

/// A word: non-empty, without whitespace.
pub open spec fn is_word(w: Seq<char>) -> bool {
    w.len() > 0 && forall|k: int| 0 <= k < w.len() ==> !is_ws(#[trigger] w[k])
}

/// Every element of `ws` is a word.
pub open spec fn all_words(ws: Seq<Seq<char>>) -> bool {
    forall|k: int| 0 <= k < ws.len() ==> is_word(#[trigger] ws[k])
}

/// The words of `s` are words, and there is a last one whenever `s` ends in a
/// non-whitespace character; that last word then ends with it.
pub proof fn lemma_words_shape(s: Seq<char>)
    ensures
        all_words(words(s)),
        s.len() > 0 && !is_ws(s.last()) ==> words(s).len() > 0 && words(s).last().last()
            == s.last(),
    decreases s.len(),
{
    if s.len() > 0 {
        lemma_words_shape(s.drop_last());
        let w = words(s.drop_last());
        let c = s.last();
        if !is_ws(c) && s.len() >= 2 && !is_ws(s[s.len() - 2]) {
            assert(s.drop_last().last() == s[s.len() - 2]);
            let x = w.last().push(c);
            assert forall|k: int| 0 <= k < x.len() implies !is_ws(#[trigger] x[k]) by {
                if k < x.len() - 1 {
                    assert(x[k] == w.last()[k]);
                }
            }
            assert(is_word(x));
        }
    }
}

/// The words of the first `i + 1` characters, from those of the first `i`.
proof fn lemma_words_step(s: Seq<char>, i: int)
    requires
        0 <= i < s.len(),
    ensures
        words(s.take(i + 1)) == (if is_ws(s[i]) {
            words(s.take(i))
        } else if i >= 1 && !is_ws(s[i - 1]) {
            words(s.take(i)).update(
                words(s.take(i)).len() - 1,
                words(s.take(i)).last().push(s[i]),
            )
        } else {
            words(s.take(i)).push(seq![s[i]])
        }),
{
    let t = s.take(i + 1);
    assert(t.drop_last() =~= s.take(i));
    assert(t.last() == s[i]);
    if i >= 1 {
        assert(t[t.len() - 2] == s[i - 1]);
    }
}

/// The first `i + 1` words joined, from the first `i` joined.
proof fn lemma_join_step(ws: Seq<Seq<char>>, i: int)
    requires
        0 <= i < ws.len(),
    ensures
        join_words(ws.take(i + 1)) == (if i == 0 {
            ws[0]
        } else {
            join_words(ws.take(i)) + seq![' '] + ws[i]
        }),
{
    let t = ws.take(i + 1);
    assert(t.drop_last() =~= ws.take(i));
}

/// The character sequences held by a vector of character vectors.
pub open spec fn views(ws: Seq<Vec<char>>) -> Seq<Seq<char>> {
    Seq::new(ws.len(), |i: int| ws[i]@)
}

/// The words of the characters of `s`.
pub fn split_words(s: &Vec<char>) -> (ws: Vec<Vec<char>>)
    ensures
        views(ws@) == words(s@),
{
    let mut ws: Vec<Vec<char>> = Vec::new();
    let mut cur: Vec<char> = Vec::new();
    let mut in_word = false;
    for i in 0..s.len()
        invariant
            in_word == (i > 0 && !is_ws(s@[i - 1])),
            in_word ==> words(s@.take(i as int)) == views(ws@).push(cur@),
            !in_word ==> words(s@.take(i as int)) == views(ws@),
    {
        let c = s[i];
        proof {
            lemma_words_step(s@, i as int);
        }
        if is_whitespace(c) {
            if in_word {
                let ghost before = views(ws@);
                let ghost cv = cur@;
                ws.push(cur);
                assert(views(ws@) =~= before.push(cv));
                cur = Vec::new();
                in_word = false;
            }
        } else if in_word {
            let ghost before = cur@;
            cur.push(c);
            assert(words(s@.take(i as int)).last() == before);
            assert(views(ws@).push(cur@) =~= words(s@.take(i as int)).update(
                words(s@.take(i as int)).len() - 1,
                before.push(c),
            ));
        } else {
            cur = Vec::new();
            cur.push(c);
            in_word = true;
            assert(cur@ =~= seq![c]);
        }
    }
    if in_word {
        let ghost before = views(ws@);
        let ghost cv = cur@;
        ws.push(cur);
        assert(views(ws@) =~= before.push(cv));
    }
    assert(s@.take(s@.len() as int) =~= s@);
    ws
}

/// The words of `ws` joined with single spaces.
pub fn join_with_spaces(ws: &Vec<Vec<char>>) -> (r: Vec<char>)
    ensures
        r@ == join_words(views(ws@)),
{
    let ghost wsv = views(ws@);
    let mut r: Vec<char> = Vec::new();
    for i in 0..ws.len()
        invariant
            wsv == views(ws@),
            r@ == join_words(wsv.take(i as int)),
    {
        proof {
            lemma_join_step(wsv, i as int);
        }
        if i > 0 {
            r.push(' ');
        }
        append_chars(&mut r, &ws[i]);
    }
    assert(wsv.take(ws.len() as int) =~= wsv);
    r
}

/// Whitespace runs collapsed to single spaces, none at either end.
pub fn collapse_chars(s: &Vec<char>) -> (r: Vec<char>)
    ensures
        r@ == collapse(s@),
{
    let ws = split_words(s);
    join_with_spaces(&ws)
}


/// What `str::to_lowercase` returns for a string holding `s`: each character
/// mapped through Unicode's lowercase mapping (locale-independent).
pub uninterp spec fn unicode_lowercase(s: Seq<char>) -> Seq<char>;

/// Calls `str::to_lowercase`; claimed: the result holds `unicode_lowercase`
/// of the argument's characters, which depends on them alone. Nothing more
/// is said of the mapping.
#[verifier::external_body]
pub(crate) fn to_lowercase(s: &str) -> (r: String)
    ensures
        r@ == unicode_lowercase(s@),
{
    s.to_lowercase()
}

/// What `char::to_uppercase` yields for `c`: its Unicode uppercase mapping,
/// which may be several characters.
pub uninterp spec fn unicode_uppercase(c: char) -> Seq<char>;

/// Calls `char::to_uppercase`; claimed: the characters it yields are
/// `unicode_uppercase(c)`, a function of `c` alone. Nothing more is said of them.
#[verifier::external_body]
pub(crate) fn to_uppercase(c: char) -> (r: Vec<char>)
    ensures
        r@ == unicode_uppercase(c),
{
    c.to_uppercase().collect()
}

/// What `char::is_alphanumeric` answers for `c` (Unicode Alphabetic or Numeric).
pub uninterp spec fn unicode_alphanumeric(c: char) -> bool;

/// Calls `char::is_alphanumeric`; claimed: the answer is
/// `unicode_alphanumeric(c)`, a function of `c` alone.
#[verifier::external_body]
pub(crate) fn is_alphanumeric(c: char) -> (r: bool)
    ensures
        r == unicode_alphanumeric(c),
{
    c.is_alphanumeric()
}

/// What `char::is_alphabetic` answers for `c` (Unicode Alphabetic property).
pub uninterp spec fn unicode_alphabetic(c: char) -> bool;

/// Calls `char::is_alphabetic`; claimed: the answer is
/// `unicode_alphabetic(c)`, a function of `c` alone.
#[verifier::external_body]
pub(crate) fn is_alphabetic(c: char) -> (r: bool)
    ensures
        r == unicode_alphabetic(c),
{
    c.is_alphabetic()
}


/// The UTF-8 encoding of `a + b` is that of `a` followed by that of `b`.
pub proof fn lemma_encode_utf8_concat(a: Seq<char>, b: Seq<char>)
    ensures
        encode_utf8(a + b) == encode_utf8(a) + encode_utf8(b),
    decreases a.len(),
{
    if a.len() == 0 {
        assert(a + b =~= b);
        assert(encode_utf8(a) =~= Seq::<u8>::empty());
        assert(encode_utf8(a) + encode_utf8(b) =~= encode_utf8(b));
    } else {
        lemma_encode_utf8_concat(a.drop_first(), b);
        assert((a + b).drop_first() =~= a.drop_first() + b);
        assert((a + b)[0] == a[0]);
        assert(encode_scalar(a[0] as u32) + (encode_utf8(a.drop_first()) + encode_utf8(b))
            =~= (encode_scalar(a[0] as u32) + encode_utf8(a.drop_first())) + encode_utf8(b));
    }
}

/// The UTF-8 encoding of the first `k + 1` characters: that of the first `k`,
/// then that of character `k`.
pub proof fn lemma_encode_utf8_take(t: Seq<char>, k: int)
    requires
        0 <= k < t.len(),
    ensures
        encode_utf8(t.take(k + 1)) == encode_utf8(t.take(k)) + encode_scalar(t[k] as u32),
        encode_utf8(t.take(k + 1)).len() <= encode_utf8(t).len(),
{
    lemma_encode_utf8_concat(t.take(k), seq![t[k]]);
    assert(t.take(k) + seq![t[k]] =~= t.take(k + 1));
    assert(seq![t[k]].drop_first() =~= Seq::<char>::empty());
    assert(encode_utf8(Seq::<char>::empty()) =~= Seq::<u8>::empty());
    assert(encode_utf8(seq![t[k]]) =~= encode_scalar(t[k] as u32));
    lemma_encode_utf8_concat(t.take(k + 1), t.skip(k + 1));
    assert(t.take(k + 1) + t.skip(k + 1) =~= t);
}

/// The number of bytes in the UTF-8 encoding of `c` (what `char::len_utf8` gives).
pub fn utf8_len(c: char) -> (n: usize)
    ensures
        n == encode_scalar(c as u32).len(),
        1 <= n <= 4,
{
    proof {
        char_is_scalar(c);
    }
    let u = c as u32;
    if u <= 0x7F {
        1
    } else if u <= 0x7FF {
        2
    } else if u <= 0xFFFF {
        3
    } else {
        4
    }
}


/// Whitespace in `s` is single spaces between other characters: every
/// whitespace character is a space, none stands at either end, and no two
/// stand side by side.
pub open spec fn is_collapsed(s: Seq<char>) -> bool {
    &&& forall|k: int| 0 <= k < s.len() && is_ws(#[trigger] s[k]) ==> s[k] == ' '
    &&& s.len() > 0 ==> !is_ws(s[0]) && !is_ws(s.last())
    &&& forall|k: int| 0 <= k < s.len() - 1 && #[trigger] s[k] == ' ' ==> s[k + 1] != ' '
}

/// The words of one word followed by a space and another word.
proof fn lemma_words_append_word(a: Seq<char>, w: Seq<char>)
    requires
        is_word(w),
    ensures
        words(a + seq![' '] + w) == words(a).push(w),
    decreases w.len(),
{
    let s = a + seq![' '] + w;
    if w.len() == 1 {
        assert(s.drop_last() =~= a + seq![' ']);
        assert((a + seq![' ']).drop_last() =~= a);
        assert(s.last() == w[0]);
        assert(s[s.len() - 2] == ' ');
        assert(seq![w[0]] =~= w);
        assert(!is_ws(w[0]));
        assert(words(a + seq![' ']) == words(a));
        assert(words(s) == words(a + seq![' ']).push(seq![w[0]]));
    } else {
        let w1 = w.drop_last();
        assert(is_word(w1)) by {
            assert forall|k: int| 0 <= k < w1.len() implies !is_ws(#[trigger] w1[k]) by {
                assert(w1[k] == w[k]);
            }
        }
        lemma_words_append_word(a, w1);
        assert(s.drop_last() =~= a + seq![' '] + w1);
        assert(s.last() == w.last());
        assert(s[s.len() - 2] == w[w.len() - 2]);
        let ws = words(a).push(w1);
        assert(w1.push(w.last()) =~= w);
        assert(!is_ws(w.last()));
        assert(!is_ws(w[w.len() - 2]));
        assert(ws.update(ws.len() - 1, ws.last().push(w.last())) =~= words(a).push(w));
    }
}

/// The words of a single word are that word.
proof fn lemma_words_of_word(w: Seq<char>)
    requires
        is_word(w),
    ensures
        words(w) == seq![w],
    decreases w.len(),
{
    if w.len() == 1 {
        assert(w.drop_last() =~= Seq::<char>::empty());
        assert(seq![w[0]] =~= w);
        assert(words(Seq::<char>::empty()) =~= Seq::<Seq<char>>::empty());
        assert(Seq::<Seq<char>>::empty().push(w) =~= seq![w]);
    } else {
        let w1 = w.drop_last();
        assert(is_word(w1)) by {
            assert forall|k: int| 0 <= k < w1.len() implies !is_ws(#[trigger] w1[k]) by {
                assert(w1[k] == w[k]);
            }
        }
        lemma_words_of_word(w1);
        assert(w[w.len() - 2] == w1.last());
        assert(w1.push(w.last()) =~= w);
        assert(seq![w1].update(0, w1.push(w.last())) =~= seq![w]);
    }
}

/// Splitting joined words gives the words back.
pub proof fn lemma_words_join(ws: Seq<Seq<char>>)
    requires
        all_words(ws),
    ensures
        words(join_words(ws)) == ws,
    decreases ws.len(),
{
    if ws.len() == 0 {
        assert(words(Seq::<char>::empty()) =~= Seq::<Seq<char>>::empty());
    } else if ws.len() == 1 {
        assert(is_word(ws[0]));
        lemma_words_of_word(ws[0]);
        assert(seq![ws[0]] =~= ws);
    } else {
        let front = ws.drop_last();
        assert(all_words(front)) by {
            assert forall|k: int| 0 <= k < front.len() implies is_word(#[trigger] front[k]) by {
                assert(front[k] == ws[k]);
            }
        }
        lemma_words_join(front);
        assert(is_word(ws.last()));
        lemma_words_append_word(join_words(front), ws.last());
        assert(front.push(ws.last()) =~= ws);
    }
}

/// Joined words are collapsed text, and end with the last word's last character.
pub proof fn lemma_join_collapsed(ws: Seq<Seq<char>>)
    requires
        all_words(ws),
    ensures
        is_collapsed(join_words(ws)),
        ws.len() > 0 ==> join_words(ws).len() > 0 && join_words(ws).last() == ws.last().last()
            && join_words(ws)[0] == ws[0][0],
    decreases ws.len(),
{
    if ws.len() == 1 {
        assert(is_word(ws[0]));
    } else if ws.len() > 1 {
        let front = ws.drop_last();
        assert(all_words(front)) by {
            assert forall|k: int| 0 <= k < front.len() implies is_word(#[trigger] front[k]) by {
                assert(front[k] == ws[k]);
            }
        }
        lemma_join_collapsed(front);
        let a = join_words(front);
        let w = ws.last();
        assert(is_word(w));
        let s = a + seq![' '] + w;
        assert(s =~= join_words(ws));
        assert forall|k: int| 0 <= k < s.len() && is_ws(#[trigger] s[k]) implies s[k] == ' ' by {
            if k < a.len() {
                assert(s[k] == a[k]);
            } else if k > a.len() {
                assert(s[k] == w[k - a.len() - 1]);
            }
        }
        assert forall|k: int| 0 <= k < s.len() - 1 && #[trigger] s[k] == ' ' implies s[k + 1]
            != ' ' by {
            if k < a.len() - 1 {
                assert(s[k] == a[k]);
                assert(s[k + 1] == a[k + 1]);
            } else if k == a.len() - 1 {
                assert(s[k] == a.last());
            } else if k == a.len() {
                assert(s[k + 1] == w[0]);
            } else {
                assert(s[k] == w[k - a.len() - 1]);
            }
        }
        assert(s[0] == a[0]);
        assert(s.last() == w.last());
    }
}

/// Collapsing gives collapsed text.
pub proof fn law_collapse_normalizes(s: Seq<char>)
    ensures
        is_collapsed(collapse(s)),
{
    lemma_words_shape(s);
    lemma_join_collapsed(words(s));
}

/// Collapsing twice is collapsing once.
pub proof fn law_collapse_idempotent(s: Seq<char>)
    ensures
        collapse(collapse(s)) == collapse(s),
{
    lemma_words_shape(s);
    lemma_words_join(words(s));
}

/// Collapsing keeps a final non-whitespace character where it is: the result
/// is then non-empty and ends with it.
pub proof fn lemma_collapse_keeps_last(s: Seq<char>)
    requires
        s.len() > 0,
        !is_ws(s.last()),
    ensures
        collapse(s).len() > 0,
        collapse(s).last() == s.last(),
{
    lemma_words_shape(s);
    lemma_join_collapsed(words(s));
}



/// What is left after dropping leading whitespace starts with a
/// non-whitespace character.
proof fn lemma_trim_start_shape(s: Seq<char>)
    ensures
        trim_start(s).len() > 0 ==> !is_ws(trim_start(s)[0]),
    decreases s.len(),
{
    if s.len() > 0 && is_ws(s[0]) {
        lemma_trim_start_shape(s.drop_first());
    }
}

/// Dropping trailing whitespace leaves a prefix ending in a non-whitespace character.
proof fn lemma_trim_end_shape(s: Seq<char>)
    ensures
        trim_end(s).len() <= s.len(),
        trim_end(s) == s.take(trim_end(s).len() as int),
        trim_end(s).len() > 0 ==> !is_ws(trim_end(s).last()),
    decreases s.len(),
{
    if s.len() > 0 && is_ws(s.last()) {
        lemma_trim_end_shape(s.drop_last());
        let t = trim_end(s.drop_last());
        assert(s.drop_last().take(t.len() as int) =~= s.take(t.len() as int));
    } else {
        assert(s.take(s.len() as int) =~= s);
    }
}

/// Trimmed text is empty or starts and ends with non-whitespace characters.
pub proof fn lemma_trim_shape(s: Seq<char>)
    ensures
        trim(s).len() > 0 ==> !is_ws(trim(s)[0]) && !is_ws(trim(s).last()),
{
    lemma_trim_start_shape(s);
    lemma_trim_end_shape(trim_start(s));
    let a = trim_start(s);
    if trim(s).len() > 0 {
        assert(trim(s)[0] == a.take(trim(s).len() as int)[0]);
    }
}

/// Text that starts and ends with non-whitespace characters is its own trim.
pub proof fn lemma_trim_fixed(x: Seq<char>)
    requires
        x.len() > 0,
        !is_ws(x[0]),
        !is_ws(x.last()),
    ensures
        trim(x) == x,
{
}

/// Trimming twice is trimming once.
pub proof fn law_trim_idempotent(s: Seq<char>)
    ensures
        trim(trim(s)) == trim(s),
{
    lemma_trim_shape(s);
}


/// Whitespace in front of a text does not change its words.
proof fn lemma_words_prepend_ws(c: char, s: Seq<char>)
    requires
        is_ws(c),
    ensures
        words(seq![c] + s) == words(s),
    decreases s.len(),
{
    let u = seq![c] + s;
    if s.len() == 0 {
        assert(u.drop_last() =~= s);
    } else {
        lemma_words_prepend_ws(c, s.drop_last());
        assert(u.drop_last() =~= seq![c] + s.drop_last());
        assert(u.last() == s.last());
        if s.len() >= 2 {
            assert(u[u.len() - 2] == s[s.len() - 2]);
        } else {
            assert(u[u.len() - 2] == c);
        }
    }
}

/// Dropping leading whitespace keeps the words.
proof fn lemma_words_trim_start(s: Seq<char>)
    ensures
        words(trim_start(s)) == words(s),
    decreases s.len(),
{
    if s.len() > 0 && is_ws(s[0]) {
        lemma_words_trim_start(s.drop_first());
        lemma_words_prepend_ws(s[0], s.drop_first());
        assert(seq![s[0]] + s.drop_first() =~= s);
    }
}

/// Dropping trailing whitespace keeps the words.
proof fn lemma_words_trim_end(s: Seq<char>)
    ensures
        words(trim_end(s)) == words(s),
    decreases s.len(),
{
    if s.len() > 0 && is_ws(s.last()) {
        lemma_words_trim_end(s.drop_last());
    }
}

/// Trimming keeps the words, and leaves nothing exactly when there are none.
pub proof fn lemma_words_trim(s: Seq<char>)
    ensures
        words(trim(s)) == words(s),
        trim(s).len() == 0 <==> words(s).len() == 0,
{
    lemma_words_trim_start(s);
    lemma_words_trim_end(trim_start(s));
    lemma_trim_shape(s);
    lemma_words_shape(trim(s));
    if trim(s).len() == 0 {
        assert(trim(s) =~= Seq::<char>::empty());
    }
}


/// Whether two string slices hold the same characters (what `==` on `str` answers).
pub fn str_eq(a: &str, b: &str) -> (r: bool)
    ensures
        r == (a@ == b@),
{
    let x = a.as_bytes();
    let y = b.as_bytes();
    proof {
        encode_utf8_decode_utf8(a@);
        encode_utf8_decode_utf8(b@);
    }
    if x.len() != y.len() {
        return false;
    }
    let mut i: usize = 0;
    while i < x.len()
        invariant
            x@ == encode_utf8(a@),
            y@ == encode_utf8(b@),
            x@.len() == y@.len(),
            i <= x@.len(),
            forall|j: int| 0 <= j < i ==> x@[j] == y@[j],
        decreases x@.len() - i,
    {
        if x[i] != y[i] {
            return false;
        }
        i += 1;
    }
    assert(x@ =~= y@);
    true
}

/// Dropping leading whitespace never lengthens a sequence.
pub proof fn lemma_trim_start_len(s: Seq<char>)
    ensures
        trim_start(s).len() <= s.len(),
    decreases s.len(),
{
    if s.len() > 0 && is_ws(s[0]) {
        lemma_trim_start_len(s.drop_first());
    }
}

} // verus!
