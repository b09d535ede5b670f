//! Turning the speech model's output into a transcript: the language asked
//! for, and the segments joined into one text.

use vstd::prelude::*;
use crate::text::{chars_of, string_of, str_eq, trim, trim_chars};

verus! {

/// Why loading the model or transcribing failed.
pub enum TranscribeError {
    Load(String),
    Inference(String),
}

/// The language set on the model: none (detect it) for `None` or `"auto"`,
/// else the one given.
pub fn whisper_language(language: Option<&str>) -> (r: Option<&str>)
    ensures
        language is None ==> r is None,
        language matches Some(l) ==> (l@ == "auto"@ ==> r is None),
        language matches Some(l) ==> (l@ != "auto"@ ==> (r matches Some(x) && x@ == l@)),
{
    match language {
        None => None,
        Some(l) => {
            if str_eq(l, "auto") {
                None
            } else {
                Some(l)
            }
        },
    }
}

/// The text of the first `n` of the model's segments (`None` where a segment
/// could not be read): each readable segment trimmed, followed by a space
/// unless it is the last segment of all.
pub open spec fn segments_text(segs: Seq<Option<String>>, n: int) -> Seq<char>
    decreases n,
{
    if n <= 0 {
        seq![]
    } else {
        segments_text(segs, n - 1) + match segs[n - 1] {
            Some(t) => trim(t@) + if n < segs.len() {
                seq![' ']
            } else {
                Seq::<char>::empty()
            },
            None => Seq::<char>::empty(),
        }
    }
}

/// The transcript from the model's segments: their text, trimmed.
pub open spec fn transcript_of(segs: Seq<Option<String>>) -> Seq<char> {
    trim(segments_text(segs, segs.len() as int))
}

/// Joins the model's segments into the transcript.
pub fn join_segments(segments: &Vec<Option<String>>) -> (r: String)
    ensures
        r@ == transcript_of(segments@),
{
    let n = segments.len();
    let mut text: Vec<char> = Vec::new();
    for i in 0..n
        invariant
            n == segments@.len(),
            text@ == segments_text(segments@, i as int),
    {
        match &segments[i] {
            Some(seg) => {
                let piece = trim_chars(&chars_of(seg.as_str()));
                crate::text::append_chars(&mut text, &piece);
                if i + 1 < n {
                    text.push(' ');
                }
            },
            None => {},
        }
        assert(text@ =~= segments_text(segments@, i + 1));
    }
    string_of(&trim_chars(&text))
}

} // verus!
