use vtt::polish::{
    capitalize_sentences, collapse_whitespace, ensure_end_punctuation, fix_i_pronoun,
    is_word_boundary_after, is_word_boundary_before, polish_quick, remove_duplicate_words,
    remove_fillers, try_polish_quick, try_trim_leading_phrases,
};

#[test]
fn removes_fillers() {
    let s = polish_quick("um this is like a test you know");
    assert!(!s.to_lowercase().contains(" um "));
    assert!(!s.to_lowercase().contains(" like "));
}

#[test]
fn fixes_i() {
    assert!(polish_quick("i think so").starts_with("I"));
}

#[test]
fn polish_full_pipeline_values() {
    assert_eq!(polish_quick("um this is like a test you know"), "This is a test.");
    assert_eq!(polish_quick("i think so"), "I think.");
    assert_eq!(polish_quick("so well okay this is it"), "This is it.");
    assert_eq!(polish_quick("the the The cat sat sat"), "The cat sat.");
    assert_eq!(polish_quick("i am here and i think it's fine"), "I am here and I think it's fine.");
    assert_eq!(polish_quick("hello. world! how are you? fine"), "Hello. World! How are you? Fine.");
    assert_eq!(polish_quick("  hi there  "), "Hi there.");
    assert_eq!(polish_quick("Um, I think, like, basically it works"), ", I think, , it works.");
    assert_eq!(polish_quick("iPhone i i"), "IPhone I.");
    assert_eq!(polish_quick("yeah yeah yeah"), "Yeah.");
}

#[test]
fn polish_blank_and_all_filler_input_is_empty() {
    assert_eq!(polish_quick(""), "");
    assert_eq!(polish_quick("   \t\n "), "");
    assert_eq!(polish_quick("sort of kind of"), "");
    assert_eq!(polish_quick("so"), "");
}

#[test]
fn polish_output_is_collapsed_and_punctuated() {
    for input in ["um  hello   there", "right now", "what?", "a,b", "well well well"] {
        let out = polish_quick(input);
        assert!(!out.contains("  "));
        assert_eq!(out.trim(), out);
        if let Some(last) = out.chars().last() {
            assert!(".!?,:;".contains(last));
        }
    }
}

#[test]
fn try_polish_agrees_with_polish() {
    assert_eq!(try_polish_quick("hello"), Some("Hello.".to_string()));
    assert_eq!(try_polish_quick(""), Some(String::new()));
    assert_eq!(try_polish_quick("okay so i mean yes"), Some(polish_quick("okay so i mean yes")));
}

#[test]
fn collapse_whitespace_values() {
    assert_eq!(collapse_whitespace("  hello \t  world\n"), "hello world");
    assert_eq!(collapse_whitespace(""), "");
    assert_eq!(collapse_whitespace(" \u{3000} "), "");
    assert_eq!(collapse_whitespace("a\u{2003}b"), "a b");
    let once = collapse_whitespace(" x  y ");
    assert_eq!(collapse_whitespace(&once), once);
}

#[test]
fn remove_fillers_values() {
    assert_eq!(remove_fillers("um this is like a test you know"), " this is  a test ");
    assert_eq!(remove_fillers("Um, I think, like, basically it works"), ", I think, ,  it works");
    assert_eq!(remove_fillers("umbrella um hmm"), "umbrella  ");
    assert_eq!(remove_fillers("UM okay"), " ");
    assert_eq!(remove_fillers("nothing here"), "nothing here");
}

#[test]
fn trim_leading_phrases_values() {
    assert_eq!(try_trim_leading_phrases("so well okay this is it".to_string()), Some("this is it".to_string()));
    assert_eq!(try_trim_leading_phrases("yeah yeah yeah".to_string()), Some("yeah".to_string()));
    assert_eq!(try_trim_leading_phrases("Right   now".to_string()), Some("now".to_string()));
    assert_eq!(try_trim_leading_phrases("Well, so what".to_string()), Some("Well, so what".to_string()));
    assert_eq!(try_trim_leading_phrases(String::new()), Some(String::new()));
}

#[test]
fn remove_duplicate_words_values() {
    assert_eq!(remove_duplicate_words("the the The cat sat sat"), "the cat sat");
    assert_eq!(remove_duplicate_words("Hello HELLO world"), "Hello world");
    assert_eq!(remove_duplicate_words("   "), "");
    assert_eq!(remove_duplicate_words("a b a"), "a b a");
}

#[test]
fn fix_i_pronoun_values() {
    assert_eq!(fix_i_pronoun("i am here and i think"), "I am here and I think");
    assert_eq!(fix_i_pronoun("iPhone i2 hi i."), "iPhone i2 hi I.");
    assert_eq!(fix_i_pronoun("i"), "I");
}

#[test]
fn word_boundary_values() {
    let chars: Vec<char> = "a i b".chars().collect();
    assert!(is_word_boundary_before(&chars, 2));
    assert!(is_word_boundary_after(&chars, 2));
    assert!(!is_word_boundary_before(&chars, 1));
    assert!(is_word_boundary_before(&chars, 0));
    assert!(is_word_boundary_after(&chars, 4));
    assert!(!is_word_boundary_after(&chars, 3));
}

#[test]
fn capitalize_sentences_values() {
    assert_eq!(capitalize_sentences("hello. world! how are you? fine"), "Hello. World! How are you? Fine");
    assert_eq!(capitalize_sentences("  hi there  "), "  Hi there  ");
    assert_eq!(capitalize_sentences("\u{df} is sharp"), "SS is sharp");
    assert_eq!(capitalize_sentences("1. 2. three"), "1. 2. Three");
}

#[test]
fn ensure_end_punctuation_values() {
    assert_eq!(ensure_end_punctuation("  hello  "), "hello.");
    assert_eq!(ensure_end_punctuation("hello!"), "hello!");
    assert_eq!(ensure_end_punctuation("wait,"), "wait,");
    assert_eq!(ensure_end_punctuation("   "), "");
    let once = ensure_end_punctuation("x y");
    assert_eq!(ensure_end_punctuation(&once), once);
}

#[test]
fn polish_sees_only_words() {
    assert_eq!(polish_quick("i  think\tso\n"), polish_quick("i think so"));
    assert_eq!(polish_quick(" um\u{2003}hello   world "), polish_quick("um hello world"));
}
