use rsllm::speech_text::prepare_speech_text;
use rsllm::{adjust_caps, clean_tts_input, count_tokens, hexdump_ascii, hexdump_report, truncate_tokens};

#[test]
fn count_tokens_splits_long_words_in_fours() {
    assert_eq!(count_tokens("Hello world"), 4);
    assert_eq!(count_tokens("a bc def ghij"), 4);
    assert_eq!(count_tokens("abcdefghi"), 3);
    assert_eq!(count_tokens("abcdefgh"), 2);
}

#[test]
fn count_tokens_of_blank_text_is_zero() {
    assert_eq!(count_tokens(""), 0);
    assert_eq!(count_tokens("   \n\t "), 0);
}

#[test]
fn count_tokens_counts_characters_not_bytes() {
    // four two-byte characters make one token, five make two
    assert_eq!(count_tokens("éééé"), 1);
    assert_eq!(count_tokens("ééééé"), 2);
}

#[test]
fn count_tokens_of_mixed_scripts() {
    // a three-character, nine-byte word and a nine-character word
    assert_eq!(count_tokens("日本語 abcdefghi"), 4);
}

#[test]
fn count_tokens_splits_at_whitespace_beyond_ascii() {
    assert_eq!(count_tokens("ab\u{3000}cd"), 2);
    assert_eq!(count_tokens("ab\u{a0}cd\u{2028}ef"), 3);
    assert_eq!(count_tokens("abcd\u{200b}efgh"), 3);
}

#[test]
fn truncate_tokens_keeps_short_text_as_it_is() {
    assert_eq!(truncate_tokens("Hello world", 4), "Hello world");
    assert_eq!(truncate_tokens("  a  b ", 5), "  a  b ");
    assert_eq!(truncate_tokens("", 0), "");
}

#[test]
fn truncate_tokens_joins_the_first_tokens() {
    assert_eq!(truncate_tokens("Hello world", 3), "Hell o worl");
    assert_eq!(truncate_tokens("one two   three", 2), "one two");
    assert_eq!(truncate_tokens("abc", 0), "");
}

#[test]
fn truncate_tokens_result_has_at_most_max_tokens() {
    let text = "The quick brown fox jumps over the extraordinarily lazy dog";
    for max in 0..20 {
        let r = truncate_tokens(text, max);
        let n = count_tokens(text);
        assert_eq!(count_tokens(&r), if n <= max { n } else { max });
    }
}

#[test]
fn adjust_caps_capitalises_each_word() {
    assert_eq!(adjust_caps("hELLO wORLD"), "Hello World");
    assert_eq!(adjust_caps("  MULTIPLE   spaces here "), "Multiple Spaces Here");
    assert_eq!(adjust_caps(""), "");
}

#[test]
fn adjust_caps_uses_unicode_case_mapping() {
    assert_eq!(adjust_caps("éCOLE"), "École");
    assert_eq!(adjust_caps("ß"), "SS");
}

#[test]
fn clean_tts_input_squeezes_dots_and_drops_marker() {
    assert_eq!(clean_tts_input("Hello...  world <|im_end|>".to_string()), "Hello. world");
}

#[test]
fn clean_tts_input_trims_trailing_punctuation() {
    assert_eq!(clean_tts_input("Wow!!! This is great...".to_string()), "Wow!!! This is great");
    assert_eq!(clean_tts_input("Hi ,there ! <|im_end|>".to_string()), "Hi,there");
}

#[test]
fn clean_tts_input_tightens_spacing_before_commas() {
    assert_eq!(clean_tts_input("Hello ,  world...<|im_end|>".to_string()), "Hello, world");
}

#[test]
fn clean_tts_input_strips_leading_punctuation_of_sentences() {
    assert_eq!(clean_tts_input("Hello. ,world".to_string()), "Hello. world");
}

#[test]
fn clean_tts_input_stops_at_first_non_ascii_character() {
    assert_eq!(clean_tts_input("Café au lait".to_string()), "Caf");
}

#[test]
fn clean_tts_input_drops_symbols() {
    assert_eq!(clean_tts_input("Hi 😀 there".to_string()), "Hi  there");
}

#[test]
fn clean_tts_input_of_dots_only_is_empty() {
    assert_eq!(clean_tts_input("...".to_string()), "");
    assert_eq!(clean_tts_input(String::new()), "");
}

#[test]
fn clean_tts_input_result_is_ascii_and_ends_alphanumeric() {
    let inputs = [
        "a...b.. c",
        "x ? y !",
        "¿Qué? ... sí.",
        "<|im_end|>...",
        "ok ; fine :",
        "tab\there\nnew  line\r\n",
        "wide\u{3000}space ~ 42 #",
    ];
    for input in inputs {
        let r = clean_tts_input(input.to_string());
        assert!(r.is_ascii());
        assert!(r.chars().all(|c| c.is_ascii_alphanumeric() || c == ' ' || c.is_ascii_punctuation()));
        assert!(!r.contains(".."));
        assert!(r.is_empty() || r.chars().last().unwrap().is_ascii_alphanumeric());
    }
}

#[test]
fn prepare_speech_text_adjusts_caps_and_cleans() {
    assert_eq!(prepare_speech_text("HELLO   WORLD ..."), "Hello World");
    assert_eq!(prepare_speech_text("the CAT sat. on the MAT!"), "The Cat Sat. On The Mat");
    assert_eq!(prepare_speech_text(""), "");
}

#[test]
fn hexdump_ascii_short_line() {
    assert_eq!(hexdump_ascii(&[0x41, 0x42, 0x00], 0, 3), "\n0000: 41 42 00  | AB.");
}

#[test]
fn hexdump_ascii_honours_offset() {
    assert_eq!(hexdump_ascii(&[0, 1, b'H', b'i', 7], 2, 2), "\n0000: 48 69  | Hi");
}

#[test]
fn hexdump_ascii_full_line_then_partial() {
    let bytes: Vec<u8> = (0x30u8..=0x40).collect();
    let expected = "\n0000: 30 31 32 33 34 35 36 37 38 39 3a 3b 3c 3d 3e 3f  | 0123456789:;<=>?\n0010: 40  | @";
    assert_eq!(hexdump_ascii(&bytes, 0, 17), expected);
}

#[test]
fn hexdump_ascii_of_nothing_is_empty() {
    assert_eq!(hexdump_ascii(&[1, 2, 3], 1, 0), "");
}

#[test]
fn hexdump_report_has_header_and_footer() {
    let r = hexdump_report(&[0xde, 0xad, 0xbe, 0xef], 1, 2);
    assert_eq!(r, "--- Packet Offset 1 Packet Length 2 ---\n\n0000: ad be \n---");
}

#[test]
fn prepared_speech_is_ascii_and_ends_alphanumeric() {
    for input in ["ÉCOLE... de NUIT !!", "a .. b", "  ", "Why? Because.", "x\u{1F600}y"] {
        let r = prepare_speech_text(input);
        assert!(r.is_ascii());
        assert!(!r.contains(".."));
        assert!(r.is_empty() || r.chars().last().unwrap().is_alphanumeric());
    }
}

#[test]
fn adjust_caps_twice_is_once_on_ascii() {
    for p in ["hELLO wORLD", "  the QUICK\tbrown\nfox ", "ALL-CAPS and 123abc", ""] {
        let once = adjust_caps(p);
        assert!(once.is_ascii());
        assert_eq!(adjust_caps(&once), once);
    }
}

#[test]
fn count_tokens_adds_over_a_space() {
    let pairs = [("Hello world", "abcdefghi"), ("", "x"), ("  a ", " bcdefgh "), ("", "")];
    for (a, b) in pairs {
        assert_eq!(count_tokens(&format!("{} {}", a, b)), count_tokens(a) + count_tokens(b));
    }
}
