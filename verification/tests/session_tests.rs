use rsllm::openai_api::Message;
use rsllm::session::{
    batch_ready, chat_format_for, iteration_done, log_level_for, network_stats_question, os_stats_question,
    trim_history, LogLevel, ParagraphSplitter,
};

fn msg(role: &str, content: &str) -> Message {
    Message { role: role.to_string(), content: content.to_string() }
}

fn pairs(ms: &[Message]) -> Vec<(String, String)> {
    ms.iter().map(|m| (m.role.clone(), m.content.clone())).collect()
}

#[test]
fn log_levels() {
    assert_eq!(log_level_for("ERROR"), LogLevel::Error);
    assert_eq!(log_level_for("warn"), LogLevel::Warn);
    assert_eq!(log_level_for("Debug"), LogLevel::Debug);
    assert_eq!(log_level_for("trace"), LogLevel::Trace);
    assert_eq!(log_level_for("info"), LogLevel::Info);
    assert_eq!(log_level_for("verbose"), LogLevel::Info);
}

#[test]
fn chat_formats() {
    assert_eq!(chat_format_for("mistral", "mistralai/Mistral-7B-Instruct-v0.2"), "llama2");
    assert_eq!(chat_format_for("mistral", "7b"), "");
    assert_eq!(chat_format_for("gemma", "2b-it"), "google");
    assert_eq!(chat_format_for("gemma", "7b-it"), "google");
    assert_eq!(chat_format_for("gemma", "2b"), "");
    assert_eq!(chat_format_for("llama", "Instruct"), "");
}

#[test]
fn loop_end() {
    assert!(iteration_done(false, 1, 1));
    assert!(iteration_done(false, 0, 5));
    assert!(!iteration_done(true, 1, 1));
    assert!(!iteration_done(true, 3, 2));
    assert!(iteration_done(true, 3, 3));
    assert!(!iteration_done(false, 3, 1));
}

#[test]
fn packet_batches() {
    assert!(batch_ready(0, 0, 0, 100));
    assert!(!batch_ready(60_000, 60, 500, 100));
    assert!(batch_ready(60_000, 61, 101, 100));
    assert!(!batch_ready(60_000, 61, 100, 100));
}

#[test]
fn history_cut_from_the_end() {
    let h = vec![msg("system", "SYS"), msg("user", "hello"), msg("assistant", "world!"), msg("user", "abc")];
    let r = trim_history(h, 8);
    assert_eq!(
        pairs(&r),
        vec![
            ("system".to_string(), "SYS".to_string()),
            ("user".to_string(), "hello".to_string()),
            ("assistant".to_string(), "wor".to_string()),
            ("user".to_string(), "".to_string()),
        ]
    );
}

#[test]
fn history_puts_system_messages_first() {
    let h = vec![msg("user", "a"), msg("system", "S"), msg("user", "b"), msg("system", "T")];
    let r = trim_history(h, 0);
    assert_eq!(
        pairs(&r),
        vec![
            ("system".to_string(), "S".to_string()),
            ("system".to_string(), "T".to_string()),
            ("user".to_string(), "a".to_string()),
            ("user".to_string(), "b".to_string()),
        ]
    );
}

#[test]
fn history_within_limit_is_kept() {
    let h = vec![msg("user", "short"), msg("assistant", "answer")];
    assert_eq!(pairs(&trim_history(h, 100)), vec![
        ("user".to_string(), "short".to_string()),
        ("assistant".to_string(), "answer".to_string()),
    ]);
}

#[test]
fn history_of_ascii_text_fits_exactly() {
    let h = vec![msg("user", "one two three"), msg("assistant", "four five"), msg("user", "six")];
    for limit in 1..30usize {
        let r = trim_history(h.clone(), limit);
        let total: usize = r.iter().map(|m| m.content.len()).sum();
        assert_eq!(total, limit.min(25));
    }
}

#[test]
fn history_cut_counts_characters_for_bytes() {
    // the cut keeps as many characters as bytes are kept, so wide characters
    // can leave more bytes than the limit
    let r = trim_history(vec![msg("user", "éé")], 3);
    assert_eq!(r[0].content, "éé");
}

#[test]
fn paragraphs_split_at_sentence_end() {
    let mut s = ParagraphSplitter::new();
    let a = s.on_token("Hello", 10, 25, 5);
    assert_eq!(a.printed, "Hello");
    assert!(a.paragraph.is_none());
    let b = s.on_token(" world", 10, 25, 5);
    assert!(b.paragraph.is_none());
    assert_eq!(s.terminal_len, 11);
    let c = s.on_token(". Next", 10, 25, 5);
    assert_eq!(c.paragraph, Some("Hello world.".to_string()));
    assert_eq!(c.printed, ". Next");
    assert_eq!(s.text, " Next");
    assert_eq!(s.count, 1);
    assert_eq!(s.terminal_len, 17);
    let d = s.on_token("\nMore", 10, 25, 5);
    assert!(d.paragraph.is_none());
    assert_eq!(d.printed, "\nMore");
    assert_eq!(s.finish(), Some(" Next\nMore".to_string()));
    assert_eq!(s.count, 2);
    assert_eq!(s.finish(), None);
}

#[test]
fn paragraphs_split_at_line_break() {
    let mut s = ParagraphSplitter::new();
    s.on_token("abcdefgh", 10, 25, 5);
    let r = s.on_token("x\ny", 10, 25, 5);
    assert_eq!(r.paragraph, Some("abcdefghx".to_string()));
    assert_eq!(r.printed, "x\ny");
    assert_eq!(s.text, "y");
    assert_eq!(s.terminal_len, 0);
}

#[test]
fn long_paragraphs_split_at_space() {
    let mut s = ParagraphSplitter::new();
    s.on_token("abcdefghijklmnopqrstuvwxyz", 100, 25, 5);
    let r = s.on_token("ab cd", 100, 25, 5);
    assert_eq!(r.paragraph, Some("abcdefghijklmnopqrstuvwxyzab ".to_string()));
    assert_eq!(s.text, "cd");
}

#[test]
fn short_paragraphs_are_not_split() {
    let mut s = ParagraphSplitter::new();
    s.on_token("Hi", 1, 25, 5);
    let r = s.on_token(". Then", 1, 25, 5);
    assert!(r.paragraph.is_none());
    assert_eq!(s.text, "Hi. Then");
}

#[test]
fn handed_on_paragraphs_are_longer_than_the_minimum() {
    let tokens = ["The", " cat", " sat.", " It", " was\n", " happy", "!", " The", " end", "."];
    let mut s = ParagraphSplitter::new();
    let mut all = String::new();
    for t in tokens {
        let before = s.text.clone();
        let r = s.on_token(t, 4, 12, 6);
        if let Some(p) = r.paragraph {
            assert!(p.len() > 6);
            let joined = format!("{}{}", before, t);
            assert!(joined == format!("{}{}", p, s.text) || joined == format!("{}\n{}", p, s.text));
        }
        all.push_str(t);
    }
    assert!(all.len() > 0);
}

#[test]
fn stats_questions() {
    assert_eq!(
        os_stats_question("#1: 2024-01-01 - ", "{}", "How is it?"),
        "#1: 2024-01-01 -  System Stats: {}\nInstructions: How is it?"
    );
    assert_eq!(
        network_stats_question("#2: t -", "{\"a\":1}", "dump", "Explain"),
        "#2: t - System Stats: {\"a\":1}\nPackets: dump\nInstructions: Explain\n"
    );
}
