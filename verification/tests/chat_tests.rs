use rsllm::openai_api::{
    classify_blob, format_messages_for_llm, is_error_report, split_data_blobs, BlobAction, ChunkAction,
    Choice, CompletionStream, Delta, Message, ResponseChunk,
};
use rsllm::twitch_client::{
    build_twitch_prompt, classify_chat, history_entry, sanitize_answer, stream_note, thanks_reply,
    truncate_history, ChatCommand, ChatTokens,
};

fn msg(role: &str, content: &str) -> Message {
    Message { role: role.to_string(), content: content.to_string() }
}

#[test]
fn llama2_format() {
    let m = vec![msg("system", "Be nice"), msg("user", "Hi<|im_end|>"), msg("assistant", "Hello")];
    assert_eq!(
        format_messages_for_llm(m, "llama2".to_string()),
        "<s><<SYS>> Be nice<</SYS>></s>\n<s>[INST] Hi[/INST]\n<s> Hello\n"
    );
}

#[test]
fn chatml_format_closes_earlier_answers() {
    let m = vec![msg("user", "Q"), msg("assistant", "A"), msg("user", "Q2")];
    assert_eq!(
        format_messages_for_llm(m, "chatml".to_string()),
        "<im_start>user Q<im_end>\n<im_start>assistant A<im_end>\n<im_start>user Q2<im_end>\n"
    );
}

#[test]
fn vicuna_format() {
    let m = vec![msg("system", "S"), msg("user", "U")];
    assert_eq!(format_messages_for_llm(m, "vicuna".to_string()), "System:  S\n\nUser:  U\n\n");
}

#[test]
fn google_format() {
    let m = vec![msg("user", "hi"), msg("assistant", "yo")];
    assert_eq!(
        format_messages_for_llm(m, "google".to_string()),
        "<start_of_turn>user hi<end_of_turn>\n<start_of_turn>model yo\n"
    );
}

#[test]
fn unknown_format_and_roles() {
    let m = vec![msg("user", "x"), msg("tool", "ignored")];
    assert_eq!(format_messages_for_llm(m, "other".to_string()), " x\n");
    assert_eq!(format_messages_for_llm(Vec::new(), "llama2".to_string()), "");
}

#[test]
fn data_blobs_split_on_separator() {
    let blobs = split_data_blobs("data: {\"a\":1}\ndata: [DONE]");
    assert_eq!(blobs, vec!["data: {\"a\":1}".to_string(), "[DONE]".to_string()]);
    assert_eq!(split_data_blobs("\ndata: x"), vec!["".to_string(), "x".to_string()]);
    assert_eq!(split_data_blobs(""), vec!["".to_string()]);
}

#[test]
fn data_blobs_join_back_to_chunk() {
    for chunk in ["a\ndata: b\ndata: \ndata: c", "\ndata: \ndata: ", "no separator"] {
        assert_eq!(split_data_blobs(chunk).join("\ndata: "), chunk);
    }
}

#[test]
fn blob_classification() {
    assert!(matches!(classify_blob(""), BlobAction::Skip));
    assert!(matches!(classify_blob("\n"), BlobAction::Skip));
    assert!(matches!(classify_blob("[DONE]"), BlobAction::Done));
    match classify_blob("data: {\"x\":1}") {
        BlobAction::Parse(j) => assert_eq!(j, "{\"x\":1}"),
        _ => panic!("expected a JSON text"),
    }
    match classify_blob("plain") {
        BlobAction::Parse(j) => assert_eq!(j, "plain"),
        _ => panic!("expected the whole blob"),
    }
}

#[test]
fn deltas_hold_back_blank_text() {
    let mut s = CompletionStream::new();
    assert_eq!(s.on_delta("Hello"), Some("Hello".to_string()));
    assert_eq!(s.on_delta("\n"), None);
    assert!(s.add_newline);
    assert_eq!(s.on_delta("World"), Some(" World".to_string()));
    assert!(!s.add_newline);
    assert_eq!(s.on_delta(" "), None);
    assert!(s.add_space);
    assert_eq!(s.on_delta("x"), Some(" x".to_string()));
    assert!(!s.add_space);
}

#[test]
fn pending_newline_stays_on_more_newlines() {
    let mut s = CompletionStream::new();
    assert_eq!(s.on_delta("\n"), None);
    assert_eq!(s.on_delta("\n\n"), None);
    assert!(s.add_newline);
    assert_eq!(s.on_delta("a"), Some(" a".to_string()));
}

fn choice(finish: Option<&str>, content: Option<&str>) -> Choice {
    Choice {
        finish_reason: finish.map(|f| f.to_string()),
        logprobs: None,
        index: 0,
        delta: Delta { content: content.map(|c| c.to_string()) },
    }
}

#[test]
fn chunk_actions() {
    let mut s = CompletionStream::new();
    let whole = ResponseChunk { content: Some("done text".to_string()), choices: None };
    assert!(matches!(s.on_chunk(&whole), ChunkAction::Content(c) if c == "done text"));
    let empty = ResponseChunk { content: None, choices: Some(Vec::new()) };
    assert!(matches!(s.on_chunk(&empty), ChunkAction::NoChoices));
    let none = ResponseChunk { content: None, choices: None };
    assert!(matches!(s.on_chunk(&none), ChunkAction::NoChoices));
    let fin = ResponseChunk { content: None, choices: Some(vec![choice(Some("stop"), Some("x"))]) };
    assert!(matches!(s.on_chunk(&fin), ChunkAction::Finished));
    let text = ResponseChunk { content: None, choices: Some(vec![choice(None, Some("tok"))]) };
    assert!(matches!(s.on_chunk(&text), ChunkAction::Emit(e) if e == "tok"));
    let blank = ResponseChunk { content: None, choices: Some(vec![choice(None, Some(" "))]) };
    assert!(matches!(s.on_chunk(&blank), ChunkAction::Nothing));
    let after = ResponseChunk { content: None, choices: Some(vec![choice(None, Some("next"))]) };
    assert!(matches!(s.on_chunk(&after), ChunkAction::Emit(e) if e == " next"));
    let no_text = ResponseChunk { content: None, choices: Some(vec![choice(None, None)]) };
    assert!(matches!(s.on_chunk(&no_text), ChunkAction::Nothing));
}

#[test]
fn error_reports() {
    assert!(is_error_report("ERROR: bad json - {"));
    assert!(!is_error_report("error: lower case"));
    assert!(!is_error_report("ERR"));
}

#[test]
fn chat_commands() {
    assert!(matches!(classify_chat("hello bot"), ChatCommand::Converse));
    assert!(matches!(classify_chat("!help"), ChatCommand::Help));
    assert!(matches!(classify_chat("!helpme"), ChatCommand::Help));
    assert!(matches!(classify_chat("!message hello there"), ChatCommand::Message(m) if m == "hello there"));
    assert!(matches!(classify_chat("!message"), ChatCommand::Message(m) if m.is_empty()));
    assert!(matches!(classify_chat("!messages x y"), ChatCommand::Message(m) if m == "x y"));
}

#[test]
fn prompt_in_llama_format() {
    let t = ChatTokens::for_model("mistral");
    let history = vec!["<s>[INST] a asked b[/INST] c</s>".to_string()];
    assert_eq!(
        build_twitch_prompt(&t, "Be brief.", &history, "bob", "hi?"),
        "<s><<SYS>> Be brief.<</SYS>></s><s><s>[INST] a asked b[/INST] c</s><s>[INST] twitch chat user bob asked hi?[/INST] "
    );
}

#[test]
fn prompt_in_gemma_format() {
    let t = ChatTokens::for_model("gemma");
    assert_eq!(t.user_name, "user");
    assert_eq!(t.assistant_name, "model");
    assert_eq!(
        build_twitch_prompt(&t, "Be brief.", &Vec::new(), "bob", "hi?"),
        "<start_of_turn>model Be brief.<end_of_turn><start_of_turn>user twitch chat user bob asked hi?<end_of_turn><start_of_turn>model "
    );
}

#[test]
fn history_entries() {
    let llama = ChatTokens::for_model("mistral");
    assert_eq!(history_entry(&llama, "bob", "hi?", "hello"), "<s>[INST] bob asked hi?[/INST] hello</s>");
    let gemma = ChatTokens::for_model("gemma");
    assert_eq!(
        history_entry(&gemma, "bob", "hi?", "hello"),
        "<start_of_turn>user bob asked hi?<end_of_turn><start_of_turn>model hello<end_of_turn>"
    );
}

#[test]
fn history_keeps_first_entries() {
    let mut h: Vec<String> = (0..5).map(|i| i.to_string()).collect();
    truncate_history(&mut h, 3);
    assert_eq!(h, vec!["0".to_string(), "1".to_string(), "2".to_string()]);
    truncate_history(&mut h, 10);
    assert_eq!(h.len(), 3);
}

#[test]
fn answers_are_one_line_without_links() {
    assert_eq!(sanitize_answer("See http://x.com\nnow"), "See hxxp://x.com now");
    assert_eq!(sanitize_answer("htt\np"), "htt p");
    let long = "a".repeat(600);
    assert_eq!(sanitize_answer(&long), "a".repeat(500));
}

#[test]
fn posted_answer_properties() {
    let inputs = vec!["https://a\n\nhttp".to_string(), "é".repeat(501), "x\nhttp".repeat(120)];
    for input in inputs.iter() {
        let r = sanitize_answer(input);
        assert!(r.chars().count() <= 500);
        assert!(!r.contains('\n'));
        assert!(!r.contains("http"));
    }
}

#[test]
fn notes_and_replies() {
    assert_eq!(stream_note("!chat", "bob", "hi"), "!chat bob said hi");
    assert_eq!(stream_note("!message", "amy", "tell a story"), "!message amy said tell a story");
    assert_eq!(thanks_reply("bob"), "Thank you for your message bob. I will speak about it in a moment!");
}
