//! The decisions of the Twitch chat bot: which command a chat message is,
//! the prompt sent to the LLM, the answer posted back, and the chat history.

use vstd::prelude::*;
use crate::text::{
    append_chars, append_str, chars_of, occurs_at, replace_all, replace_chars, starts_with,
    starts_with_exec, str_equal, string_of,
};

verus! {

/// The markers and names of the chat model's prompt format.
pub struct ChatTokens {
    pub system_start: &'static str,
    pub system_end: &'static str,
    pub assistant_start: &'static str,
    pub assistant_end: &'static str,
    pub start: &'static str,
    pub end: &'static str,
    pub bos: &'static str,
    pub eos: &'static str,
    pub user_name: &'static str,
    pub assistant_name: &'static str,
}

/// The markers of the "gemma" format, or of the Llama-2 style format used
/// for every other model.
pub open spec fn tokens_are_for(t: ChatTokens, model: Seq<char>) -> bool {
    if model == "gemma"@ {
        &&& t.system_start@ == "<start_of_turn>"@
        &&& t.system_end@ == "<end_of_turn>"@
        &&& t.assistant_start@ == "<start_of_turn>"@
        &&& t.assistant_end@ == "<end_of_turn>"@
        &&& t.start@ == "<start_of_turn>"@
        &&& t.end@ == "<end_of_turn>"@
        &&& t.bos@ == ""@
        &&& t.eos@ == ""@
        &&& t.user_name@ == "user"@
        &&& t.assistant_name@ == "model"@
    } else {
        &&& t.system_start@ == "<<SYS>>"@
        &&& t.system_end@ == "<</SYS>>"@
        &&& t.assistant_start@ == ""@
        &&& t.assistant_end@ == ""@
        &&& t.start@ == "[INST]"@
        &&& t.end@ == "[/INST]"@
        &&& t.bos@ == "<s>"@
        &&& t.eos@ == "</s>"@
        &&& t.user_name@ == ""@
        &&& t.assistant_name@ == ""@
    }
}

impl ChatTokens {
    /// The markers for a chat model (see `tokens_are_for`).
    pub fn for_model(model: &str) -> (r: Self)
        ensures
            tokens_are_for(r, model@),
    {
        if str_equal(model, "gemma") {
            ChatTokens {
                system_start: "<start_of_turn>",
                system_end: "<end_of_turn>",
                assistant_start: "<start_of_turn>",
                assistant_end: "<end_of_turn>",
                start: "<start_of_turn>",
                end: "<end_of_turn>",
                bos: "",
                eos: "",
                user_name: "user",
                assistant_name: "model",
            }
        } else {
            ChatTokens {
                system_start: "<<SYS>>",
                system_end: "<</SYS>>",
                assistant_start: "",
                assistant_end: "",
                start: "[INST]",
                end: "[/INST]",
                bos: "<s>",
                eos: "</s>",
                user_name: "",
                assistant_name: "",
            }
        }
    }
}

/// What the bot does with a chat message.
#[derive(Debug)]
pub enum ChatCommand {
    /// Ask the LLM and answer in the chat.
    Converse,
    /// "!message": pass the text after the first space to the stream.
    Message(String),
    /// "!help": answer with the help text.
    Help,
}

/// The text after the first space, or nothing when there is no space (what
/// `splitn(2, ' ').nth(1).unwrap_or("")` gives).
pub open spec fn after_first_space(s: Seq<char>) -> Seq<char> {
    if exists|i: int| 0 <= i < s.len() && s[i] == ' ' {
        let i = choose|i: int| 0 <= i < s.len() && s[i] == ' ' && forall|j: int| 0 <= j < i ==> s[j] != ' ';
        s.skip(i + 1)
    } else {
        seq![]
    }
}

/// The command of a chat message: a message that starts with neither
/// "!help" nor "!message" is conversation; one that starts with "!message"
/// passes on the text after its first space; the rest asks for help.
pub open spec fn command_of(text: Seq<char>) -> ChatCommand {
    if !starts_with(text, "!help"@) && !starts_with(text, "!message"@) {
        ChatCommand::Converse
    } else if starts_with(text, "!message"@) {
        ChatCommand::Message(arbitrary())
    } else {
        ChatCommand::Help
    }
}

/// Classifies a chat message (see `command_of`).
pub fn classify_chat(text: &str) -> (r: ChatCommand)
    ensures
        r is Converse <==> command_of(text@) is Converse,
        r is Help <==> command_of(text@) is Help,
        r matches ChatCommand::Message(m) ==> command_of(text@) is Message && m@ == after_first_space(text@),
        command_of(text@) is Message ==> r is Message,
{
    let t = chars_of(text);
    let help = chars_of("!help");
    let message = chars_of("!message");
    let is_help = starts_with_exec(t.as_slice(), help.as_slice());
    let is_message = starts_with_exec(t.as_slice(), message.as_slice());
    if !is_help && !is_message {
        ChatCommand::Converse
    } else if is_message {
        let mut i: usize = 0;
        while i < t.len() && t[i] != ' '
            invariant
                i <= t@.len(),
                forall|j: int| 0 <= j < i ==> t@[j] != ' ',
            decreases t.len() - i,
        {
            i = i + 1;
        }
        let mut rest: Vec<char> = Vec::new();
        if i < t.len() {
            let mut k: usize = i + 1;
            while k < t.len()
                invariant
                    i < t@.len(),
                    i + 1 <= k <= t@.len(),
                    rest@ == t@.subrange(i + 1, k as int),
                decreases t.len() - k,
            {
                rest.push(t[k]);
                k = k + 1;
            }
            proof {
                let w = choose|w: int| 0 <= w < t@.len() && t@[w] == ' ' && forall|j: int|
                    0 <= j < w ==> t@[j] != ' ';
                assert(0 <= i < t@.len() && t@[i as int] == ' ' && forall|j: int|
                    0 <= j < i ==> t@[j] != ' ');
                if w < i {
                    assert(t@[w] != ' ');
                } else if w > i {
                    assert(t@[i as int] != ' ');
                }
                assert(rest@ =~= t@.skip(i + 1));
            }
        } else {
            assert(!(exists|w: int| 0 <= w < t@.len() && t@[w] == ' '));
        }
        ChatCommand::Message(string_of(rest.as_slice()))
    } else {
        ChatCommand::Help
    }
}

/// The texts of a chat history, concatenated.
pub open spec fn concat_all(h: Seq<Seq<char>>) -> Seq<char>
    decreases h.len(),
{
    if h.len() == 0 {
        seq![]
    } else {
        concat_all(h.drop_last()) + h.last()
    }
}

/// The views of some strings.
pub open spec fn string_views(v: Seq<String>) -> Seq<Seq<char>> {
    v.map_values(|s: String| s@)
}

/// The prompt sent to the LLM for a chat message: the system prompt in the
/// system markers, the chat history, and the instruction that the sender
/// asked the text, followed by the assistant markers and a space.
pub open spec fn twitch_prompt(
    t: ChatTokens,
    system_prompt: Seq<char>,
    history: Seq<Seq<char>>,
    sender: Seq<char>,
    text: Seq<char>,
) -> Seq<char> {
    t.bos@ + t.system_start@ + t.assistant_name@ + seq![' '] + system_prompt + t.system_end@ + t.eos@
        + t.bos@ + concat_all(history) + t.bos@ + t.start@ + t.user_name@ + " twitch chat user "@
        + sender + " asked "@ + text + t.end@ + t.assistant_start@ + t.assistant_name@ + seq![' ']
}

proof fn lemma_concat_all_prepend(x: Seq<char>, h: Seq<Seq<char>>)
    ensures
        concat_all(seq![x] + h) == x + concat_all(h),
    decreases h.len(),
{
    if h.len() == 0 {
        let one = seq![x] + h;
        assert(one.len() == 1);
        assert(one.drop_last() =~= Seq::<Seq<char>>::empty());
        assert(one.last() == x);
        assert(concat_all(one) == concat_all(one.drop_last()) + one.last());
        assert(Seq::<char>::empty() + x =~= x);
        assert(x + Seq::<char>::empty() =~= x);
    } else {
        lemma_concat_all_prepend(x, h.drop_last());
        assert((seq![x] + h).drop_last() =~= seq![x] + h.drop_last());
        assert((seq![x] + h).last() == h.last());
        assert(x + concat_all(h.drop_last()) + h.last() =~= x + (concat_all(h.drop_last()) + h.last()));
    }
}

/// The chat history enters the prompt as its texts concatenated in their
/// stored order, between a part before and a part after that do not depend
/// on the history: the prompt for `h` is the prompt for an empty history
/// with the concatenation of `h` put in at the same place. The
/// concatenation of no texts is empty, and that of texts with one more at
/// either end has that text at that end.
pub proof fn lemma_twitch_prompt_history(
    t: ChatTokens,
    system_prompt: Seq<char>,
    h: Seq<Seq<char>>,
    x: Seq<char>,
    sender: Seq<char>,
    text: Seq<char>,
)
    ensures
        ({
            let p0 = twitch_prompt(t, system_prompt, seq![], sender, text);
            let k = (t.bos@ + t.system_start@ + t.assistant_name@ + seq![' '] + system_prompt
                + t.system_end@ + t.eos@ + t.bos@).len() as int;
            &&& 0 <= k <= p0.len()
            &&& twitch_prompt(t, system_prompt, h, sender, text) == p0.take(k) + concat_all(h)
                + p0.skip(k)
        }),
        concat_all(Seq::<Seq<char>>::empty()) == Seq::<char>::empty(),
        concat_all(h.push(x)) == concat_all(h) + x,
        concat_all(seq![x] + h) == x + concat_all(h),
{
    let head = t.bos@ + t.system_start@ + t.assistant_name@ + seq![' '] + system_prompt + t.system_end@
        + t.eos@ + t.bos@;
    let tail = t.bos@ + t.start@ + t.user_name@ + " twitch chat user "@ + sender + " asked "@ + text
        + t.end@ + t.assistant_start@ + t.assistant_name@ + seq![' '];
    let p0 = twitch_prompt(t, system_prompt, seq![], sender, text);
    assert(concat_all(Seq::<Seq<char>>::empty()) == Seq::<char>::empty());
    assert(p0 =~= head + tail);
    assert(p0.take(head.len() as int) =~= head);
    assert(p0.skip(head.len() as int) =~= tail);
    assert(twitch_prompt(t, system_prompt, h, sender, text) =~= head + concat_all(h) + tail);
    assert(h.push(x).drop_last() =~= h);
    lemma_concat_all_prepend(x, h);
}

/// Builds the prompt for a chat message (see `twitch_prompt`).
pub fn build_twitch_prompt(
    t: &ChatTokens,
    system_prompt: &str,
    history: &Vec<String>,
    sender: &str,
    text: &str,
) -> (r: String)
    ensures
        r@ == twitch_prompt(*t, system_prompt@, string_views(history@), sender@, text@),
{
    let mut out: Vec<char> = Vec::new();
    append_str(&mut out, t.bos);
    append_str(&mut out, t.system_start);
    append_str(&mut out, t.assistant_name);
    out.push(' ');
    append_str(&mut out, system_prompt);
    append_str(&mut out, t.system_end);
    append_str(&mut out, t.eos);
    append_str(&mut out, t.bos);
    let ghost o0 = out@;
    let ghost hv = string_views(history@);
    let mut i: usize = 0;
    while i < history.len()
        invariant
            hv == string_views(history@),
            i <= hv.len(),
            out@ == o0 + concat_all(hv.take(i as int)),
        decreases history.len() - i,
    {
        assert(hv.take(i + 1).drop_last() =~= hv.take(i as int));
        assert(history[i as int]@ == hv[i as int]);
        append_str(&mut out, history[i].as_str());
        i = i + 1;
    }
    assert(hv.take(i as int) =~= hv);
    append_str(&mut out, t.bos);
    append_str(&mut out, t.start);
    append_str(&mut out, t.user_name);
    append_str(&mut out, " twitch chat user ");
    append_str(&mut out, sender);
    append_str(&mut out, " asked ");
    append_str(&mut out, text);
    append_str(&mut out, t.end);
    append_str(&mut out, t.assistant_start);
    append_str(&mut out, t.assistant_name);
    out.push(' ');
    assert(out@ =~= twitch_prompt(*t, system_prompt@, hv, sender@, text@));
    string_of(out.as_slice())
}

/// The history kept for the next prompt: the first `max_messages` entries
/// when there are more.
pub fn truncate_history(history: &mut Vec<String>, max_messages: usize)
    ensures
        final(history)@ == if old(history)@.len() > max_messages {
            old(history)@.take(max_messages as int)
        } else {
            old(history)@
        },
{
    if history.len() > max_messages {
        history.truncate(max_messages);
    }
}

/// The answer as posted in the chat: line breaks turned into spaces, cut to
/// its first 500 characters, and "http" written "hxxp" so that no link is
/// posted.
pub open spec fn posted_answer(answer: Seq<char>) -> Seq<char> {
    let one_line = replace_all(answer, seq!['\n'], seq![' ']);
    let cut = if one_line.len() > 500 {
        one_line.take(500)
    } else {
        one_line
    };
    replace_all(cut, "http"@, "hxxp"@)
}

/// Prepares the LLM's answer for the chat (see `posted_answer`). The posted
/// text has at most 500 characters, no line break and no "http".
pub fn sanitize_answer(answer: &str) -> (r: String)
    ensures
        r@ == posted_answer(answer@),
        r@.len() <= 500,
        forall|i: int| 0 <= i < r@.len() ==> #[trigger] r@[i] != '\n',
        forall|i: int| !occurs_at(r@, "http"@, i),
{
    let a = chars_of(answer);
    let nl = vec!['\n'];
    let sp = vec![' '];
    assert(nl@ =~= seq!['\n']);
    assert(sp@ =~= seq![' ']);
    let one_line = replace_chars(a.as_slice(), nl.as_slice(), sp.as_slice());
    let mut cut: Vec<char> = Vec::new();
    let mut k: usize = 0;
    while k < one_line.len() && k < 500
        invariant
            k <= one_line@.len(),
            k <= 500,
            cut@ == one_line@.take(k as int),
        decreases one_line.len() - k,
    {
        cut.push(one_line[k]);
        k = k + 1;
    }
    let ghost cut_spec = if one_line@.len() > 500 {
        one_line@.take(500)
    } else {
        one_line@
    };
    assert(cut@ =~= cut_spec);
    let http = chars_of("http");
    let hxxp = chars_of("hxxp");
    proof {
        reveal_strlit("http");
        reveal_strlit("hxxp");
        assert("http"@ =~= seq!['h', 't', 't', 'p']);
        assert("hxxp"@ =~= seq!['h', 'x', 'x', 'p']);
        lemma_no_char_after_replace(a@, '\n', ' ');
        lemma_replace_keeps_absent(cut@, "http"@, "hxxp"@, '\n');
        lemma_replace_same_len(cut@, "http"@, "hxxp"@);
        lemma_no_http_after_replace(cut@);
    }
    let r = replace_chars(cut.as_slice(), http.as_slice(), hxxp.as_slice());
    string_of(r.as_slice())
}

/// The entry that a question and its answer add to the chat history.
pub open spec fn history_entry_text(t: ChatTokens, sender: Seq<char>, text: Seq<char>, answer: Seq<char>) -> Seq<char> {
    t.bos@ + t.start@ + t.user_name@ + seq![' '] + sender + " asked "@ + text + t.end@
        + t.assistant_start@ + t.assistant_name@ + seq![' '] + answer + t.assistant_end@ + t.eos@
}

/// Builds the history entry of a question and its answer (see
/// `history_entry_text`).
pub fn history_entry(t: &ChatTokens, sender: &str, text: &str, answer: &str) -> (r: String)
    ensures
        r@ == history_entry_text(*t, sender@, text@, answer@),
{
    let mut out: Vec<char> = Vec::new();
    append_str(&mut out, t.bos);
    append_str(&mut out, t.start);
    append_str(&mut out, t.user_name);
    out.push(' ');
    append_str(&mut out, sender);
    append_str(&mut out, " asked ");
    append_str(&mut out, text);
    append_str(&mut out, t.end);
    append_str(&mut out, t.assistant_start);
    append_str(&mut out, t.assistant_name);
    out.push(' ');
    append_str(&mut out, answer);
    append_str(&mut out, t.assistant_end);
    append_str(&mut out, t.eos);
    assert(out@ =~= history_entry_text(*t, sender@, text@, answer@));
    string_of(out.as_slice())
}

/// The note passed to the stream for a chat message: `kind`, the sender,
/// "said", and the text ("!chat x said y" or "!message x said y").
pub fn stream_note(kind: &str, sender: &str, text: &str) -> (r: String)
    ensures
        r@ == kind@ + seq![' '] + sender@ + " said "@ + text@,
{
    let mut out: Vec<char> = Vec::new();
    append_str(&mut out, kind);
    out.push(' ');
    append_str(&mut out, sender);
    append_str(&mut out, " said ");
    append_str(&mut out, text);
    string_of(out.as_slice())
}

/// The reply to a "!message" command.
pub fn thanks_reply(sender: &str) -> (r: String)
    ensures
        r@ == "Thank you for your message "@ + sender@ + ". I will speak about it in a moment!"@,
{
    let mut out: Vec<char> = Vec::new();
    append_str(&mut out, "Thank you for your message ");
    append_str(&mut out, sender);
    append_str(&mut out, ". I will speak about it in a moment!");
    string_of(out.as_slice())
}

// ---------------------------------------------------------------------------
// Properties of replacing
// ---------------------------------------------------------------------------

proof fn lemma_no_char_after_replace(s: Seq<char>, c: char, d: char)
    requires
        c != d,
    ensures
        forall|i: int|
            0 <= i < replace_all(s, seq![c], seq![d]).len() ==> #[trigger] replace_all(
                s,
                seq![c],
                seq![d],
            )[i] != c,
        replace_all(s, seq![c], seq![d]).len() == s.len(),
    decreases s.len(),
{
    if s.len() > 0 {
        lemma_no_char_after_replace(s.drop_first(), c, d);
        if starts_with(s, seq![c]) {
            assert(s.skip(1) =~= s.drop_first());
        }
        let r = replace_all(s, seq![c], seq![d]);
        let t = replace_all(s.drop_first(), seq![c], seq![d]);
        assert forall|i: int| 0 <= i < r.len() implies #[trigger] r[i] != c by {
            if i > 0 {
                assert(r[i] == t[i - 1]);
            } else if !starts_with(s, seq![c]) {
                assert(s.subrange(0, 1) =~= seq![s[0]]);
            }
        }
    }
}

proof fn lemma_replace_keeps_absent(s: Seq<char>, pat: Seq<char>, rep: Seq<char>, c: char)
    requires
        pat.len() > 0,
        forall|i: int| 0 <= i < s.len() ==> #[trigger] s[i] != c,
        forall|i: int| 0 <= i < rep.len() ==> #[trigger] rep[i] != c,
    ensures
        forall|i: int|
            0 <= i < replace_all(s, pat, rep).len() ==> #[trigger] replace_all(s, pat, rep)[i] != c,
    decreases s.len(),
{
    if s.len() > 0 {
        let r = replace_all(s, pat, rep);
        if starts_with(s, pat) {
            let rest = s.skip(pat.len() as int);
            assert forall|i: int| 0 <= i < rest.len() implies #[trigger] rest[i] != c by {
                assert(rest[i] == s[i + pat.len()]);
            }
            lemma_replace_keeps_absent(rest, pat, rep, c);
            let t = replace_all(rest, pat, rep);
            assert forall|i: int| 0 <= i < r.len() implies #[trigger] r[i] != c by {
                if i >= rep.len() {
                    assert(r[i] == t[i - rep.len()]);
                }
            }
        } else {
            let rest = s.drop_first();
            assert forall|i: int| 0 <= i < rest.len() implies #[trigger] rest[i] != c by {
                assert(rest[i] == s[i + 1]);
            }
            lemma_replace_keeps_absent(rest, pat, rep, c);
            let t = replace_all(rest, pat, rep);
            assert forall|i: int| 0 <= i < r.len() implies #[trigger] r[i] != c by {
                if i >= 1 {
                    assert(r[i] == t[i - 1]);
                }
            }
        }
    }
}

proof fn lemma_replace_same_len(s: Seq<char>, pat: Seq<char>, rep: Seq<char>)
    requires
        pat.len() > 0,
        rep.len() == pat.len(),
    ensures
        replace_all(s, pat, rep).len() == s.len(),
    decreases s.len(),
{
    if s.len() > 0 {
        if starts_with(s, pat) {
            lemma_replace_same_len(s.skip(pat.len() as int), pat, rep);
        } else {
            lemma_replace_same_len(s.drop_first(), pat, rep);
        }
    }
}

/// A replaced text that begins with a character other than 'h' began with
/// that character, and the rest is the replaced rest.
proof fn lemma_http_head(s: Seq<char>)
    requires
        "http"@ == seq!['h', 't', 't', 'p'],
        "hxxp"@ == seq!['h', 'x', 'x', 'p'],
        replace_all(s, "http"@, "hxxp"@).len() > 0,
        replace_all(s, "http"@, "hxxp"@)[0] != 'h',
    ensures
        s.len() > 0,
        s[0] == replace_all(s, "http"@, "hxxp"@)[0],
        replace_all(s, "http"@, "hxxp"@).drop_first() == replace_all(s.drop_first(), "http"@, "hxxp"@),
{
    let r = replace_all(s, "http"@, "hxxp"@);
    if starts_with(s, "http"@) {
        assert(r[0] == 'h');
    } else {
        assert(r == seq![s[0]] + replace_all(s.drop_first(), "http"@, "hxxp"@));
        assert(r.drop_first() =~= replace_all(s.drop_first(), "http"@, "hxxp"@));
    }
}

#[verifier::spinoff_prover]
proof fn lemma_no_http_after_replace(s: Seq<char>)
    requires
        "http"@ == seq!['h', 't', 't', 'p'],
        "hxxp"@ == seq!['h', 'x', 'x', 'p'],
    ensures
        forall|i: int| !occurs_at(replace_all(s, "http"@, "hxxp"@), "http"@, i),
    decreases s.len(),
{
    let r = replace_all(s, "http"@, "hxxp"@);
    if s.len() > 0 {
        if starts_with(s, "http"@) {
            let rest = s.skip(4);
            lemma_no_http_after_replace(rest);
            let t = replace_all(rest, "http"@, "hxxp"@);
            assert(r == "hxxp"@ + t);
            assert forall|i: int| !occurs_at(r, "http"@, i) by {
                if occurs_at(r, "http"@, i) {
                    let sub = r.subrange(i, i + 4);
                    assert(sub[0] == 'h' && sub[1] == 't' && sub[2] == 't' && sub[3] == 'p');
                    if i >= 4 {
                        assert(t.subrange(i - 4, i) =~= sub);
                        assert(occurs_at(t, "http"@, i - 4));
                    } else if i == 0 {
                        assert(r[1] == 'x');
                    } else if i == 1 {
                        assert(r[1] == 'x');
                    } else if i == 2 {
                        assert(r[2] == 'x');
                    } else {
                        assert(r[3] == 'p');
                    }
                }
            }
        } else {
            let rest = s.drop_first();
            lemma_no_http_after_replace(rest);
            let t = replace_all(rest, "http"@, "hxxp"@);
            assert(r == seq![s[0]] + t);
            assert forall|i: int| !occurs_at(r, "http"@, i) by {
                if occurs_at(r, "http"@, i) {
                    let sub = r.subrange(i, i + 4);
                    assert(sub[0] == 'h' && sub[1] == 't' && sub[2] == 't' && sub[3] == 'p');
                    if i >= 1 {
                        assert(t.subrange(i - 1, i + 3) =~= sub);
                        assert(occurs_at(t, "http"@, i - 1));
                    } else {
                        // r = "h" + t with t starting "ttp": the three characters come from
                        // `rest` itself, so `s` started with "http".
                        assert(t[0] == 't');
                        lemma_http_head(rest);
                        let rest2 = rest.drop_first();
                        let t2 = replace_all(rest2, "http"@, "hxxp"@);
                        assert(t2[0] == t[1]);
                        assert(t2[0] == 't');
                        lemma_http_head(rest2);
                        let rest3 = rest2.drop_first();
                        let t3 = replace_all(rest3, "http"@, "hxxp"@);
                        assert(t3[0] == t2[1]);
                        assert(t3[0] == 'p');
                        lemma_http_head(rest3);
                        assert(s.subrange(0, 4) =~= "http"@);
                    }
                }
            }
        }
    }
}

} // verus!
