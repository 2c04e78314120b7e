//! Chat messages for an OpenAI-style completion API: the prompt formats of
//! several model families, and the handling of a streamed answer.

use vstd::prelude::*;
use crate::text::{
    append_chars, append_str, chars_of, ends_with, ends_with_exec, join, replace_all, replace_chars,
    occurs_at_exec, starts_with, starts_with_exec, str_equal, string_of, views,
};
use crate::speech_text::{trim, trim_exec};

verus! {

/// One message of a chat: its role ("system", "user" or "assistant") and
/// its text.
#[derive(Clone, Debug)]
pub struct Message {
    pub role: String,
    pub content: String,
}

/// One choice of a streamed completion chunk.
#[derive(Debug)]
pub struct Choice {
    pub finish_reason: Option<String>,
    pub logprobs: Option<bool>,
    pub index: i32,
    pub delta: Delta,
}

/// The new text that a streamed completion chunk carries.
#[derive(Debug)]
pub struct Delta {
    pub content: Option<String>,
}

// ---------------------------------------------------------------------------
// Prompt formats
// ---------------------------------------------------------------------------

/// The markers and names that a chat format puts around messages.
pub struct ChatMarkers {
    pub eos: Seq<char>,
    pub bos: Seq<char>,
    pub inst: Seq<char>,
    pub inst_end: Seq<char>,
    pub assist: Seq<char>,
    pub assist_end: Seq<char>,
    pub sys: Seq<char>,
    pub sys_end: Seq<char>,
    pub sys_name: Seq<char>,
    pub user_name: Seq<char>,
    pub assist_name: Seq<char>,
}

/// The markers of the formats "llama2", "google", "chatml" and "vicuna";
/// any other format uses no markers and no names.
pub open spec fn chat_markers(format: Seq<char>) -> ChatMarkers {
    if format == "llama2"@ {
        ChatMarkers {
            eos: "</s>"@,
            bos: "<s>"@,
            inst: "[INST]"@,
            inst_end: "[/INST]"@,
            assist: seq![],
            assist_end: seq![],
            sys: "<<SYS>>"@,
            sys_end: "<</SYS>>"@,
            sys_name: seq![],
            user_name: seq![],
            assist_name: seq![],
        }
    } else if format == "google"@ {
        ChatMarkers {
            eos: seq![],
            bos: seq![],
            inst: "<start_of_turn>"@,
            inst_end: "<end_of_turn>"@,
            assist: "<start_of_turn>"@,
            assist_end: "<end_of_turn>"@,
            sys: "<start_of_turn>"@,
            sys_end: "<end_of_turn>"@,
            sys_name: "model"@,
            user_name: "user"@,
            assist_name: "model"@,
        }
    } else if format == "chatml"@ {
        ChatMarkers {
            eos: seq![],
            bos: seq![],
            inst: "<im_start>"@,
            inst_end: "<im_end>"@,
            assist: "<im_start>"@,
            assist_end: "<im_end>"@,
            sys: "<im_start>"@,
            sys_end: "<im_end>"@,
            sys_name: "system"@,
            user_name: "user"@,
            assist_name: "assistant"@,
        }
    } else if format == "vicuna"@ {
        ChatMarkers {
            eos: seq![],
            bos: seq![],
            inst: seq![],
            inst_end: "\n"@,
            assist: seq![],
            assist_end: "\n"@,
            sys: seq![],
            sys_end: "\n"@,
            sys_name: "System: "@,
            user_name: "User: "@,
            assist_name: "Assistant: "@,
        }
    } else {
        ChatMarkers {
            eos: seq![],
            bos: seq![],
            inst: seq![],
            inst_end: seq![],
            assist: seq![],
            assist_end: seq![],
            sys: seq![],
            sys_end: seq![],
            sys_name: seq![],
            user_name: seq![],
            assist_name: seq![],
        }
    }
}

/// A message's text without the end-of-message marker.
pub open spec fn without_im_end(content: Seq<char>) -> Seq<char> {
    replace_all(content, "<|im_end|>"@, seq![])
}

/// The line a message becomes in the prompt. System and user messages are
/// wrapped in the system and instruction markers; an assistant message is
/// closed with the assistant end marker and end-of-sequence marker unless it
/// is the last message; messages of any other role are left out.
pub open spec fn message_line(m: ChatMarkers, role: Seq<char>, content: Seq<char>, is_last: bool) -> Seq<char> {
    let text = without_im_end(content);
    if role == "system"@ {
        m.bos + m.sys + m.sys_name + seq![' '] + text + m.sys_end + m.eos + seq!['\n']
    } else if role == "user"@ {
        m.bos + m.inst + m.user_name + seq![' '] + text + m.inst_end + seq!['\n']
    } else if role == "assistant"@ {
        if is_last {
            m.bos + m.assist + m.assist_name + seq![' '] + text + seq!['\n']
        } else {
            m.bos + m.assist + m.assist_name + seq![' '] + text + m.assist_end + m.eos + seq!['\n']
        }
    } else {
        seq![]
    }
}

/// The lines of the first `n` messages of a history of `total` messages.
pub open spec fn history_lines(
    m: ChatMarkers,
    roles: Seq<Seq<char>>,
    contents: Seq<Seq<char>>,
    n: int,
) -> Seq<char>
    decreases n,
{
    if n <= 0 {
        seq![]
    } else {
        history_lines(m, roles, contents, n - 1) + message_line(
            m,
            roles[n - 1],
            contents[n - 1],
            n - 1 == roles.len() - 1,
        )
    }
}

/// The roles of a list of messages.
pub open spec fn roles_of(ms: Seq<Message>) -> Seq<Seq<char>> {
    ms.map_values(|x: Message| x.role@)
}

/// The texts of a list of messages.
pub open spec fn contents_of(ms: Seq<Message>) -> Seq<Seq<char>> {
    ms.map_values(|x: Message| x.content@)
}

/// The prompt that a chat history becomes in a format: the lines of all
/// messages, in order.
pub open spec fn formatted_history(ms: Seq<Message>, format: Seq<char>) -> Seq<char> {
    history_lines(chat_markers(format), roles_of(ms), contents_of(ms), ms.len() as int)
}

/// The executable markers of a chat format.
struct MarkerStrs {
    eos: &'static str,
    bos: &'static str,
    inst: &'static str,
    inst_end: &'static str,
    assist: &'static str,
    assist_end: &'static str,
    sys: &'static str,
    sys_end: &'static str,
    sys_name: &'static str,
    user_name: &'static str,
    assist_name: &'static str,
}

impl MarkerStrs {
    spec fn spec_markers(&self) -> ChatMarkers {
        ChatMarkers {
            eos: self.eos@,
            bos: self.bos@,
            inst: self.inst@,
            inst_end: self.inst_end@,
            assist: self.assist@,
            assist_end: self.assist_end@,
            sys: self.sys@,
            sys_end: self.sys_end@,
            sys_name: self.sys_name@,
            user_name: self.user_name@,
            assist_name: self.assist_name@,
        }
    }
}

fn markers_for(format: &str) -> (r: MarkerStrs)
    ensures
        r.spec_markers() == chat_markers(format@),
{
    proof {
        reveal_strlit("");
    }
    assert(""@ =~= Seq::<char>::empty());
    if str_equal(format, "llama2") {
        MarkerStrs {
            eos: "</s>",
            bos: "<s>",
            inst: "[INST]",
            inst_end: "[/INST]",
            assist: "",
            assist_end: "",
            sys: "<<SYS>>",
            sys_end: "<</SYS>>",
            sys_name: "",
            user_name: "",
            assist_name: "",
        }
    } else if str_equal(format, "google") {
        MarkerStrs {
            eos: "",
            bos: "",
            inst: "<start_of_turn>",
            inst_end: "<end_of_turn>",
            assist: "<start_of_turn>",
            assist_end: "<end_of_turn>",
            sys: "<start_of_turn>",
            sys_end: "<end_of_turn>",
            sys_name: "model",
            user_name: "user",
            assist_name: "model",
        }
    } else if str_equal(format, "chatml") {
        MarkerStrs {
            eos: "",
            bos: "",
            inst: "<im_start>",
            inst_end: "<im_end>",
            assist: "<im_start>",
            assist_end: "<im_end>",
            sys: "<im_start>",
            sys_end: "<im_end>",
            sys_name: "system",
            user_name: "user",
            assist_name: "assistant",
        }
    } else if str_equal(format, "vicuna") {
        MarkerStrs {
            eos: "",
            bos: "",
            inst: "",
            inst_end: "\n",
            assist: "",
            assist_end: "\n",
            sys: "",
            sys_end: "\n",
            sys_name: "System: ",
            user_name: "User: ",
            assist_name: "Assistant: ",
        }
    } else {
        MarkerStrs {
            eos: "",
            bos: "",
            inst: "",
            inst_end: "",
            assist: "",
            assist_end: "",
            sys: "",
            sys_end: "",
            sys_name: "",
            user_name: "",
            assist_name: "",
        }
    }
}

fn append_message_line(out: &mut Vec<char>, m: &MarkerStrs, role: &str, content: &str, is_last: bool)
    ensures
        final(out)@ == old(out)@ + message_line(m.spec_markers(), role@, content@, is_last),
{
    let is_system = str_equal(role, "system");
    let is_user = str_equal(role, "user");
    let is_assistant = str_equal(role, "assistant");
    if !is_system && !is_user && !is_assistant {
        assert(old(out)@ + seq![] =~= old(out)@);
        return;
    }
    let c = chars_of(content);
    let marker = chars_of("<|im_end|>");
    proof {
        reveal_strlit("<|im_end|>");
    }
    let nothing: Vec<char> = Vec::new();
    assert(nothing@ =~= seq![]);
    let text = replace_chars(c.as_slice(), marker.as_slice(), nothing.as_slice());
    let ghost o0 = out@;
    let ghost mk = m.spec_markers();
    append_str(out, m.bos);
    if is_system {
        append_str(out, m.sys);
        append_str(out, m.sys_name);
    } else if is_user {
        append_str(out, m.inst);
        append_str(out, m.user_name);
    } else {
        append_str(out, m.assist);
        append_str(out, m.assist_name);
    }
    out.push(' ');
    append_chars(out, text.as_slice());
    if is_system {
        append_str(out, m.sys_end);
        append_str(out, m.eos);
    } else if is_user {
        append_str(out, m.inst_end);
    } else if !is_last {
        append_str(out, m.assist_end);
        append_str(out, m.eos);
    }
    out.push('\n');
    proof {
        let line = message_line(mk, role@, content@, is_last);
        if is_system {
            assert(out@ =~= o0 + line);
        } else if is_user {
            assert(out@ =~= o0 + line);
        } else if is_last {
            assert(out@ =~= o0 + line);
        } else {
            assert(out@ =~= o0 + line);
        }
    }
}

/// Formats a chat history as a prompt in the given chat format (see
/// `formatted_history`): every system, user and assistant message becomes
/// one line with the format's markers, its text rid of "<|im_end|>".
pub fn format_messages_for_llm(messages: Vec<Message>, chat_format: String) -> (r: String)
    ensures
        r@ == formatted_history(messages@, chat_format@),
{
    let m = markers_for(chat_format.as_str());
    let ghost mk = m.spec_markers();
    let ghost roles = roles_of(messages@);
    let ghost contents = contents_of(messages@);
    let mut out: Vec<char> = Vec::new();
    let n = messages.len();
    let mut i: usize = 0;
    while i < n
        invariant
            n == messages@.len(),
            mk == m.spec_markers(),
            mk == chat_markers(chat_format@),
            roles == roles_of(messages@),
            contents == contents_of(messages@),
            i <= n,
            out@ == history_lines(mk, roles, contents, i as int),
        decreases n - i,
    {
        let is_last = i == n - 1;
        let msg = &messages[i];
        assert(roles[i as int] == msg.role@);
        assert(contents[i as int] == msg.content@);
        append_message_line(&mut out, &m, msg.role.as_str(), msg.content.as_str(), is_last);
        i = i + 1;
    }
    string_of(out.as_slice())
}

proof fn lemma_history_lines_prefix(
    m: ChatMarkers,
    roles: Seq<Seq<char>>,
    contents: Seq<Seq<char>>,
    k: int,
    n: int,
)
    requires
        0 <= k <= n,
    ensures
        history_lines(m, roles, contents, k).len() <= history_lines(m, roles, contents, n).len(),
        history_lines(m, roles, contents, n).take(history_lines(m, roles, contents, k).len() as int)
            == history_lines(m, roles, contents, k),
    decreases n - k,
{
    if k < n {
        lemma_history_lines_prefix(m, roles, contents, k, n - 1);
        let a = history_lines(m, roles, contents, n - 1);
        let b = history_lines(m, roles, contents, k);
        let l = message_line(m, roles[n - 1], contents[n - 1], n - 1 == roles.len() - 1);
        assert((a + l).take(b.len() as int) =~= a.take(b.len() as int));
    } else {
        let b = history_lines(m, roles, contents, k);
        assert(b.take(b.len() as int) =~= b);
    }
}

/// Where a system or user message stands in the prompt: right after the
/// lines of the messages before it comes its line. A system message's line
/// is the begin-of-sequence marker, the system marker and name, a space, its
/// text rid of "<|im_end|>", the system end marker, the end-of-sequence
/// marker and a line break; a user message's line is the begin-of-sequence
/// marker, the instruction marker and user name, a space, its text, the
/// instruction end marker and a line break. A message of any other role
/// adds nothing.
pub proof fn lemma_system_user_line(ms: Seq<Message>, format: Seq<char>, i: int)
    requires
        0 <= i < ms.len(),
    ensures
        ({
            let mk = chat_markers(format);
            let out = formatted_history(ms, format);
            let p = history_lines(mk, roles_of(ms), contents_of(ms), i).len() as int;
            let q = history_lines(mk, roles_of(ms), contents_of(ms), i + 1).len() as int;
            let text = without_im_end(ms[i].content@);
            let line = if ms[i].role@ == "system"@ {
                mk.bos + mk.sys + mk.sys_name + seq![' '] + text + mk.sys_end + mk.eos + seq!['\n']
            } else {
                mk.bos + mk.inst + mk.user_name + seq![' '] + text + mk.inst_end + seq!['\n']
            };
            &&& p <= q <= out.len()
            &&& (ms[i].role@ == "system"@ || ms[i].role@ == "user"@) ==> out.subrange(p, q) == line
            &&& !(ms[i].role@ == "system"@ || ms[i].role@ == "user"@ || ms[i].role@
                == "assistant"@) ==> p == q
        }),
{
    let mk = chat_markers(format);
    let roles = roles_of(ms);
    let contents = contents_of(ms);
    let n = ms.len() as int;
    let out = formatted_history(ms, format);
    let before = history_lines(mk, roles, contents, i);
    let upto = history_lines(mk, roles, contents, i + 1);
    let p = before.len() as int;
    assert(roles[i] == ms[i].role@);
    assert(contents[i] == ms[i].content@);
    reveal_strlit("assistant");
    reveal_strlit("system");
    reveal_strlit("user");
    let l = message_line(mk, roles[i], contents[i], i == roles.len() - 1);
    assert(upto == before + l);
    lemma_history_lines_prefix(mk, roles, contents, i + 1, n);
    assert(out.take(upto.len() as int) == upto);
    assert(out.subrange(p, p + l.len()) =~= l) by {
        assert forall|j: int| 0 <= j < l.len() implies #[trigger] out.subrange(p, p + l.len())[j]
            == l[j] by {
            assert(out.take(upto.len() as int)[p + j] == upto[p + j]);
        }
    }
}

/// Where an assistant message stands in the prompt: right after the lines
/// of the messages before it comes the begin-of-sequence marker, the
/// assistant marker and name, a space and the message's text rid of
/// "<|im_end|>"; an answer that is not the last message is then closed with
/// the assistant end marker and the end-of-sequence marker; and a line break
/// ends it. In the "llama2" format such an earlier answer's line ends with
/// "</s>" and the line break.
pub proof fn lemma_assistant_line(ms: Seq<Message>, format: Seq<char>, i: int)
    requires
        0 <= i < ms.len(),
        ms[i].role@ == "assistant"@,
    ensures
        ({
            let mk = chat_markers(format);
            let out = formatted_history(ms, format);
            let p = history_lines(mk, roles_of(ms), contents_of(ms), i).len() as int;
            let line = mk.bos + mk.assist + mk.assist_name + seq![' '] + without_im_end(ms[i].content@)
                + (if i < ms.len() - 1 {
                mk.assist_end + mk.eos
            } else {
                seq![]
            }) + seq!['\n'];
            &&& p + line.len() <= out.len()
            &&& out.subrange(p, p + line.len()) == line
            &&& (format == "llama2"@ && i < ms.len() - 1) ==> out.subrange(
                p + line.len() - 5,
                p + line.len(),
            ) == "</s>\n"@
        }),
{
    let mk = chat_markers(format);
    let roles = roles_of(ms);
    let contents = contents_of(ms);
    let n = ms.len() as int;
    let out = formatted_history(ms, format);
    let before = history_lines(mk, roles, contents, i);
    let upto = history_lines(mk, roles, contents, i + 1);
    let p = before.len() as int;
    assert(roles[i] == ms[i].role@);
    assert(contents[i] == ms[i].content@);
    reveal_strlit("assistant");
    reveal_strlit("system");
    reveal_strlit("user");
    assert(roles[i] != "system"@);
    assert(roles[i] != "user"@);
    let l = message_line(mk, roles[i], contents[i], i == roles.len() - 1);
    assert(upto == before + l);
    lemma_history_lines_prefix(mk, roles, contents, i + 1, n);
    assert(out.take(upto.len() as int) == upto);
    assert(out.subrange(p, p + l.len()) =~= l) by {
        assert forall|j: int| 0 <= j < l.len() implies #[trigger] out.subrange(p, p + l.len())[j]
            == l[j] by {
            assert(out.take(upto.len() as int)[p + j] == upto[p + j]);
        }
    }
    if format == "llama2"@ && i < ms.len() - 1 {
        reveal_strlit("llama2");
        reveal_strlit("</s>");
        reveal_strlit("</s>\n");
        assert(mk.eos == "</s>"@);
        assert(mk.assist_end == Seq::<char>::empty());
        assert(out.subrange(p + l.len() - 5, p + l.len()) =~= l.subrange(l.len() - 5, l.len() as int));
        assert(l.subrange(l.len() - 5, l.len() as int) =~= "</s>\n"@);
    }
}

// ---------------------------------------------------------------------------
// Streamed answers
// ---------------------------------------------------------------------------

/// `str::split` with a non-empty string pattern: the pieces between the
/// occurrences of `pat`, found from left to right without overlap.
pub open spec fn split_on_pattern(s: Seq<char>, pat: Seq<char>) -> Seq<Seq<char>>
    decreases s.len(),
{
    if s.len() == 0 {
        seq![seq![]]
    } else if pat.len() > 0 && starts_with(s, pat) {
        seq![seq![]] + split_on_pattern(s.skip(pat.len() as int), pat)
    } else {
        let rest = split_on_pattern(s.drop_first(), pat);
        rest.update(0, seq![s[0]] + rest[0])
    }
}

proof fn lemma_split_on_pattern_nonempty(s: Seq<char>, pat: Seq<char>)
    ensures
        split_on_pattern(s, pat).len() >= 1,
    decreases s.len(),
{
    if s.len() > 0 {
        if pat.len() > 0 && starts_with(s, pat) {
            lemma_split_on_pattern_nonempty(s.skip(pat.len() as int), pat);
        } else {
            lemma_split_on_pattern_nonempty(s.drop_first(), pat);
        }
    }
}

proof fn lemma_join_cons(a: Seq<char>, rest: Seq<Seq<char>>, sep: Seq<char>)
    requires
        rest.len() > 0,
    ensures
        join(seq![a] + rest, sep) == a + sep + join(rest, sep),
    decreases rest.len(),
{
    let all = seq![a] + rest;
    if rest.len() == 1 {
        assert(all.drop_last() =~= seq![a]);
        assert(all.last() == rest[0]);
        assert(join(seq![a], sep) == a);
        assert(join(all, sep) == join(all.drop_last(), sep) + sep + all.last());
        assert(join(rest, sep) == rest[0]);
    } else {
        lemma_join_cons(a, rest.drop_last(), sep);
        assert(all.drop_last() =~= seq![a] + rest.drop_last());
        assert(all.last() == rest.last());
        assert(join(all, sep) == join(all.drop_last(), sep) + sep + all.last());
        assert(join(rest, sep) == join(rest.drop_last(), sep) + sep + rest.last());
        assert(a + sep + join(rest.drop_last(), sep) + sep + rest.last() =~= a + sep + (join(
            rest.drop_last(),
            sep,
        ) + sep + rest.last()));
    }
}

proof fn lemma_join_prefix_first(x: Seq<char>, rest: Seq<Seq<char>>, sep: Seq<char>)
    requires
        rest.len() > 0,
    ensures
        join(rest.update(0, x + rest[0]), sep) == x + join(rest, sep),
    decreases rest.len(),
{
    let upd = rest.update(0, x + rest[0]);
    if rest.len() == 1 {
        assert(join(upd, sep) == upd[0]);
    } else {
        lemma_join_prefix_first(x, rest.drop_last(), sep);
        assert(upd.drop_last() =~= rest.drop_last().update(0, x + rest.drop_last()[0]));
        assert(upd.last() == rest.last());
        assert(x + join(rest.drop_last(), sep) + sep + rest.last() =~= x + (join(
            rest.drop_last(),
            sep,
        ) + sep + rest.last()));
    }
}

/// Joining the pieces of a split with the pattern gives back the text.
pub proof fn lemma_split_join_roundtrip(s: Seq<char>, pat: Seq<char>)
    requires
        pat.len() > 0,
    ensures
        join(split_on_pattern(s, pat), pat) == s,
    decreases s.len(),
{
    if s.len() == 0 {
    } else if starts_with(s, pat) {
        let rest = s.skip(pat.len() as int);
        lemma_split_join_roundtrip(rest, pat);
        lemma_split_on_pattern_nonempty(rest, pat);
        lemma_join_cons(seq![], split_on_pattern(rest, pat), pat);
        assert(s.subrange(0, pat.len() as int) == pat);
        assert(Seq::<char>::empty() + pat + rest =~= s);
    } else {
        let rest = s.drop_first();
        lemma_split_join_roundtrip(rest, pat);
        lemma_split_on_pattern_nonempty(rest, pat);
        lemma_join_prefix_first(seq![s[0]], split_on_pattern(rest, pat), pat);
        assert(seq![s[0]] + rest =~= s);
    }
}

/// The JSON blobs of a chunk of a streamed answer: the pieces between the
/// separators "\ndata: ".
pub fn split_data_blobs(chunk: &str) -> (r: Vec<String>)
    ensures
        r@.map_values(|b: String| b@) == split_on_pattern(chunk@, "\ndata: "@),
        join(r@.map_values(|b: String| b@), "\ndata: "@) == chunk@,
{
    let s = chars_of(chunk);
    let pat = chars_of("\ndata: ");
    proof {
        reveal_strlit("\ndata: ");
        lemma_split_join_roundtrip(chunk@, "\ndata: "@);
    }
    let ghost sv = s@;
    let ghost pv = pat@;
    let n = s.len();
    let mut done: Vec<Vec<char>> = Vec::new();
    let mut i: usize = 0;
    let mut cur: Vec<char> = Vec::new();
    // Scanning from the left: `done` holds the completed pieces, `cur` the
    // piece being read, and `split_on_pattern` of the rest completes them.
    assert(sv.skip(0) =~= sv);
    proof {
        lemma_split_on_pattern_nonempty(sv, pv);
        let rest = split_on_pattern(sv, pv);
        assert(views(done@) =~= Seq::<Seq<char>>::empty());
        assert(cur@ + rest[0] =~= rest[0]);
        assert(Seq::<Seq<char>>::empty() + seq![rest[0]] + rest.drop_first() =~= rest);
    }
    while i < n
        invariant
            n == sv.len(),
            sv == s@,
            pv == pat@,
            pv.len() > 0,
            i <= n,
            ({
                let rest = split_on_pattern(sv.skip(i as int), pv);
                views(done@) + seq![cur@ + rest[0]] + rest.drop_first() == split_on_pattern(sv, pv)
            }),
        decreases n - i,
    {
        let ghost tail = sv.skip(i as int);
        proof {
            lemma_split_on_pattern_nonempty(tail, pv);
        }
        if occurs_at_exec(s.as_slice(), pat.as_slice(), i) {
            proof {
                assert(tail.subrange(0, pv.len() as int) =~= sv.subrange(i as int, i + pv.len()));
                assert(tail.skip(pv.len() as int) =~= sv.skip(i + pv.len()));
                lemma_split_on_pattern_nonempty(sv.skip(i + pv.len()), pv);
            }
            let ghost d0 = views(done@);
            let ghost c0 = cur@;
            let piece = cur;
            done.push(piece);
            assert(views(done@) =~= d0.push(c0));
            cur = Vec::new();
            i = i + pat.len();
            proof {
                let rest = split_on_pattern(sv.skip(i as int), pv);
                assert(seq![c0 + seq![]] + rest =~= seq![c0] + rest);
                assert(views(done@) + seq![cur@ + rest[0]] + rest.drop_first() =~= d0 + seq![c0
                    + seq![]] + rest);
            }
        } else {
            proof {
                if starts_with(tail, pv) {
                    assert(tail.subrange(0, pv.len() as int) =~= sv.subrange(
                        i as int,
                        i + pv.len(),
                    ));
                }
                assert(tail.drop_first() =~= sv.skip(i + 1));
                lemma_split_on_pattern_nonempty(sv.skip(i + 1), pv);
            }
            let ghost c0 = cur@;
            cur.push(s[i]);
            i = i + 1;
            proof {
                let rest = split_on_pattern(sv.skip(i as int), pv);
                assert(cur@ + rest[0] =~= c0 + (seq![tail[0]] + rest[0]));
                assert(rest.update(0, seq![tail[0]] + rest[0]).drop_first() =~= rest.drop_first());
            }
        }
    }
    assert(sv.skip(i as int) =~= Seq::<char>::empty());
    let ghost d0 = views(done@);
    let ghost c0 = cur@;
    done.push(cur);
    assert(views(done@) =~= d0.push(c0));
    assert(c0 + Seq::<char>::empty() =~= c0);
    assert(seq![Seq::<char>::empty()].drop_first() =~= Seq::<Seq<char>>::empty());
    assert(views(done@) =~= split_on_pattern(sv, pv));
    let mut out: Vec<String> = Vec::new();
    let mut k: usize = 0;
    while k < done.len()
        invariant
            k <= done@.len(),
            out@.map_values(|b: String| b@) == views(done@).take(k as int),
        decreases done.len() - k,
    {
        let ghost ov = out@.map_values(|b: String| b@);
        let piece = string_of(done[k].as_slice());
        assert(piece@ == views(done@)[k as int]);
        let ghost o0 = out@;
        let ghost pw = piece@;
        out.push(piece);
        assert(out@.map_values(|b: String| b@) =~= o0.map_values(|b: String| b@).push(pw));
        assert(out@.map_values(|b: String| b@) =~= views(done@).take(k + 1));
        k = k + 1;
    }
    assert(views(done@).take(k as int) =~= views(done@));
    out
}

/// What the stream handler does with one blob of a chunk.
#[derive(Debug)]
pub enum BlobAction {
    /// An empty blob or a lone line break: nothing to do.
    Skip,
    /// "[DONE]": the rest of the chunk is not read.
    Done,
    /// Nothing left to parse (reported as an invalid chunk).
    Invalid,
    /// The JSON text to parse: the blob from its first '{' on, or the whole
    /// blob when it has none.
    Parse(String),
}

/// The blob from its first '{' on, or the whole blob when it has none.
pub open spec fn from_first_brace(b: Seq<char>) -> Seq<char> {
    if exists|i: int| 0 <= i < b.len() && b[i] == '{' {
        let i = choose|i: int| 0 <= i < b.len() && b[i] == '{' && forall|j: int| 0 <= j < i ==> b[j] != '{';
        b.skip(i)
    } else {
        b
    }
}

/// Decides what to do with a blob (see `BlobAction`).
pub fn classify_blob(blob: &str) -> (r: BlobAction)
    ensures
        (blob@.len() == 0 || blob@ == "\n"@) <==> r is Skip,
        r is Done <==> (!(blob@.len() == 0 || blob@ == "\n"@) && blob@ == "[DONE]"@),
        r matches BlobAction::Parse(j) ==> j@ == from_first_brace(blob@) && j@.len() > 0,
        r is Invalid ==> from_first_brace(blob@).len() == 0,
        !(blob@.len() == 0 || blob@ == "\n"@ || blob@ == "[DONE]"@) ==> (r is Parse || r is Invalid),
{
    let b = chars_of(blob);
    if b.len() == 0 || str_equal(blob, "\n") {
        return BlobAction::Skip;
    }
    if str_equal(blob, "[DONE]") {
        return BlobAction::Done;
    }
    let mut i: usize = 0;
    while i < b.len() && b[i] != '{'
        invariant
            i <= b@.len(),
            forall|j: int| 0 <= j < i ==> b@[j] != '{',
        decreases b.len() - i,
    {
        i = i + 1;
    }
    let offset = if i < b.len() {
        i
    } else {
        0
    };
    let mut json: Vec<char> = Vec::new();
    let mut k: usize = offset;
    while k < b.len()
        invariant
            offset <= k <= b@.len(),
            json@ == b@.subrange(offset as int, k as int),
        decreases b.len() - k,
    {
        json.push(b[k]);
        k = k + 1;
    }
    proof {
        if i < b@.len() {
            let w = choose|w: int| 0 <= w < b@.len() && b@[w] == '{' && forall|j: int|
                0 <= j < w ==> b@[j] != '{';
            assert(0 <= i < b@.len() && b@[i as int] == '{' && forall|j: int|
                0 <= j < i ==> b@[j] != '{');
            if w < i {
                assert(b@[w] != '{');
            } else if w > i {
                assert(b@[i as int] != '{');
            }
            assert(json@ =~= b@.skip(i as int));
        } else {
            assert(!(exists|w: int| 0 <= w < b@.len() && b@[w] == '{'));
            assert(json@ =~= b@);
        }
    }
    if json.len() == 0 {
        BlobAction::Invalid
    } else {
        BlobAction::Parse(string_of(json.as_slice()))
    }
}

/// A parsed chunk of a streamed answer, by the fields the handler reads.
pub struct ResponseChunk {
    pub content: Option<String>,
    pub choices: Option<Vec<Choice>>,
}

/// What the stream handler does with a parsed chunk.
#[derive(Debug)]
pub enum ChunkAction {
    /// The chunk carries a whole `content`: it is shown (when not empty) and
    /// nothing else of the chunk is read.
    Content(String),
    /// The chunk has no choice to read.
    NoChoices,
    /// The first choice has a finish reason: the rest of the chunk is not
    /// read.
    Finished,
    /// Text to pass on to the listener.
    Emit(String),
    /// Nothing to pass on.
    Nothing,
}

/// The state of the stream handler between chunks: whether the next text
/// gets a leading space because a line break or a space was held back.
pub struct CompletionStream {
    pub add_newline: bool,
    pub add_space: bool,
}

/// A text made of whitespace only (its trimmed form is empty).
pub open spec fn blank(s: Seq<char>) -> bool {
    trim(s).len() == 0
}

/// The handler's step on the text of a delta: a pending line break or space
/// becomes a leading space (and is no longer pending); a text that is then
/// blank is held back, as a pending line break when it ends with one and as
/// a pending space otherwise; any other text is passed on.
pub open spec fn delta_step(add_newline: bool, add_space: bool, content: Seq<char>) -> (
    bool,
    bool,
    Option<Seq<char>>,
) {
    let (text, nl, sp) = if add_newline {
        (seq![' '] + content, false, add_space)
    } else if add_space {
        (seq![' '] + content, add_newline, false)
    } else {
        (content, add_newline, add_space)
    };
    if ends_with(text, seq!['\n']) && blank(text) {
        (true, sp, None)
    } else if blank(text) {
        (nl, true, None)
    } else {
        (nl, sp, Some(text))
    }
}

impl CompletionStream {
    /// The state at the start of an answer: nothing pending.
    pub fn new() -> (r: Self)
        ensures
            !r.add_newline,
            !r.add_space,
    {
        CompletionStream { add_newline: false, add_space: false }
    }

    /// The step on the text of a delta (see `delta_step`). Text that is
    /// passed on is never blank.
    pub fn on_delta(&mut self, content: &str) -> (r: Option<String>)
        ensures
            ({
                let (nl, sp, out) = delta_step(old(self).add_newline, old(self).add_space, content@);
                &&& final(self).add_newline == nl
                &&& final(self).add_space == sp
                &&& match r {
                    Some(t) => out == Some(t@),
                    None => out is None,
                }
            }),
            r matches Some(t) ==> !blank(t@),
    {
        let c = chars_of(content);
        let mut text: Vec<char> = Vec::new();
        if self.add_newline {
            self.add_newline = false;
            text.push(' ');
        } else if self.add_space {
            self.add_space = false;
            text.push(' ');
        }
        append_chars(&mut text, c.as_slice());
        let nl = vec!['\n'];
        assert(nl@ =~= seq!['\n']);
        let trimmed = trim_exec(text.as_slice());
        let is_blank = trimmed.len() == 0;
        if ends_with_exec(text.as_slice(), nl.as_slice()) && is_blank {
            self.add_newline = true;
            return None;
        }
        if is_blank {
            self.add_space = true;
            return None;
        }
        Some(string_of(text.as_slice()))
    }

    /// The handler's step on a parsed chunk: a chunk with `content` shows
    /// it; otherwise the first choice decides: a finish reason ends the
    /// chunk, and the text of its delta goes through `on_delta`.
    pub fn on_chunk(&mut self, chunk: &ResponseChunk) -> (r: ChunkAction)
        ensures
            chunk.content matches Some(c) ==> r == ChunkAction::Content(c) && *final(self) == *old(self),
            chunk.content is None ==> match chunk.choices {
                Some(cs) if cs@.len() > 0 => {
                    let choice = cs@[0];
                    if choice.finish_reason is Some {
                        r is Finished && *final(self) == *old(self)
                    } else {
                        match choice.delta.content {
                            Some(t) => {
                                let (nl, sp, out) = delta_step(
                                    old(self).add_newline,
                                    old(self).add_space,
                                    t@,
                                );
                                &&& final(self).add_newline == nl
                                &&& final(self).add_space == sp
                                &&& match r {
                                    ChunkAction::Emit(e) => out == Some(e@),
                                    ChunkAction::Nothing => out is None,
                                    _ => false,
                                }
                            },
                            None => r is Nothing && *final(self) == *old(self),
                        }
                    }
                },
                _ => r is NoChoices && *final(self) == *old(self),
            },
    {
        match &chunk.content {
            Some(c) => {
                return ChunkAction::Content(c.clone());
            },
            None => {},
        }
        match &chunk.choices {
            Some(cs) => {
                if cs.len() == 0 {
                    return ChunkAction::NoChoices;
                }
                let choice = &cs[0];
                if choice.finish_reason.is_some() {
                    return ChunkAction::Finished;
                }
                match &choice.delta.content {
                    Some(t) => match self.on_delta(t.as_str()) {
                        Some(e) => ChunkAction::Emit(e),
                        None => ChunkAction::Nothing,
                    },
                    None => ChunkAction::Nothing,
                }
            },
            None => ChunkAction::NoChoices,
        }
    }
}

/// Whether a message of the stream handler reports an error (starts with
/// "ERROR:").
pub fn is_error_report(message: &str) -> (r: bool)
    ensures
        r == starts_with(message@, "ERROR:"@),
{
    let m = chars_of(message);
    let p = chars_of("ERROR:");
    starts_with_exec(m.as_slice(), p.as_slice())
}

} // verus!
