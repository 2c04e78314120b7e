//! The decisions of the main query loop: the log level, the prompt format of
//! a local model, when the loop ends, when captured packets are handed to
//! the model, how the history is cut to its size limit, and how the streamed
//! answer is cut into paragraphs for images and speech.

use vstd::prelude::*;
use crate::speech_text::{str_to_lowercase, unicode_lower};
use crate::console::{line_break_at, line_break_exec, long_string_output, long_string_text};
use crate::openai_api::Message;
use crate::text::{append_chars, append_str, chars_of, contains_exec, contains_seq, str_equal, string_of};
use vstd::utf8::{encode_utf8, is_ascii_chars};

verus! {

// ---------------------------------------------------------------------------
// Settings
// ---------------------------------------------------------------------------

/// The level of log messages that are shown.
#[derive(Clone, Copy, Debug, PartialEq, Eq, Structural)]
pub enum LogLevel {
    Error,
    Warn,
    Info,
    Debug,
    Trace,
}

/// The level named by a setting, in any case; an unknown name gives `Info`.
pub open spec fn level_named(lowered: Seq<char>) -> LogLevel {
    if lowered == "error"@ {
        LogLevel::Error
    } else if lowered == "warn"@ {
        LogLevel::Warn
    } else if lowered == "info"@ {
        LogLevel::Info
    } else if lowered == "debug"@ {
        LogLevel::Debug
    } else if lowered == "trace"@ {
        LogLevel::Trace
    } else {
        LogLevel::Info
    }
}

/// The log level of the `--loglevel` setting (see `level_named`, applied to
/// the setting in lower case).
pub fn log_level_for(loglevel: &str) -> (r: LogLevel)
    ensures
        r == level_named(unicode_lower(loglevel@)),
{
    let lowered = str_to_lowercase(loglevel);
    let l = lowered.as_str();
    if str_equal(l, "error") {
        LogLevel::Error
    } else if str_equal(l, "warn") {
        LogLevel::Warn
    } else if str_equal(l, "info") {
        LogLevel::Info
    } else if str_equal(l, "debug") {
        LogLevel::Debug
    } else if str_equal(l, "trace") {
        LogLevel::Trace
    } else {
        LogLevel::Info
    }
}

/// The prompt format for a local model: "llama2" for Mistral models whose id
/// holds "Instruct", "google" for the Gemma models "7b-it" and "2b-it", and
/// none (empty) otherwise.
pub open spec fn chat_format(candle_llm: Seq<char>, model_id: Seq<char>) -> Seq<char> {
    if candle_llm == "mistral"@ {
        if contains_seq(model_id, "Instruct"@) {
            "llama2"@
        } else {
            seq![]
        }
    } else if candle_llm == "gemma"@ {
        if model_id == "7b-it"@ || model_id == "2b-it"@ {
            "google"@
        } else {
            seq![]
        }
    } else {
        seq![]
    }
}

/// Chooses the prompt format for a local model (see `chat_format`).
pub fn chat_format_for(candle_llm: &str, model_id: &str) -> (r: String)
    ensures
        r@ == chat_format(candle_llm@, model_id@),
{
    if str_equal(candle_llm, "mistral") {
        let id = chars_of(model_id);
        let instruct = chars_of("Instruct");
        if contains_exec(id.as_slice(), instruct.as_slice()) {
            string_of(chars_of("llama2").as_slice())
        } else {
            String::new()
        }
    } else if str_equal(candle_llm, "gemma") {
        if str_equal(model_id, "7b-it") || str_equal(model_id, "2b-it") {
            string_of(chars_of("google").as_slice())
        } else {
            String::new()
        }
    } else {
        String::new()
    }
}

/// Whether the query loop stops after iteration `count`: a single run (not a
/// daemon, at most one iteration asked for) stops at once, and a run of
/// several iterations stops at the last one.
pub fn iteration_done(daemon: bool, max_iterations: i32, count: i32) -> (r: bool)
    ensures
        r == ((!daemon && max_iterations <= 1) || (max_iterations > 1 && max_iterations == count)),
{
    (!daemon && max_iterations <= 1) || (max_iterations > 1 && max_iterations == count)
}

/// Whether the collected packets go to the model now: always when there is
/// no poll interval, and otherwise once more whole seconds than the interval
/// (in milliseconds) has passed since the last batch and more packets than
/// the batch size were collected.
pub fn batch_ready(poll_interval_ms: u64, secs_since_last: u64, collected: usize, packet_count: usize) -> (r: bool)
    ensures
        r == (poll_interval_ms == 0 || (secs_since_last > poll_interval_ms / 1000 && collected
            > packet_count)),
{
    poll_interval_ms == 0 || (secs_since_last > poll_interval_ms / 1000 && collected > packet_count)
}

// ---------------------------------------------------------------------------
// History size
// ---------------------------------------------------------------------------

/// A message as its role and its text.
pub open spec fn message_view(m: Message) -> (Seq<char>, Seq<char>) {
    (m.role@, m.content@)
}

/// The roles and texts of some messages.
pub open spec fn messages_view(ms: Seq<Message>) -> Seq<(Seq<char>, Seq<char>)> {
    ms.map_values(|m: Message| message_view(m))
}

/// The messages whose role is "system" (`system` set) or is another one
/// (`system` clear), in their order.
pub open spec fn with_role(ms: Seq<(Seq<char>, Seq<char>)>, system: bool) -> Seq<(Seq<char>, Seq<char>)>
    decreases ms.len(),
{
    if ms.len() == 0 {
        seq![]
    } else {
        let rest = with_role(ms.drop_last(), system);
        if (ms.last().0 == "system"@) == system {
            rest.push(ms.last())
        } else {
            rest
        }
    }
}

/// The texts of some messages.
pub open spec fn texts(ms: Seq<(Seq<char>, Seq<char>)>) -> Seq<Seq<char>> {
    ms.map_values(|m: (Seq<char>, Seq<char>)| m.1)
}

/// The length of a text in bytes (UTF-8).
pub open spec fn byte_len(s: Seq<char>) -> nat {
    encode_utf8(s).len()
}

/// The total length of some texts in bytes.
pub open spec fn total_bytes(cs: Seq<Seq<char>>) -> nat
    decreases cs.len(),
{
    if cs.len() == 0 {
        0
    } else {
        byte_len(cs[0]) + total_bytes(cs.drop_first())
    }
}

/// The first `n` characters of a text (all of them when it has fewer).
pub open spec fn take_chars(s: Seq<char>, n: int) -> Seq<char> {
    if n >= s.len() {
        s
    } else {
        s.take(n)
    }
}

/// Text `i` of `cs` once `excess` bytes are cut from the end of the texts,
/// the last text first: a text that lies wholly within the last `excess`
/// bytes is emptied, one that lies wholly before them is kept, and the one
/// in which they begin keeps as many characters as it keeps bytes.
pub open spec fn cut_text(cs: Seq<Seq<char>>, excess: int, i: int) -> Seq<char> {
    let after = total_bytes(cs.skip(i + 1));
    let here = byte_len(cs[i]);
    if after + here <= excess {
        seq![]
    } else if after >= excess {
        cs[i]
    } else {
        take_chars(cs[i], here - (excess - after))
    }
}

/// The texts kept under a limit of `limit` bytes (0: no limit).
pub open spec fn kept_texts(cs: Seq<Seq<char>>, limit: nat) -> Seq<Seq<char>> {
    if limit > 0 && total_bytes(cs) > limit {
        Seq::new(cs.len(), |i: int| cut_text(cs, total_bytes(cs) - limit, i))
    } else {
        cs
    }
}

/// The history as it is sent to the model: the system messages first, in
/// their order and unchanged, then the other messages in their order, with
/// their texts cut to `limit` bytes from the end (see `kept_texts`).
pub open spec fn trimmed_history(ms: Seq<(Seq<char>, Seq<char>)>, limit: nat) -> Seq<(Seq<char>, Seq<char>)> {
    let sys = with_role(ms, true);
    let other = with_role(ms, false);
    let kept = kept_texts(texts(other), limit);
    sys + Seq::new(other.len(), |j: int| (other[j].0, kept[j]))
}

proof fn lemma_total_bytes_skip(cs: Seq<Seq<char>>, k: int)
    requires
        0 <= k < cs.len(),
    ensures
        total_bytes(cs.skip(k)) == byte_len(cs[k]) + total_bytes(cs.skip(k + 1)),
{
    assert(cs.skip(k).drop_first() =~= cs.skip(k + 1));
    assert(cs.skip(k)[0] == cs[k]);
}

proof fn lemma_total_bytes_suffix(cs: Seq<Seq<char>>, k: int)
    requires
        0 <= k <= cs.len(),
    ensures
        total_bytes(cs.skip(k)) <= total_bytes(cs),
    decreases k,
{
    if k > 0 {
        lemma_total_bytes_suffix(cs, k - 1);
        lemma_total_bytes_skip(cs, k - 1);
    } else {
        assert(cs.skip(0) =~= cs);
    }
}

proof fn lemma_ascii_byte_len(s: Seq<char>)
    requires
        is_ascii_chars(s),
    ensures
        byte_len(s) == s.len(),
{
    vstd::utf8::is_ascii_chars_encode_utf8(s);
}

proof fn lemma_kept_suffix_bytes(cs: Seq<Seq<char>>, excess: int, k: int)
    requires
        0 <= k <= cs.len(),
        excess >= 0,
        forall|i: int| 0 <= i < cs.len() ==> is_ascii_chars(#[trigger] cs[i]),
    ensures
        ({
            let kept = Seq::new(cs.len(), |i: int| cut_text(cs, excess, i));
            let rest = total_bytes(cs.skip(k)) - excess;
            total_bytes(kept.skip(k)) == if rest > 0 {
                rest
            } else {
                0
            }
        }),
    decreases cs.len() - k,
{
    let kept = Seq::new(cs.len(), |i: int| cut_text(cs, excess, i));
    if k == cs.len() {
        assert(kept.skip(k) =~= Seq::<Seq<char>>::empty());
        assert(cs.skip(k) =~= Seq::<Seq<char>>::empty());
    } else {
        lemma_kept_suffix_bytes(cs, excess, k + 1);
        lemma_total_bytes_skip(cs, k);
        lemma_total_bytes_skip(kept, k);
        let after = total_bytes(cs.skip(k + 1));
        let here = byte_len(cs[k]);
        lemma_ascii_byte_len(cs[k]);
        if after + here <= excess {
            lemma_ascii_byte_len(Seq::<char>::empty());
        } else if after >= excess {
        } else {
            let m = here - (excess - after);
            let t = cs[k].take(m);
            assert(is_ascii_chars(t)) by {
                assert forall|i: int| 0 <= i < t.len() implies '\0' <= #[trigger] t[i] <= '\u{7f}' by {
                    assert(t[i] == cs[k][i]);
                    assert(is_ascii_chars(cs[k]));
                }
            }
            lemma_ascii_byte_len(t);
        }
    }
}

/// For texts in ASCII, a history cut to a limit holds exactly the limit's
/// number of bytes of text when it held more, and all of its text
/// otherwise.
pub proof fn lemma_kept_texts_fit(cs: Seq<Seq<char>>, limit: nat)
    requires
        limit > 0,
        forall|i: int| 0 <= i < cs.len() ==> is_ascii_chars(#[trigger] cs[i]),
    ensures
        total_bytes(kept_texts(cs, limit)) == if total_bytes(cs) > limit {
            limit
        } else {
            total_bytes(cs)
        },
{
    if total_bytes(cs) > limit {
        let excess = total_bytes(cs) - limit;
        lemma_kept_suffix_bytes(cs, excess, 0);
        let kept = Seq::new(cs.len(), |i: int| cut_text(cs, excess, i));
        assert(kept.skip(0) =~= kept);
        assert(cs.skip(0) =~= cs);
    }
}

fn take_chars_exec(s: &str, n: usize) -> (r: String)
    ensures
        r@ == take_chars(s@, n as int),
{
    let c = chars_of(s);
    if n >= c.len() {
        return string_of(c.as_slice());
    }
    let mut out: Vec<char> = Vec::new();
    let mut k: usize = 0;
    while k < n
        invariant
            n < c@.len(),
            k <= n,
            out@ == c@.take(k as int),
        decreases n - k,
    {
        out.push(c[k]);
        k = k + 1;
    }
    string_of(out.as_slice())
}

/// Cuts the history to `llm_history_size` bytes of text (see
/// `trimmed_history`): when the texts of the messages other than the system
/// messages hold more bytes than that (and the limit is not 0), bytes are cut
/// from the end, emptying the last messages first; the system messages come
/// first and are never cut.
pub fn trim_history(messages: Vec<Message>, llm_history_size: usize) -> (r: Vec<Message>)
    requires
        total_bytes(texts(with_role(messages_view(messages@), false))) <= usize::MAX,
    ensures
        messages_view(r@) == trimmed_history(messages_view(messages@), llm_history_size as nat),
{
    let ghost mv = messages_view(messages@);
    let mut sys: Vec<Message> = Vec::new();
    let mut other: Vec<Message> = Vec::new();
    let mut i: usize = 0;
    while i < messages.len()
        invariant
            mv == messages_view(messages@),
            i <= messages@.len(),
            messages_view(sys@) == with_role(mv.take(i as int), true),
            messages_view(other@) == with_role(mv.take(i as int), false),
        decreases messages.len() - i,
    {
        let m = &messages[i];
        let copy = Message { role: m.role.clone(), content: m.content.clone() };
        assert(mv.take(i + 1).drop_last() =~= mv.take(i as int));
        assert(mv.take(i + 1).last() == message_view(messages@[i as int]));
        let ghost s0 = messages_view(sys@);
        let ghost o0 = messages_view(other@);
        if str_equal(m.role.as_str(), "system") {
            sys.push(copy);
            assert(messages_view(sys@) =~= s0.push(message_view(messages@[i as int])));
        } else {
            other.push(copy);
            assert(messages_view(other@) =~= o0.push(message_view(messages@[i as int])));
        }
        i = i + 1;
    }
    assert(mv.take(i as int) =~= mv);
    let ghost ov = messages_view(other@);
    let ghost cs = texts(ov);
    let n = other.len();
    // The byte total of the texts, summed from the end.
    let mut total: usize = 0;
    let mut k: usize = n;
    assert(cs.skip(n as int) =~= Seq::<Seq<char>>::empty());
    while k > 0
        invariant
            n == other@.len() == cs.len(),
            cs == texts(messages_view(other@)),
            total_bytes(cs) <= usize::MAX,
            k <= n,
            total == total_bytes(cs.skip(k as int)),
        decreases k,
    {
        proof {
            lemma_total_bytes_skip(cs, k - 1);
            lemma_total_bytes_suffix(cs, k - 1);
        }
        assert(other@[k - 1].content@ == cs[k - 1]);
        total = total + other[k - 1].content.as_str().len();
        k = k - 1;
    }
    assert(cs.skip(0) =~= cs);
    let mut out: Vec<Message> = sys;
    let ghost sv = messages_view(out@);
    let cut = llm_history_size > 0 && total > llm_history_size;
    let excess: usize = if cut {
        total - llm_history_size
    } else {
        0
    };
    let ghost kept = kept_texts(cs, llm_history_size as nat);
    // `rest` is the byte total of the texts from `j` on.
    let mut rest: usize = total;
    let mut j: usize = 0;
    while j < n
        invariant
            n == other@.len() == cs.len(),
            cs == texts(messages_view(other@)),
            ov == messages_view(other@),
            kept == kept_texts(cs, llm_history_size as nat),
            total == total_bytes(cs),
            cut == (llm_history_size > 0 && total > llm_history_size),
            cut ==> excess == total - llm_history_size,
            j <= n,
            rest == total_bytes(cs.skip(j as int)),
            messages_view(out@) == sv + Seq::new(j as nat, |t: int| (ov[t].0, kept[t])),
        decreases n - j,
    {
        proof {
            lemma_total_bytes_skip(cs, j as int);
        }
        let m = &other[j];
        assert(m.content@ == cs[j as int]);
        let here = m.content.as_str().len();
        let after = rest - here;
        let text = if !cut {
            m.content.clone()
        } else if after + here <= excess {
            String::new()
        } else if after >= excess {
            m.content.clone()
        } else {
            take_chars_exec(m.content.as_str(), here - (excess - after))
        };
        assert(text@ == kept[j as int]);
        let ghost o0 = messages_view(out@);
        out.push(Message { role: m.role.clone(), content: text });
        assert(messages_view(out@) =~= o0.push((ov[j as int].0, kept[j as int])));
        assert(messages_view(out@) =~= sv + Seq::new((j + 1) as nat, |t: int| (ov[t].0, kept[t])));
        rest = after;
        j = j + 1;
    }
    assert(messages_view(out@) =~= trimmed_history(mv, llm_history_size as nat));
    out
}

// ---------------------------------------------------------------------------
// Paragraphs of the streamed answer
// ---------------------------------------------------------------------------

/// `c` occurs in `s`.
pub open spec fn has_char(s: Seq<char>, c: char) -> bool {
    exists|i: int| 0 <= i < s.len() && s[i] == c
}

fn has_char_exec(s: &[char], c: char) -> (r: bool)
    ensures
        r == has_char(s@, c),
{
    let mut i: usize = 0;
    while i < s.len()
        invariant
            i <= s@.len(),
            forall|j: int| 0 <= j < i ==> s@[j] != c,
        decreases s.len() - i,
    {
        if s[i] == c {
            return true;
        }
        i = i + 1;
    }
    false
}

/// Whether a token may end the current paragraph (of `text_bytes` bytes in
/// `tokens` tokens): it holds a line break and the paragraph has begun; or
/// the paragraph is longer than `max_len` bytes and the token holds a '.',
/// '?', line break or '!'; or the paragraph has at least `long_len` bytes
/// and the token holds a space.
pub open spec fn paragraph_boundary(text_bytes: nat, tokens: nat, tok: Seq<char>, max_len: nat, long_len: nat) -> bool {
    ||| (has_char(tok, '\n') && tokens > 0)
    ||| (text_bytes > max_len && (has_char(tok, '.') || has_char(tok, '?') || has_char(tok, '\n')
        || has_char(tok, '!')))
    ||| (text_bytes >= long_len && has_char(tok, ' '))
}

/// Where a token that ends a paragraph is split (see `line_break_at`; at its
/// end when it has no break point).
pub open spec fn split_point(tok: Seq<char>) -> int {
    match line_break_at(tok) {
        Some(p) => p,
        None => tok.len() as int,
    }
}

/// The two parts of a token that ends a paragraph, without the line break
/// at the split if there is one, and whether there was one.
pub open spec fn split_parts(tok: Seq<char>) -> (Seq<char>, Seq<char>, bool) {
    let p = split_point(tok);
    let first = tok.take(p);
    let second = tok.skip(p);
    if first.len() > 0 && first.last() == '\n' {
        (first.drop_last(), second, true)
    } else if second.len() > 0 && second[0] == '\n' {
        (first, second.drop_first(), true)
    } else {
        (first, second, false)
    }
}

/// The state of the splitter between tokens: the text of the current
/// paragraph and how many tokens it holds, the length of the terminal line,
/// and how many paragraphs were handed on.
pub struct ParagraphSplitter {
    pub text: String,
    pub tokens: usize,
    pub terminal_len: usize,
    pub count: usize,
}

/// What a token leads to: the text printed for it, and the paragraph it
/// ends, if any.
pub struct TokenOutcome {
    pub printed: String,
    pub paragraph: Option<String>,
}

/// Whether a token ends the current paragraph: at a boundary (see
/// `paragraph_boundary`) of a begun paragraph longer than `min_len` bytes.
pub open spec fn ends_paragraph(text: Seq<char>, tokens: nat, tok: Seq<char>, max_len: nat, long_len: nat, min_len: nat) -> bool {
    paragraph_boundary(byte_len(text), tokens, tok, max_len, long_len) && tokens > 0 && byte_len(text)
        > min_len
}

/// The step of the splitter on a token, as (text, tokens, terminal line
/// length, paragraph count, printed text, finished paragraph). The token's
/// bytes are added to the line length first. A token that ends the
/// paragraph is split (see `split_parts`): the paragraph with the first part
/// is handed on, the second part begins the next paragraph, and the printed
/// text is the two parts, with a line break between them (and the line
/// length back at 0) when the split dropped one or the paragraph had 79 or
/// more tokens. Any other token joins the paragraph and is printed as
/// `long_string_output` gives it.
pub open spec fn token_step(
    text: Seq<char>,
    tokens: nat,
    terminal_len: nat,
    count: nat,
    tok: Seq<char>,
    max_len: nat,
    long_len: nat,
    min_len: nat,
) -> (Seq<char>, nat, nat, nat, Seq<char>, Option<Seq<char>>) {
    let term = terminal_len + byte_len(tok);
    if ends_paragraph(text, tokens, tok, max_len, long_len, min_len) {
        let (first, second, nl) = split_parts(tok);
        let brk = nl || tokens + 1 >= 80;
        (
            second,
            1,
            if brk {
                0
            } else {
                term
            },
            count + 1,
            first + (if brk {
                seq!['\n']
            } else {
                seq![]
            }) + second,
            Some(text + first),
        )
    } else {
        let (printed, term2) = long_string_output(tok, term);
        (text + tok, tokens + 1, term2, count, printed, None)
    }
}

proof fn lemma_encode_append(a: Seq<char>, b: Seq<char>)
    ensures
        encode_utf8(a + b) == encode_utf8(a) + encode_utf8(b),
    decreases a.len(),
{
    if a.len() == 0 {
        assert(a + b =~= b);
    } else {
        lemma_encode_append(a.drop_first(), b);
        assert((a + b).drop_first() =~= a.drop_first() + b);
        assert((a + b)[0] == a[0]);
    }
}

proof fn lemma_split_parts_keep(tok: Seq<char>)
    ensures
        ({
            let (first, second, nl) = split_parts(tok);
            if nl {
                first + seq!['\n'] + second == tok
            } else {
                first + second == tok
            }
        }),
{
    let p = split_point(tok);
    assert(0 <= p <= tok.len()) by {
        if let Some(q) = line_break_at(tok) {
            crate::console::lemma_line_break_bounds(tok);
        }
    }
    let first = tok.take(p);
    let second = tok.skip(p);
    assert(first + second =~= tok);
    if first.len() > 0 && first.last() == '\n' {
        assert(first.drop_last() + seq!['\n'] + second =~= tok);
    } else if second.len() > 0 && second[0] == '\n' {
        assert(first + seq!['\n'] + second.drop_first() =~= tok);
    }
}

fn is_boundary(text_bytes: usize, tokens: usize, tok: &[char], max_len: usize, long_len: usize) -> (r: bool)
    ensures
        r == paragraph_boundary(text_bytes as nat, tokens as nat, tok@, max_len as nat, long_len as nat),
{
    let has_nl = has_char_exec(tok, '\n');
    (has_nl && tokens > 0) || (text_bytes > max_len && (has_char_exec(tok, '.') || has_char_exec(
        tok,
        '?',
    ) || has_nl || has_char_exec(tok, '!'))) || (text_bytes >= long_len && has_char_exec(tok, ' '))
}

fn split_token(tok: &[char]) -> (r: (Vec<char>, Vec<char>, bool))
    ensures
        (r.0@, r.1@, r.2) == split_parts(tok@),
{
    let len = tok.len();
    let p = match line_break_exec(tok) {
        Some(p) => p,
        None => len,
    };
    let mut first: Vec<char> = Vec::new();
    let mut k: usize = 0;
    while k < p
        invariant
            p <= len == tok@.len(),
            k <= p,
            first@ == tok@.take(k as int),
        decreases p - k,
    {
        first.push(tok[k]);
        k = k + 1;
    }
    let mut second: Vec<char> = Vec::new();
    while k < len
        invariant
            p <= k <= len == tok@.len(),
            second@ == tok@.subrange(p as int, k as int),
        decreases len - k,
    {
        second.push(tok[k]);
        k = k + 1;
    }
    assert(second@ =~= tok@.skip(p as int));
    if first.len() > 0 && first[first.len() - 1] == '\n' {
        first.pop();
        (first, second, true)
    } else if second.len() > 0 && second[0] == '\n' {
        let mut rest: Vec<char> = Vec::new();
        let mut q: usize = 1;
        while q < second.len()
            invariant
                1 <= q <= second@.len(),
                rest@ == second@.subrange(1, q as int),
            decreases second.len() - q,
        {
            rest.push(second[q]);
            q = q + 1;
        }
        assert(rest@ =~= second@.drop_first());
        (first, rest, true)
    } else {
        (first, second, false)
    }
}

impl ParagraphSplitter {
    /// The splitter before the first token.
    pub fn new() -> (r: Self)
        ensures
            r.text@ == Seq::<char>::empty(),
            r.tokens == 0,
            r.terminal_len == 0,
            r.count == 0,
    {
        ParagraphSplitter { text: String::new(), tokens: 0, terminal_len: 0, count: 0 }
    }

    /// Takes the next token of the answer (see `token_step`). A paragraph
    /// handed on is longer than `min_len` bytes.
    pub fn on_token(&mut self, token: &str, max_len: usize, long_len: usize, min_len: usize) -> (r: TokenOutcome)
        requires
            old(self).terminal_len + byte_len(token@) <= usize::MAX,
            byte_len(old(self).text@) + byte_len(token@) <= usize::MAX,
            old(self).tokens < usize::MAX,
            old(self).count < usize::MAX,
        ensures
            ({
                let (text, tokens, term, count, printed, paragraph) = token_step(
                    old(self).text@,
                    old(self).tokens as nat,
                    old(self).terminal_len as nat,
                    old(self).count as nat,
                    token@,
                    max_len as nat,
                    long_len as nat,
                    min_len as nat,
                );
                &&& final(self).text@ == text
                &&& final(self).tokens == tokens
                &&& final(self).terminal_len == term
                &&& final(self).count == count
                &&& r.printed@ == printed
                &&& match r.paragraph {
                    Some(p) => paragraph == Some(p@),
                    None => paragraph is None,
                }
            }),
            r.paragraph matches Some(p) ==> byte_len(p@) > min_len,
            r.paragraph matches Some(p) ==> (old(self).text@ + token@ == p@ + final(self).text@
                || old(self).text@ + token@ == p@ + seq!['\n'] + final(self).text@),
            r.paragraph is None ==> final(self).text@ == old(self).text@ + token@,
    {
        let tok = chars_of(token);
        let term = self.terminal_len + token.len();
        let text_bytes = self.text.as_str().len();
        let ghost t0 = self.text@;
        assert(text_bytes == byte_len(t0));
        assert(term == self.terminal_len + byte_len(token@));
        let boundary = is_boundary(text_bytes, self.tokens, tok.as_slice(), max_len, long_len);
        if boundary && self.tokens > 0 && text_bytes > min_len {
            let (first, second, nl) = split_token(tok.as_slice());
            let brk = nl || self.tokens + 1 >= 80;
            let mut paragraph = chars_of(self.text.as_str());
            append_chars(&mut paragraph, first.as_slice());
            let mut printed = first;
            if brk {
                printed.push('\n');
            }
            append_chars(&mut printed, second.as_slice());
            proof {
                lemma_encode_append(self.text@, split_parts(tok@).0);
                lemma_split_parts_keep(tok@);
                let (f, sc, n) = split_parts(tok@);
                if n {
                    assert(self.text@ + tok@ =~= (self.text@ + f) + seq!['\n'] + sc);
                } else {
                    assert(self.text@ + tok@ =~= (self.text@ + f) + sc);
                }
            }
            self.text = string_of(second.as_slice());
            self.tokens = 1;
            self.terminal_len = if brk {
                0
            } else {
                term
            };
            self.count = self.count + 1;
            TokenOutcome { printed: string_of(printed.as_slice()), paragraph: Some(string_of(paragraph.as_slice())) }
        } else {
            let (printed, term2) = long_string_text(token, term);
            let mut text = chars_of(self.text.as_str());
            append_chars(&mut text, tok.as_slice());
            self.text = string_of(text.as_slice());
            self.tokens = self.tokens + 1;
            self.terminal_len = term2;
            TokenOutcome { printed, paragraph: None }
        }
    }

    /// The end of the answer: a begun paragraph is handed on (and printed)
    /// as it is, and the splitter starts afresh.
    pub fn finish(&mut self) -> (r: Option<String>)
        requires
            old(self).count < usize::MAX,
        ensures
            old(self).tokens > 0 ==> (r matches Some(p) && p@ == old(self).text@),
            old(self).tokens > 0 ==> final(self).count == old(self).count + 1,
            old(self).tokens == 0 ==> r is None && final(self).count == old(self).count,
            final(self).text@ == Seq::<char>::empty(),
            final(self).tokens == 0,
            final(self).terminal_len == old(self).terminal_len,
    {
        if self.tokens > 0 {
            let p = string_of(chars_of(self.text.as_str()).as_slice());
            self.text = String::new();
            self.tokens = 0;
            self.count = self.count + 1;
            Some(p)
        } else {
            self.text = String::new();
            None
        }
    }
}

/// A begun paragraph that is longer than `max_len` and `min_len` bytes ends
/// at a token that holds a '.', a '?', a '!' or a line break: the paragraph
/// is handed on and counted.
pub proof fn lemma_sentence_end_ends_paragraph(
    text: Seq<char>,
    tokens: nat,
    terminal_len: nat,
    count: nat,
    tok: Seq<char>,
    max_len: nat,
    long_len: nat,
    min_len: nat,
)
    requires
        tokens > 0,
        byte_len(text) > max_len,
        byte_len(text) > min_len,
        tok.contains('.') || tok.contains('?') || tok.contains('!') || tok.contains('\n'),
    ensures
        token_step(text, tokens, terminal_len, count, tok, max_len, long_len, min_len).5 is Some,
        token_step(text, tokens, terminal_len, count, tok, max_len, long_len, min_len).3 == count + 1,
{
}

/// A begun paragraph longer than `min_len` bytes ends at a token that holds
/// a line break, whatever its length.
pub proof fn lemma_line_break_ends_paragraph(
    text: Seq<char>,
    tokens: nat,
    terminal_len: nat,
    count: nat,
    tok: Seq<char>,
    max_len: nat,
    long_len: nat,
    min_len: nat,
)
    requires
        tokens > 0,
        byte_len(text) > min_len,
        tok.contains('\n'),
    ensures
        token_step(text, tokens, terminal_len, count, tok, max_len, long_len, min_len).5 is Some,
{
}

/// A begun paragraph of at least `long_len` bytes, and longer than
/// `min_len`, ends at a token that holds a space.
pub proof fn lemma_long_paragraph_ends_at_space(
    text: Seq<char>,
    tokens: nat,
    terminal_len: nat,
    count: nat,
    tok: Seq<char>,
    max_len: nat,
    long_len: nat,
    min_len: nat,
)
    requires
        tokens > 0,
        byte_len(text) >= long_len,
        byte_len(text) > min_len,
        tok.contains(' '),
    ensures
        token_step(text, tokens, terminal_len, count, tok, max_len, long_len, min_len).5 is Some,
{
}

/// No paragraph ends at a token that holds none of '.', '?', '!', a line
/// break or a space, nor before the paragraph has begun or while it is at
/// most `min_len` bytes long: the token joins the paragraph and the count
/// stays.
pub proof fn lemma_paragraph_continues(
    text: Seq<char>,
    tokens: nat,
    terminal_len: nat,
    count: nat,
    tok: Seq<char>,
    max_len: nat,
    long_len: nat,
    min_len: nat,
)
    requires
        tokens == 0 || byte_len(text) <= min_len || !(tok.contains('.') || tok.contains('?')
            || tok.contains('!') || tok.contains('\n') || tok.contains(' ')),
    ensures
        token_step(text, tokens, terminal_len, count, tok, max_len, long_len, min_len).5 is None,
        token_step(text, tokens, terminal_len, count, tok, max_len, long_len, min_len).0 == text + tok,
        token_step(text, tokens, terminal_len, count, tok, max_len, long_len, min_len).1 == tokens + 1,
        token_step(text, tokens, terminal_len, count, tok, max_len, long_len, min_len).3 == count,
{
}

// ---------------------------------------------------------------------------
// Questions about the system
// ---------------------------------------------------------------------------

/// The question about the system's state: the time stamp, the system
/// statistics and the instructions.
pub fn os_stats_question(stamp: &str, stats: &str, query: &str) -> (r: String)
    ensures
        r@ == stamp@ + " System Stats: "@ + stats@ + "\nInstructions: "@ + query@,
{
    let mut out: Vec<char> = Vec::new();
    append_str(&mut out, stamp);
    append_str(&mut out, " System Stats: ");
    append_str(&mut out, stats);
    append_str(&mut out, "\nInstructions: ");
    append_str(&mut out, query);
    string_of(out.as_slice())
}

/// The question about captured network packets: the time stamp, the system
/// statistics, the packet dump and the instructions.
pub fn network_stats_question(stamp: &str, stats: &str, packets: &str, query: &str) -> (r: String)
    ensures
        r@ == stamp@ + " System Stats: "@ + stats@ + "\nPackets: "@ + packets@ + "\nInstructions: "@
            + query@ + "\n"@,
{
    let mut out: Vec<char> = Vec::new();
    append_str(&mut out, stamp);
    append_str(&mut out, " System Stats: ");
    append_str(&mut out, stats);
    append_str(&mut out, "\nPackets: ");
    append_str(&mut out, packets);
    append_str(&mut out, "\nInstructions: ");
    append_str(&mut out, query);
    append_str(&mut out, "\n");
    string_of(out.as_slice())
}

} // verus!
