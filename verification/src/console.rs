//! Breaking streamed LLM output into terminal lines.

use vstd::prelude::*;
use crate::text::{append_chars, chars_of, string_of};

verus! {

/// The position of the first `c` in `s`.
pub open spec fn find_char(s: Seq<char>, c: char) -> Option<int>
    decreases s.len(),
{
    if s.len() == 0 {
        None
    } else if s[0] == c {
        Some(0)
    } else {
        match find_char(s.drop_first(), c) {
            Some(i) => Some(i + 1),
            None => None,
        }
    }
}

/// Where the first delimiter asks to break a token: before the first line
/// break if there is one, else after the first '.', else after the first
/// ',', '?' or '!' (the first of these characters that the token holds,
/// taken in that order).
pub open spec fn delimiter_break(s: Seq<char>) -> Option<int> {
    match find_char(s, '\n') {
        Some(p) => Some(p),
        None => match find_char(s, '.') {
            Some(p) => Some(p + 1),
            None => match find_char(s, ',') {
                Some(p) => Some(p + 1),
                None => match find_char(s, '?') {
                    Some(p) => Some(p + 1),
                    None => match find_char(s, '!') {
                        Some(p) => Some(p + 1),
                        None => None,
                    },
                },
            },
        },
    }
}

/// Where a token that arrives on a full terminal line (80 or more
/// characters) is broken, if anywhere: at the delimiter break; and when
/// that leaves nothing after the break, after the first space instead, if
/// there is one.
pub open spec fn line_break_at(s: Seq<char>) -> Option<int> {
    let first = match delimiter_break(s) {
        Some(e) => if e < s.len() {
            e
        } else {
            s.len() as int
        },
        None => s.len() as int,
    };
    if first == s.len() {
        match find_char(s, ' ') {
            Some(p) => Some(if p + 1 < s.len() {
                p + 1
            } else {
                s.len() as int
            }),
            None => match delimiter_break(s) {
                Some(_) => Some(first),
                None => None,
            },
        }
    } else {
        Some(first)
    }
}

/// What is printed for a token and the terminal line length afterwards:
/// on a full line (80 or more) a token with a break point is printed with a
/// line break there and the line length starts again at 0; otherwise the
/// token is printed as it is and the length is kept.
pub open spec fn long_string_output(s: Seq<char>, terminal_token_len: nat) -> (Seq<char>, nat) {
    if terminal_token_len >= 80 {
        match line_break_at(s) {
            Some(p) => (s.take(p) + seq!['\n'] + s.skip(p), 0),
            None => (s, terminal_token_len),
        }
    } else {
        (s, terminal_token_len)
    }
}

fn find_char_exec(s: &[char], c: char) -> (r: Option<usize>)
    ensures
        match r {
            Some(i) => find_char(s@, c) == Some(i as int),
            None => find_char(s@, c) is None,
        },
{
    let mut i: usize = 0;
    assert(s@.skip(0) =~= s@);
    while i < s.len()
        invariant
            i <= s@.len(),
            find_char(s@, c) == match find_char(s@.skip(i as int), c) {
                Some(k) => Some(k + i),
                None => None,
            },
        decreases s.len() - i,
    {
        let ghost rest = s@.skip(i as int);
        assert(rest.drop_first() =~= s@.skip(i + 1));
        if s[i] == c {
            return Some(i);
        }
        i = i + 1;
    }
    assert(s@.skip(i as int) =~= Seq::<char>::empty());
    None
}

proof fn lemma_find_char_skip0(s: Seq<char>, c: char)
    ensures
        find_char(s, c) == match find_char(s.skip(0), c) {
            Some(k) => Some(k + 0),
            None => None,
        },
{
    assert(s.skip(0) =~= s);
}

proof fn lemma_find_char_bound(s: Seq<char>, c: char)
    ensures
        find_char(s, c) matches Some(p) ==> 0 <= p < s.len() && s[p] == c,
    decreases s.len(),
{
    if s.len() > 0 && s[0] != c {
        lemma_find_char_bound(s.drop_first(), c);
    }
}

pub(crate) proof fn lemma_line_break_bounds(s: Seq<char>)
    ensures
        line_break_at(s) matches Some(p) ==> 0 <= p <= s.len(),
{
    lemma_find_char_bound(s, '\n');
    lemma_find_char_bound(s, '.');
    lemma_find_char_bound(s, ',');
    lemma_find_char_bound(s, '?');
    lemma_find_char_bound(s, '!');
    lemma_find_char_bound(s, ' ');
}

fn find_char_from_start(s: &[char], c: char) -> (r: Option<usize>)
    ensures
        match r {
            Some(i) => find_char(s@, c) == Some(i as int) && i < s@.len(),
            None => find_char(s@, c) is None,
        },
{
    proof {
        lemma_find_char_skip0(s@, c);
        lemma_find_char_bound(s@, c);
    }
    find_char_exec(s, c)
}

fn delimiter_break_exec(s: &[char]) -> (r: Option<usize>)
    ensures
        match r {
            Some(e) => delimiter_break(s@) == Some(e as int),
            None => delimiter_break(s@) is None,
        },
{
    let n = s.len();
    if let Some(p) = find_char_from_start(s, '\n') {
        return Some(p);
    }
    if let Some(p) = find_char_from_start(s, '.') {
        return Some(p + 1);
    }
    if let Some(p) = find_char_from_start(s, ',') {
        return Some(p + 1);
    }
    if let Some(p) = find_char_from_start(s, '?') {
        return Some(p + 1);
    }
    if let Some(p) = find_char_from_start(s, '!') {
        return Some(p + 1);
    }
    None
}

/// Where a token on a full line is broken (see `line_break_at`).
pub fn line_break_exec(s: &[char]) -> (r: Option<usize>)
    ensures
        match r {
            Some(p) => line_break_at(s@) == Some(p as int) && p <= s@.len(),
            None => line_break_at(s@) is None,
        },
{
    let len = s.len();
    let delim = delimiter_break_exec(s);
    let mut split_pos = len;
    let mut found = false;
    if let Some(e) = delim {
        if e < split_pos {
            split_pos = e;
        }
        found = true;
    }
    if split_pos == len {
        if let Some(p) = find_char_from_start(s, ' ') {
            let end_pos = p + 1;
            if end_pos < split_pos {
                split_pos = end_pos;
            }
            found = true;
        }
    }
    if found {
        Some(split_pos)
    } else {
        None
    }
}

/// The text printed for a streamed token and the new terminal line length
/// (see `long_string_output`).
pub fn long_string_text(received: &str, terminal_token_len: usize) -> (r: (String, usize))
    ensures
        (r.0@, r.1 as nat) == long_string_output(received@, terminal_token_len as nat),
{
    let s = chars_of(received);
    if terminal_token_len < 80 {
        return (string_of(s.as_slice()), terminal_token_len);
    }
    let len = s.len();
    match line_break_exec(s.as_slice()) {
        Some(split_pos) => {
            let mut out: Vec<char> = Vec::new();
            let mut k: usize = 0;
            while k < split_pos
                invariant
                    split_pos <= len == s@.len(),
                    k <= split_pos,
                    out@ == s@.take(k as int),
                decreases split_pos - k,
            {
                out.push(s[k]);
                k = k + 1;
            }
            out.push('\n');
            let mut rest: Vec<char> = Vec::new();
            while k < len
                invariant
                    split_pos <= k <= len == s@.len(),
                    rest@ == s@.subrange(split_pos as int, k as int),
                decreases len - k,
            {
                rest.push(s[k]);
                k = k + 1;
            }
            append_chars(&mut out, rest.as_slice());
            assert(out@ =~= s@.take(split_pos as int) + seq!['\n'] + s@.skip(split_pos as int));
            (string_of(out.as_slice()), 0)
        },
        None => (string_of(s.as_slice()), terminal_token_len),
    }
}

} // verus!
