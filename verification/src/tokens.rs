//! A rough token measure of text: each whitespace-separated word counts as
//! one token per started group of four characters.

use vstd::prelude::*;
use crate::text::{
    chars_of, join, join_first_chars, split_whitespace, string_of, unicode_white_space, views, words,
    ws_scan, char_is_whitespace,
};

verus! {

/// A word cut into chunks of four characters; the last chunk may be shorter.
pub open spec fn chunks4(w: Seq<char>) -> Seq<Seq<char>>
    decreases w.len(),
{
    if w.len() == 0 {
        seq![]
    } else if w.len() <= 4 {
        seq![w]
    } else {
        seq![w.take(4)] + chunks4(w.skip(4))
    }
}

/// The tokens of a list of words, in order: the chunks of each word.
pub open spec fn token_list(ws: Seq<Seq<char>>) -> Seq<Seq<char>>
    decreases ws.len(),
{
    if ws.len() == 0 {
        seq![]
    } else {
        token_list(ws.drop_last()) + chunks4(ws.last())
    }
}

/// The tokens of a text.
pub open spec fn tokens_of(text: Seq<char>) -> Seq<Seq<char>> {
    token_list(words(text))
}

/// The number of tokens of a text.
pub open spec fn token_count(text: Seq<char>) -> nat {
    tokens_of(text).len()
}

/// The sum of the lengths of some character sequences.
pub open spec fn total_len(ws: Seq<Seq<char>>) -> nat
    decreases ws.len(),
{
    if ws.len() == 0 {
        0
    } else {
        total_len(ws.drop_last()) + ws.last().len()
    }
}

proof fn lemma_chunks4_len(w: Seq<char>)
    ensures
        chunks4(w).len() == (w.len() + 3) / 4,
        chunks4(w).len() <= w.len(),
        forall|k: int| 0 <= k < chunks4(w).len() ==> 0 < #[trigger] chunks4(w)[k].len() <= 4,
    decreases w.len(),
{
    if w.len() > 4 {
        lemma_chunks4_len(w.skip(4));
        let rest = chunks4(w.skip(4));
        assert forall|k: int| 0 <= k < chunks4(w).len() implies 0 < #[trigger] chunks4(
            w,
        )[k].len() <= 4 by {
            if k > 0 {
                assert(chunks4(w)[k] == rest[k - 1]);
            }
        }
    }
}

proof fn lemma_chunk_has_no_whitespace(w: Seq<char>)
    requires
        forall|j: int| 0 <= j < w.len() ==> !unicode_white_space(#[trigger] w[j]),
    ensures
        forall|k: int, j: int|
            0 <= k < chunks4(w).len() && 0 <= j < chunks4(w)[k].len() ==> !unicode_white_space(
                #[trigger] chunks4(w)[k][j],
            ),
    decreases w.len(),
{
    if w.len() > 4 {
        let t = w.skip(4);
        assert forall|j: int| 0 <= j < t.len() implies !unicode_white_space(#[trigger] t[j]) by {
            assert(t[j] == w[j + 4]);
        }
        lemma_chunk_has_no_whitespace(t);
        assert forall|k: int, j: int|
            0 <= k < chunks4(w).len() && 0 <= j < chunks4(w)[k].len() implies !unicode_white_space(
            #[trigger] chunks4(w)[k][j],
        ) by {
            if k == 0 {
                assert(chunks4(w)[k][j] == w[j]);
            } else {
                assert(chunks4(w)[k] == chunks4(t)[k - 1]);
            }
        }
    }
}

proof fn lemma_token_list_bounds(ws: Seq<Seq<char>>)
    ensures
        token_list(ws).len() <= total_len(ws),
        forall|k: int| 0 <= k < token_list(ws).len() ==> 0 < #[trigger] token_list(ws)[k].len() <= 4,
    decreases ws.len(),
{
    if ws.len() > 0 {
        lemma_token_list_bounds(ws.drop_last());
        lemma_chunks4_len(ws.last());
        let a = token_list(ws.drop_last());
        let b = chunks4(ws.last());
        assert forall|k: int| 0 <= k < token_list(ws).len() implies 0 < #[trigger] token_list(
            ws,
        )[k].len() <= 4 by {
            if k < a.len() {
                assert(token_list(ws)[k] == a[k]);
            } else {
                assert(token_list(ws)[k] == b[k - a.len()]);
            }
        }
    }
}

/// Every word that `split_whitespace` yields is non-empty and holds no
/// whitespace.
pub proof fn lemma_words_are_words(s: Seq<char>)
    ensures
        forall|k: int| 0 <= k < words(s).len() ==> #[trigger] words(s)[k].len() > 0,
        forall|k: int, j: int|
            0 <= k < words(s).len() && 0 <= j < words(s)[k].len() ==> !unicode_white_space(
                #[trigger] words(s)[k][j],
            ),
        total_len(words(s)) <= s.len(),
{
    lemma_ws_scan_words(s);
    let st = ws_scan(s);
    if st.1.len() > 0 {
        assert(words(s).drop_last() =~= st.0);
    }
}

proof fn lemma_ws_scan_words(s: Seq<char>)
    ensures
        forall|k: int| 0 <= k < ws_scan(s).0.len() ==> #[trigger] ws_scan(s).0[k].len() > 0,
        forall|k: int, j: int|
            0 <= k < ws_scan(s).0.len() && 0 <= j < ws_scan(s).0[k].len() ==> !unicode_white_space(
                #[trigger] ws_scan(s).0[k][j],
            ),
        forall|j: int| 0 <= j < ws_scan(s).1.len() ==> !unicode_white_space(#[trigger] ws_scan(s).1[j]),
        total_len(ws_scan(s).0) + ws_scan(s).1.len() <= s.len(),
    decreases s.len(),
{
    if s.len() > 0 {
        lemma_ws_scan_words(s.drop_last());
        let prev = ws_scan(s.drop_last());
        let c = s.last();
        if unicode_white_space(c) {
            if prev.1.len() > 0 {
                let d = prev.0.push(prev.1);
                assert(d.drop_last() =~= prev.0);
                assert forall|k: int, j: int|
                    0 <= k < d.len() && 0 <= j < d[k].len() implies !unicode_white_space(
                    #[trigger] d[k][j],
                ) by {
                    if k < prev.0.len() {
                        assert(d[k] == prev.0[k]);
                    }
                }
            }
        } else {
            let cur = prev.1.push(c);
            assert forall|j: int| 0 <= j < cur.len() implies !unicode_white_space(#[trigger] cur[j]) by {
                if j < prev.1.len() {
                    assert(cur[j] == prev.1[j]);
                }
            }
        }
    }
}

/// Number of tokens of `text`: every whitespace-separated word counts one
/// token per started group of four characters.
pub fn count_tokens(text: &str) -> (n: usize)
    ensures
        n == token_count(text@),
{
    let chars = chars_of(text);
    let n_chars = chars.len();
    let ws = split_whitespace(chars.as_slice());
    let ghost wv = views(ws@);
    proof {
        lemma_words_are_words(text@);
    }
    let mut count: usize = 0;
    let mut i: usize = 0;
    while i < ws.len()
        invariant
            wv == views(ws@),
            wv == words(text@),
            chars@ == text@,
            n_chars == chars@.len(),
            total_len(wv) <= chars@.len(),
            i <= wv.len(),
            count == token_list(wv.subrange(0, i as int)).len(),
            total_len(wv.subrange(0, i as int)) <= total_len(wv),
        decreases ws.len() - i,
    {
        let ghost pre = wv.subrange(0, (i + 1) as int);
        assert(pre.drop_last() =~= wv.subrange(0, i as int));
        assert(pre.last() == ws[i as int]@);
        proof {
            lemma_chunks4_len(pre.last());
            lemma_token_list_bounds(pre);
            lemma_total_len_prefix(wv, i as int + 1);
        }
        let len = ws[i].len();
        let chunks = if len % 4 == 0 {
            len / 4
        } else {
            len / 4 + 1
        };
        count = count + chunks;
        i = i + 1;
    }
    assert(wv.subrange(0, i as int) =~= wv);
    count
}

proof fn lemma_total_len_prefix(ws: Seq<Seq<char>>, k: int)
    requires
        0 <= k <= ws.len(),
    ensures
        total_len(ws.subrange(0, k)) <= total_len(ws),
    decreases ws.len(),
{
    if k < ws.len() {
        assert(ws.drop_last().subrange(0, k) =~= ws.subrange(0, k));
        lemma_total_len_prefix(ws.drop_last(), k);
    } else {
        assert(ws.subrange(0, k) =~= ws);
    }
}

/// The text cut down to `max_tokens` tokens: the text itself when it has no
/// more tokens than that, and otherwise its first `max_tokens` tokens joined
/// by single spaces.
pub open spec fn truncated(text: Seq<char>, max_tokens: nat) -> Seq<char> {
    if token_count(text) <= max_tokens {
        text
    } else {
        join(tokens_of(text).take(max_tokens as int), seq![' '])
    }
}

/// Truncates the text to `max_tokens` tokens (see `count_tokens`): the text
/// is returned as it is when it has no more tokens than that, and otherwise
/// its first `max_tokens` tokens joined by single spaces.
pub fn truncate_tokens(text: &str, max_tokens: usize) -> (r: String)
    ensures
        r@ == truncated(text@, max_tokens as nat),
        token_count(r@) == if token_count(text@) <= max_tokens {
            token_count(text@)
        } else {
            max_tokens as nat
        },
{
    let space_is_white = char_is_whitespace(' ');
    proof {
        lemma_truncated_token_count(text@, max_tokens as nat);
    }
    let chars = chars_of(text);
    let ws = split_whitespace(chars.as_slice());
    let ghost wv = views(ws@);
    let mut toks: Vec<Vec<char>> = Vec::new();
    let mut i: usize = 0;
    while i < ws.len()
        invariant
            wv == views(ws@),
            wv == words(text@),
            i <= wv.len(),
            views(toks@) == token_list(wv.subrange(0, i as int)),
        decreases ws.len() - i,
    {
        let ghost pre = wv.subrange(0, (i + 1) as int);
        assert(pre.drop_last() =~= wv.subrange(0, i as int));
        assert(pre.last() == ws[i as int]@);
        let w = &ws[i];
        let mut start: usize = 0;
        let ghost t0 = views(toks@);
        assert(w@.skip(0) =~= w@);
        assert(t0 + seq![] =~= t0);
        while start < w.len()
            invariant
                w@ == pre.last(),
                start <= w@.len(),
                views(toks@) + chunks4(w@.skip(start as int)) == t0 + chunks4(w@),
            decreases w.len() - start,
        {
            let end = if w.len() - start <= 4 {
                w.len()
            } else {
                start + 4
            };
            let mut chunk: Vec<char> = Vec::new();
            let mut k: usize = start;
            while k < end
                invariant
                    start <= k <= end <= w@.len(),
                    chunk@ == w@.subrange(start as int, k as int),
                decreases end - k,
            {
                chunk.push(w[k]);
                k = k + 1;
            }
            let ghost rest = w@.skip(start as int);
            let ghost tv = views(toks@);
            let ghost cv = chunk@;
            toks.push(chunk);
            assert(views(toks@) =~= tv.push(cv));
            if end == w.len() {
                assert(cv =~= rest);
                assert(w@.skip(end as int) =~= seq![]);
                assert(chunks4(rest) == seq![rest]);
            } else {
                assert(cv =~= rest.take(4));
                assert(rest.skip(4) =~= w@.skip(end as int));
            }
            assert(views(toks@) + chunks4(w@.skip(end as int)) =~= tv + chunks4(rest));
            start = end;
        }
        assert(w@.skip(start as int) =~= seq![]);
        assert(views(toks@) =~= t0 + chunks4(w@));
        i = i + 1;
    }
    assert(wv.subrange(0, i as int) =~= wv);
    if toks.len() <= max_tokens {
        string_of(chars.as_slice())
    } else {
        let sep = vec![' '];
        let joined = join_first_chars(&toks, max_tokens, sep.as_slice());
        assert(sep@ =~= seq![' ']);
        string_of(joined.as_slice())
    }
}

// ---------------------------------------------------------------------------
// Laws
// ---------------------------------------------------------------------------

proof fn lemma_scan_append_word(s: Seq<char>, t: Seq<char>)
    requires
        forall|j: int| 0 <= j < t.len() ==> !unicode_white_space(#[trigger] t[j]),
    ensures
        ws_scan(s + t) == (ws_scan(s).0, ws_scan(s).1 + t),
    decreases t.len(),
{
    if t.len() == 0 {
        assert(s + t =~= s);
        assert(ws_scan(s).1 + t =~= ws_scan(s).1);
    } else {
        let t0 = t.drop_last();
        assert forall|j: int| 0 <= j < t0.len() implies !unicode_white_space(#[trigger] t0[j]) by {
            assert(t0[j] == t[j]);
        }
        lemma_scan_append_word(s, t0);
        assert((s + t).drop_last() =~= s + t0);
        assert((ws_scan(s).1 + t0).push(t.last()) =~= ws_scan(s).1 + t);
    }
}

/// Joining non-empty, whitespace-free tokens with single spaces and
/// scanning the result gives back all tokens but the last as completed words
/// and the last as the word being read.
proof fn lemma_scan_join(ts: Seq<Seq<char>>)
    requires
        ts.len() > 0,
        forall|k: int| 0 <= k < ts.len() ==> #[trigger] ts[k].len() > 0,
        forall|k: int, j: int|
            0 <= k < ts.len() && 0 <= j < ts[k].len() ==> !unicode_white_space(#[trigger] ts[k][j]),
    ensures
        ws_scan(join(ts, seq![' '])) == (ts.drop_last(), ts.last()),
    decreases ts.len(),
{
    let last = ts.last();
    assert forall|j: int| 0 <= j < last.len() implies !unicode_white_space(#[trigger] last[j]) by {
        assert(last[j] == ts[ts.len() - 1][j]);
    }
    if ts.len() == 1 {
        lemma_scan_append_word(seq![], last);
        assert(seq![] + last =~= last);
        assert(Seq::<char>::empty() + last =~= last);
        assert(ts.drop_last() =~= seq![]);
        assert(ws_scan(Seq::<char>::empty()) == (Seq::<Seq<char>>::empty(), Seq::<char>::empty()));
    } else {
        let front = ts.drop_last();
        assert forall|k: int| 0 <= k < front.len() implies #[trigger] front[k].len() > 0 by {
            assert(front[k] == ts[k]);
        }
        assert forall|k: int, j: int|
            0 <= k < front.len() && 0 <= j < front[k].len() implies !unicode_white_space(
            #[trigger] front[k][j],
        ) by {
            assert(front[k] == ts[k]);
        }
        lemma_scan_join(front);
        let jf = join(front, seq![' ']);
        let js = jf.push(' ');
        assert(js.drop_last() =~= jf);
        assert(front.drop_last().push(front.last()) =~= front);
        assert(ws_scan(js) == (front, Seq::<char>::empty()));
        lemma_scan_append_word(js, last);
        assert(join(ts, seq![' ']) =~= js + last);
        assert(Seq::<char>::empty() + last =~= last);
    }
}

/// Splitting the single-space join of non-empty, whitespace-free tokens at
/// whitespace gives back the tokens.
pub proof fn lemma_words_of_join(ts: Seq<Seq<char>>)
    requires
        forall|k: int| 0 <= k < ts.len() ==> #[trigger] ts[k].len() > 0,
        forall|k: int, j: int|
            0 <= k < ts.len() && 0 <= j < ts[k].len() ==> !unicode_white_space(#[trigger] ts[k][j]),
    ensures
        words(join(ts, seq![' '])) == ts,
{
    if ts.len() == 0 {
        assert(ws_scan(join(ts, seq![' '])) == (Seq::<Seq<char>>::empty(), Seq::<char>::empty()));
    } else {
        lemma_scan_join(ts);
        assert(ts.drop_last().push(ts.last()) =~= ts);
    }
}

proof fn lemma_token_list_of_short(ts: Seq<Seq<char>>)
    requires
        forall|k: int| 0 <= k < ts.len() ==> 0 < #[trigger] ts[k].len() <= 4,
    ensures
        token_list(ts) == ts,
    decreases ts.len(),
{
    if ts.len() > 0 {
        let front = ts.drop_last();
        assert forall|k: int| 0 <= k < front.len() implies 0 < #[trigger] front[k].len() <= 4 by {
            assert(front[k] == ts[k]);
        }
        lemma_token_list_of_short(front);
        assert(front + seq![ts.last()] =~= ts);
    }
}

proof fn lemma_token_list_no_whitespace(ws: Seq<Seq<char>>)
    requires
        forall|k: int, j: int|
            0 <= k < ws.len() && 0 <= j < ws[k].len() ==> !unicode_white_space(#[trigger] ws[k][j]),
    ensures
        forall|k: int, j: int|
            0 <= k < token_list(ws).len() && 0 <= j < token_list(ws)[k].len() ==> !unicode_white_space(
                #[trigger] token_list(ws)[k][j],
            ),
    decreases ws.len(),
{
    if ws.len() > 0 {
        let front = ws.drop_last();
        assert forall|k: int, j: int|
            0 <= k < front.len() && 0 <= j < front[k].len() implies !unicode_white_space(
            #[trigger] front[k][j],
        ) by {
            assert(front[k] == ws[k]);
        }
        lemma_token_list_no_whitespace(front);
        let last = ws.last();
        assert forall|j: int| 0 <= j < last.len() implies !unicode_white_space(#[trigger] last[j]) by {
            assert(last[j] == ws[ws.len() - 1][j]);
        }
        lemma_chunk_has_no_whitespace(last);
        let a = token_list(front);
        let b = chunks4(last);
        assert forall|k: int, j: int|
            0 <= k < token_list(ws).len() && 0 <= j < token_list(ws)[k].len() implies !unicode_white_space(
            #[trigger] token_list(ws)[k][j],
        ) by {
            if k < a.len() {
                assert(token_list(ws)[k] == a[k]);
            } else {
                assert(token_list(ws)[k] == b[k - a.len()]);
            }
        }
    }
}

/// Truncating to `n` tokens leaves `min(count, n)` tokens: the result of
/// `truncated` counts exactly the smaller of the text's token count and `n`.
pub proof fn lemma_truncated_token_count(text: Seq<char>, n: nat)
    ensures
        token_count(truncated(text, n)) == if token_count(text) <= n {
            token_count(text)
        } else {
            n
        },
{
    if token_count(text) > n {
        let toks = tokens_of(text);
        lemma_words_are_words(text);
        lemma_token_list_bounds(words(text));
        lemma_token_list_no_whitespace(words(text));
        let kept = toks.take(n as int);
        assert forall|k: int| 0 <= k < kept.len() implies 0 < #[trigger] kept[k].len() <= 4 by {
            assert(kept[k] == toks[k]);
        }
        assert forall|k: int, j: int|
            0 <= k < kept.len() && 0 <= j < kept[k].len() implies !unicode_white_space(
            #[trigger] kept[k][j],
        ) by {
            assert(kept[k] == toks[k]);
        }
        lemma_words_of_join(kept);
        lemma_token_list_of_short(kept);
    }
}

proof fn lemma_scan_after_space(s: Seq<char>)
    ensures
        ws_scan(s.push(' ')) == (words(s), Seq::<char>::empty()),
{
    assert(s.push(' ').drop_last() =~= s);
    assert(s.push(' ').last() == ' ');
}

proof fn lemma_scan_concat(x: Seq<char>, b: Seq<char>)
    requires
        ws_scan(x).1.len() == 0,
    ensures
        ws_scan(x + b) == (ws_scan(x).0 + ws_scan(b).0, ws_scan(b).1),
    decreases b.len(),
{
    if b.len() == 0 {
        assert(x + b =~= x);
        assert(ws_scan(x).0 + Seq::<Seq<char>>::empty() =~= ws_scan(x).0);
        assert(ws_scan(x).1 =~= Seq::<char>::empty());
    } else {
        let b0 = b.drop_last();
        lemma_scan_concat(x, b0);
        assert((x + b).drop_last() =~= x + b0);
        assert((x + b).last() == b.last());
        let x0 = ws_scan(x).0;
        let prev = ws_scan(b0);
        if unicode_white_space(b.last()) && prev.1.len() > 0 {
            assert((x0 + prev.0).push(prev.1) =~= x0 + prev.0.push(prev.1));
        }
    }
}

proof fn lemma_token_list_concat(u: Seq<Seq<char>>, v: Seq<Seq<char>>)
    ensures
        token_list(u + v) == token_list(u) + token_list(v),
    decreases v.len(),
{
    if v.len() == 0 {
        assert(u + v =~= u);
        assert(token_list(u) + Seq::<Seq<char>>::empty() =~= token_list(u));
    } else {
        lemma_token_list_concat(u, v.drop_last());
        assert((u + v).drop_last() =~= u + v.drop_last());
        assert((u + v).last() == v.last());
        assert(token_list(u) + token_list(v.drop_last()) + chunks4(v.last()) =~= token_list(u) + (
        token_list(v.drop_last()) + chunks4(v.last())));
    }
}

/// The words of two texts joined by a space are the words of the first
/// followed by those of the second.
pub proof fn lemma_words_join(a: Seq<char>, b: Seq<char>)
    ensures
        words(a + seq![' '] + b) == words(a) + words(b),
{
    let x = a.push(' ');
    assert(a + seq![' '] == x);
    lemma_scan_after_space(a);
    lemma_scan_concat(x, b);
    let sb = ws_scan(b);
    if sb.1.len() > 0 {
        assert((words(a) + sb.0).push(sb.1) =~= words(a) + sb.0.push(sb.1));
    }
}

/// The token count of two texts joined by a space is the sum of their token
/// counts.
pub proof fn lemma_token_count_join(a: Seq<char>, b: Seq<char>)
    ensures
        token_count(a + seq![' '] + b) == token_count(a) + token_count(b),
{
    lemma_words_join(a, b);
    lemma_token_list_concat(words(a), words(b));
}

} // verus!
