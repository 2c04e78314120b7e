//! Character classes, whitespace splitting, joining and replacing, over
//! sequences of characters.

use vstd::prelude::*;

verus! {

// ---------------------------------------------------------------------------
// Character classes taken from std
// ---------------------------------------------------------------------------

/// The Unicode White_Space property, which `char::is_whitespace` tests:
/// U+0009 to U+000D, U+0020, U+0085, U+00A0, U+1680, U+2000 to U+200A,
/// U+2028, U+2029, U+202F, U+205F and U+3000.
pub open spec fn unicode_white_space(c: char) -> bool {
    let n = c as u32;
    ||| (0x09 <= n && n <= 0x0d)
    ||| n == 0x20
    ||| n == 0x85
    ||| n == 0xa0
    ||| n == 0x1680
    ||| (0x2000 <= n && n <= 0x200a)
    ||| n == 0x2028
    ||| n == 0x2029
    ||| n == 0x202f
    ||| n == 0x205f
    ||| n == 0x3000
}

/// The ASCII characters with the Unicode White_Space property: tab, line
/// feed, vertical tab, form feed, carriage return and space.
pub open spec fn ascii_white_space(c: char) -> bool {
    c == ' ' || ('\t' <= c && c <= '\r')
}

/// Of ASCII characters, the White_Space property holds exactly of the
/// ASCII whitespace.
pub proof fn lemma_ascii_white_space(c: char)
    requires
        ascii_char(c),
    ensures
        unicode_white_space(c) == ascii_white_space(c),
{
}

/// The ASCII letters and digits: `0` to `9`, `A` to `Z` and `a` to `z`.
pub open spec fn ascii_alphanumeric(c: char) -> bool {
    ||| ('0' <= c && c <= '9')
    ||| ('A' <= c && c <= 'Z')
    ||| ('a' <= c && c <= 'z')
}

/// Whether `char::is_alphanumeric` holds of a character beyond ASCII (the
/// Unicode Alphabetic property, or a Numeric general category).
pub uninterp spec fn alphanumeric_beyond_ascii(c: char) -> bool;

/// Whether `char::is_alphanumeric` holds of a character: of ASCII characters
/// exactly the letters and digits, beyond ASCII as the Unicode tables say.
pub open spec fn unicode_alphanumeric(c: char) -> bool {
    if ascii_char(c) {
        ascii_alphanumeric(c)
    } else {
        alphanumeric_beyond_ascii(c)
    }
}

/// Calls `char::is_whitespace`, which the documentation defines as the
/// White_Space property of the Unicode Character Database
/// (see `unicode_white_space`).
#[verifier::external_body]
pub(crate) fn char_is_whitespace(c: char) -> (r: bool)
    ensures
        r == unicode_white_space(c),
{
    c.is_whitespace()
}

/// Calls `char::is_alphanumeric`: the Unicode Alphabetic property or a
/// Numeric general category. Of ASCII characters these hold exactly of the
/// letters `A` to `Z`, `a` to `z` and the digits `0` to `9`, which is
/// stated; beyond ASCII the result is named `alphanumeric_beyond_ascii`, and
/// nothing of the Unicode tables there is stated.
#[verifier::external_body]
pub(crate) fn char_is_alphanumeric(c: char) -> (r: bool)
    ensures
        r == unicode_alphanumeric(c),
        !ascii_char(c) ==> r == alphanumeric_beyond_ascii(c),
{
    c.is_alphanumeric()
}

/// `char::is_ascii_punctuation`, as its documentation lists the characters:
/// `!` to `/`, `:` to `@`, `[` to `` ` `` and `{` to `~`.
pub open spec fn ascii_punctuation(c: char) -> bool {
    ||| ('!' <= c && c <= '/')
    ||| (':' <= c && c <= '@')
    ||| ('[' <= c && c <= '`')
    ||| ('{' <= c && c <= '~')
}

pub fn is_ascii_punctuation(c: char) -> (r: bool)
    ensures
        r == ascii_punctuation(c),
{
    ('!' <= c && c <= '/') || (':' <= c && c <= '@') || ('[' <= c && c <= '`') || ('{' <= c
        && c <= '~')
}

/// `char::is_ascii`: the code point is below 128.
pub open spec fn ascii_char(c: char) -> bool {
    (c as u32) < 128
}

/// All characters of the text are ASCII.
pub open spec fn ascii_text(s: Seq<char>) -> bool {
    forall|i: int| 0 <= i < s.len() ==> ascii_char(#[trigger] s[i])
}

pub fn is_ascii_char(c: char) -> (r: bool)
    ensures
        r == ascii_char(c),
{
    (c as u32) < 128
}

// ---------------------------------------------------------------------------
// Conversions between strings and character vectors
// ---------------------------------------------------------------------------

/// Appends one character to a `String` with `String::push`.
#[verifier::external_body]
pub(crate) fn string_push(s: &mut String, c: char)
    ensures
        final(s)@ == old(s)@.push(c),
{
    s.push(c)
}

/// The characters of a string slice, in order.
pub fn chars_of(s: &str) -> (v: Vec<char>)
    ensures
        v@ == s@,
{
    let n = s.unicode_len();
    let mut v: Vec<char> = Vec::new();
    let mut i: usize = 0;
    while i < n
        invariant
            n == s@.len(),
            i <= n,
            v@ == s@.subrange(0, i as int),
        decreases n - i,
    {
        let c = s.get_char(i);
        v.push(c);
        i = i + 1;
    }
    v
}

/// A `String` holding the given characters.
pub fn string_of(v: &[char]) -> (s: String)
    ensures
        s@ == v@,
{
    let mut s = String::new();
    let mut i: usize = 0;
    while i < v.len()
        invariant
            i <= v@.len(),
            s@ == v@.subrange(0, i as int),
        decreases v.len() - i,
    {
        string_push(&mut s, v[i]);
        i = i + 1;
    }
    s
}

/// Appends the characters of `src` to `dst`.
pub fn append_chars(dst: &mut Vec<char>, src: &[char])
    ensures
        final(dst)@ == old(dst)@ + src@,
{
    let ghost d0 = dst@;
    let mut i: usize = 0;
    while i < src.len()
        invariant
            i <= src@.len(),
            dst@ == d0 + src@.subrange(0, i as int),
        decreases src.len() - i,
    {
        dst.push(src[i]);
        i = i + 1;
    }
}

/// Appends the characters of a string slice to `dst`.
pub fn append_str(dst: &mut Vec<char>, src: &str)
    ensures
        final(dst)@ == old(dst)@ + src@,
{
    let v = chars_of(src);
    append_chars(dst, v.as_slice());
}

/// Whether two character sequences are equal.
pub fn chars_equal(a: &[char], b: &[char]) -> (r: bool)
    ensures
        r == (a@ == b@),
{
    if a.len() != b.len() {
        return false;
    }
    let mut i: usize = 0;
    while i < a.len()
        invariant
            a@.len() == b@.len(),
            i <= a@.len(),
            forall|j: int| 0 <= j < i ==> a@[j] == b@[j],
        decreases a.len() - i,
    {
        if a[i] != b[i] {
            return false;
        }
        i = i + 1;
    }
    assert(a@ =~= b@);
    true
}

/// Whether two string slices hold the same characters.
pub fn str_equal(a: &str, b: &str) -> (r: bool)
    ensures
        r == (a@ == b@),
{
    let va = chars_of(a);
    let vb = chars_of(b);
    chars_equal(va.as_slice(), vb.as_slice())
}

// ---------------------------------------------------------------------------
// Prefixes and occurrences
// ---------------------------------------------------------------------------

/// `pat` occurs in `s` at position `i`.
pub open spec fn occurs_at(s: Seq<char>, pat: Seq<char>, i: int) -> bool {
    0 <= i && i + pat.len() <= s.len() && s.subrange(i, i + pat.len()) == pat
}

/// `pat` occurs somewhere in `s` (`str::contains`).
pub open spec fn contains_seq(s: Seq<char>, pat: Seq<char>) -> bool {
    exists|i: int| occurs_at(s, pat, i)
}

/// `s` starts with `pat` (`str::starts_with`).
pub open spec fn starts_with(s: Seq<char>, pat: Seq<char>) -> bool {
    occurs_at(s, pat, 0)
}

/// `s` ends with `pat` (`str::ends_with`).
pub open spec fn ends_with(s: Seq<char>, pat: Seq<char>) -> bool {
    occurs_at(s, pat, s.len() - pat.len())
}

pub fn occurs_at_exec(s: &[char], pat: &[char], i: usize) -> (r: bool)
    ensures
        r == occurs_at(s@, pat@, i as int),
{
    let slen = s.len();
    if i > slen || pat.len() > slen - i {
        return false;
    }
    let mut k: usize = 0;
    while k < pat.len()
        invariant
            slen == s@.len(),
            i + pat@.len() <= s@.len(),
            k <= pat@.len(),
            forall|j: int| 0 <= j < k ==> s@[i + j] == pat@[j],
        decreases pat.len() - k,
    {
        if s[i + k] != pat[k] {
            assert(s@.subrange(i as int, i + pat@.len())[k as int] != pat@[k as int]);
            return false;
        }
        k = k + 1;
    }
    assert(s@.subrange(i as int, i + pat@.len()) =~= pat@);
    true
}

pub fn contains_exec(s: &[char], pat: &[char]) -> (r: bool)
    ensures
        r == contains_seq(s@, pat@),
{
    if pat.len() > s.len() {
        return false;
    }
    let last = s.len() - pat.len();
    let mut i: usize = 0;
    while i < last
        invariant
            last + pat@.len() == s@.len(),
            i <= last,
            forall|j: int| 0 <= j < i ==> !occurs_at(s@, pat@, j),
        decreases last - i,
    {
        if occurs_at_exec(s, pat, i) {
            return true;
        }
        i = i + 1;
    }
    let r = occurs_at_exec(s, pat, last);
    assert(r ==> occurs_at(s@, pat@, last as int));
    assert(!r ==> forall|j: int| !occurs_at(s@, pat@, j)) by {
        if !r {
            assert forall|j: int| !occurs_at(s@, pat@, j) by {
                if 0 <= j < i {
                }
            }
        }
    }
    r
}

pub fn starts_with_exec(s: &[char], pat: &[char]) -> (r: bool)
    ensures
        r == starts_with(s@, pat@),
{
    occurs_at_exec(s, pat, 0)
}

pub fn ends_with_exec(s: &[char], pat: &[char]) -> (r: bool)
    ensures
        r == ends_with(s@, pat@),
{
    if pat.len() > s.len() {
        return false;
    }
    occurs_at_exec(s, pat, s.len() - pat.len())
}

// ---------------------------------------------------------------------------
// Replacing
// ---------------------------------------------------------------------------

/// `str::replace`: every occurrence of a non-empty `pat`, found from left to
/// right without overlap, is replaced by `rep`.
pub open spec fn replace_all(s: Seq<char>, pat: Seq<char>, rep: Seq<char>) -> Seq<char>
    recommends
        pat.len() > 0,
    decreases s.len(),
{
    if s.len() == 0 {
        seq![]
    } else if pat.len() > 0 && starts_with(s, pat) {
        rep + replace_all(s.skip(pat.len() as int), pat, rep)
    } else {
        seq![s[0]] + replace_all(s.drop_first(), pat, rep)
    }
}

pub fn replace_chars(s: &[char], pat: &[char], rep: &[char]) -> (r: Vec<char>)
    requires
        pat@.len() > 0,
    ensures
        r@ == replace_all(s@, pat@, rep@),
{
    let mut out: Vec<char> = Vec::new();
    let mut i: usize = 0;
    assert(s@.skip(0) =~= s@);
    assert(out@ + s@.skip(0) =~= s@.skip(0));
    while i < s.len()
        invariant
            pat@.len() > 0,
            i <= s@.len(),
            out@ + replace_all(s@.skip(i as int), pat@, rep@) == replace_all(s@, pat@, rep@),
        decreases s.len() - i,
    {
        let ghost rest = s@.skip(i as int);
        if occurs_at_exec(s, pat, i) {
            assert(rest.subrange(0, pat@.len() as int) =~= s@.subrange(i as int, i + pat@.len()));
            assert(rest.skip(pat@.len() as int) =~= s@.skip(i + pat@.len()));
            append_chars(&mut out, rep);
            i = i + pat.len();
        } else {
            assert(!starts_with(rest, pat@)) by {
                if starts_with(rest, pat@) {
                    assert(rest.subrange(0, pat@.len() as int) =~= s@.subrange(
                        i as int,
                        i + pat@.len(),
                    ));
                }
            }
            assert(rest.drop_first() =~= s@.skip(i + 1));
            out.push(s[i]);
            i = i + 1;
        }
        assert(out@ + replace_all(s@.skip(i as int), pat@, rep@) =~= replace_all(s@, pat@, rep@));
    }
    assert(s@.skip(i as int) =~= seq![]);
    assert(out@ + seq![] =~= out@);
    out
}

// ---------------------------------------------------------------------------
// Whitespace splitting and joining
// ---------------------------------------------------------------------------

/// Scanning `s` from the left: the words completed so far and the word being
/// read. A word is a maximal run of non-whitespace characters.
pub open spec fn ws_scan(s: Seq<char>) -> (Seq<Seq<char>>, Seq<char>)
    decreases s.len(),
{
    if s.len() == 0 {
        (seq![], seq![])
    } else {
        let prev = ws_scan(s.drop_last());
        let c = s.last();
        if unicode_white_space(c) {
            if prev.1.len() > 0 {
                (prev.0.push(prev.1), seq![])
            } else {
                prev
            }
        } else {
            (prev.0, prev.1.push(c))
        }
    }
}

/// `str::split_whitespace`: the maximal runs of non-whitespace characters.
pub open spec fn words(s: Seq<char>) -> Seq<Seq<char>> {
    let st = ws_scan(s);
    if st.1.len() > 0 {
        st.0.push(st.1)
    } else {
        st.0
    }
}

/// `ws_scan` with ASCII whitespace (see `ascii_white_space`).
pub open spec fn ascii_ws_scan(s: Seq<char>) -> (Seq<Seq<char>>, Seq<char>)
    decreases s.len(),
{
    if s.len() == 0 {
        (seq![], seq![])
    } else {
        let prev = ascii_ws_scan(s.drop_last());
        let c = s.last();
        if ascii_white_space(c) {
            if prev.1.len() > 0 {
                (prev.0.push(prev.1), seq![])
            } else {
                prev
            }
        } else {
            (prev.0, prev.1.push(c))
        }
    }
}

/// The maximal runs of characters that are not ASCII whitespace: the words
/// of an ASCII text.
pub open spec fn ascii_words(s: Seq<char>) -> Seq<Seq<char>> {
    let st = ascii_ws_scan(s);
    if st.1.len() > 0 {
        st.0.push(st.1)
    } else {
        st.0
    }
}

/// Where the two whitespace tests agree on every character, the two scans
/// agree.
proof fn lemma_ws_scan_agree(s: Seq<char>)
    requires
        forall|i: int| 0 <= i < s.len() ==> unicode_white_space(#[trigger] s[i]) == ascii_white_space(
            s[i],
        ),
    ensures
        ws_scan(s) == ascii_ws_scan(s),
    decreases s.len(),
{
    if s.len() > 0 {
        let f = s.drop_last();
        assert forall|i: int| 0 <= i < f.len() implies unicode_white_space(#[trigger] f[i])
            == ascii_white_space(f[i]) by {
            assert(f[i] == s[i]);
        }
        lemma_ws_scan_agree(f);
        assert(unicode_white_space(s[s.len() - 1]) == ascii_white_space(s[s.len() - 1]));
    }
}

/// The words of an ASCII scan are non-empty and hold no ASCII whitespace,
/// nor does the word being read; of an ASCII text they are ASCII.
pub proof fn lemma_ascii_scan_words(s: Seq<char>)
    ensures
        forall|k: int| 0 <= k < ascii_ws_scan(s).0.len() ==> #[trigger] ascii_ws_scan(s).0[k].len() > 0,
        forall|k: int, j: int| 0 <= k < ascii_ws_scan(s).0.len() && 0 <= j < ascii_ws_scan(s).0[k].len() ==> !ascii_white_space(
                #[trigger] ascii_ws_scan(s).0[k][j],
            ),
        forall|j: int| 0 <= j < ascii_ws_scan(s).1.len() ==> !ascii_white_space(
            #[trigger] ascii_ws_scan(s).1[j],
        ),
        ascii_text(s) ==> forall|k: int| 0 <= k < ascii_ws_scan(s).0.len() ==> ascii_text(
            #[trigger] ascii_ws_scan(s).0[k],
        ),
        ascii_text(s) ==> ascii_text(ascii_ws_scan(s).1),
    decreases s.len(),
{
    if s.len() > 0 {
        let f = s.drop_last();
        lemma_ascii_scan_words(f);
        let prev = ascii_ws_scan(f);
        let c = s.last();
        if ascii_text(s) {
            assert forall|i: int| 0 <= i < f.len() implies ascii_char(#[trigger] f[i]) by {
                assert(f[i] == s[i]);
            }
            assert(ascii_char(s[s.len() - 1]));
        }
        if ascii_white_space(c) {
            if prev.1.len() > 0 {
                let d = prev.0.push(prev.1);
                assert forall|k: int, j: int| 0 <= k < d.len() && 0 <= j < d[k].len() implies !ascii_white_space(#[trigger] d[k][j]) by {
                    if k < prev.0.len() {
                        assert(d[k] == prev.0[k]);
                    }
                }
                if ascii_text(s) {
                    assert forall|k: int| 0 <= k < d.len() implies ascii_text(#[trigger] d[k]) by {
                        if k < prev.0.len() {
                            assert(d[k] == prev.0[k]);
                        }
                    }
                }
            }
        } else {
            let cur = prev.1.push(c);
            assert forall|j: int| 0 <= j < cur.len() implies !ascii_white_space(#[trigger] cur[j]) by {
                if j < prev.1.len() {
                    assert(cur[j] == prev.1[j]);
                }
            }
            if ascii_text(s) {
                assert forall|j: int| 0 <= j < cur.len() implies ascii_char(#[trigger] cur[j]) by {
                    if j < prev.1.len() {
                        assert(cur[j] == prev.1[j]);
                    }
                }
            }
        }
    }
}

/// The ASCII words of a text are non-empty and hold no ASCII whitespace;
/// those of an ASCII text are ASCII.
pub proof fn lemma_ascii_words_are_words(s: Seq<char>)
    ensures
        forall|k: int| 0 <= k < ascii_words(s).len() ==> #[trigger] ascii_words(s)[k].len() > 0,
        forall|k: int, j: int| 0 <= k < ascii_words(s).len() && 0 <= j < ascii_words(s)[k].len() ==> !ascii_white_space(#[trigger] ascii_words(s)[k][j]),
        ascii_text(s) ==> forall|k: int| 0 <= k < ascii_words(s).len() ==> ascii_text(
            #[trigger] ascii_words(s)[k],
        ),
{
    lemma_ascii_scan_words(s);
    let st = ascii_ws_scan(s);
    if st.1.len() > 0 {
        let w = st.0.push(st.1);
        assert forall|k: int| 0 <= k < w.len() implies #[trigger] w[k].len() > 0 by {
            if k < st.0.len() {
                assert(w[k] == st.0[k]);
            }
        }
        assert forall|k: int, j: int| 0 <= k < w.len() && 0 <= j < w[k].len() implies !ascii_white_space(#[trigger] w[k][j]) by {
            if k < st.0.len() {
                assert(w[k] == st.0[k]);
            }
        }
        if ascii_text(s) {
            assert forall|k: int| 0 <= k < w.len() implies ascii_text(#[trigger] w[k]) by {
                if k < st.0.len() {
                    assert(w[k] == st.0[k]);
                }
            }
        }
    }
}

proof fn lemma_ascii_scan_append_word(s: Seq<char>, t: Seq<char>)
    requires
        forall|j: int| 0 <= j < t.len() ==> !ascii_white_space(#[trigger] t[j]),
    ensures
        ascii_ws_scan(s + t) == (ascii_ws_scan(s).0, ascii_ws_scan(s).1 + t),
    decreases t.len(),
{
    if t.len() == 0 {
        assert(s + t =~= s);
        assert(ascii_ws_scan(s).1 + t =~= ascii_ws_scan(s).1);
    } else {
        let t0 = t.drop_last();
        assert forall|j: int| 0 <= j < t0.len() implies !ascii_white_space(#[trigger] t0[j]) by {
            assert(t0[j] == t[j]);
        }
        lemma_ascii_scan_append_word(s, t0);
        assert((s + t).drop_last() =~= s + t0);
        assert(t[t.len() - 1] == t.last());
        assert((ascii_ws_scan(s).1 + t0).push(t.last()) =~= ascii_ws_scan(s).1 + t);
    }
}

proof fn lemma_ascii_scan_join(ts: Seq<Seq<char>>)
    requires
        ts.len() > 0,
        forall|k: int| 0 <= k < ts.len() ==> #[trigger] ts[k].len() > 0,
        forall|k: int, j: int| 0 <= k < ts.len() && 0 <= j < ts[k].len() ==> !ascii_white_space(#[trigger] ts[k][j]),
    ensures
        ascii_ws_scan(join(ts, seq![' '])) == (ts.drop_last(), ts.last()),
    decreases ts.len(),
{
    let last = ts.last();
    assert forall|j: int| 0 <= j < last.len() implies !ascii_white_space(#[trigger] last[j]) by {
        assert(ts[ts.len() - 1] == last);
    }
    if ts.len() == 1 {
        lemma_ascii_scan_append_word(seq![], last);
        assert(Seq::<char>::empty() + last =~= last);
        assert(ts.drop_last() =~= seq![]);
        assert(ascii_ws_scan(Seq::<char>::empty()) == (Seq::<Seq<char>>::empty(), Seq::<char>::empty()));
    } else {
        let front = ts.drop_last();
        assert forall|k: int| 0 <= k < front.len() implies #[trigger] front[k].len() > 0 by {
            assert(front[k] == ts[k]);
        }
        assert forall|k: int, j: int| 0 <= k < front.len() && 0 <= j < front[k].len() implies !ascii_white_space(#[trigger] front[k][j]) by {
            assert(front[k] == ts[k]);
        }
        lemma_ascii_scan_join(front);
        let jf = join(front, seq![' ']);
        let js = jf.push(' ');
        assert(js.drop_last() =~= jf);
        assert(front.drop_last().push(front.last()) =~= front);
        assert(ascii_ws_scan(js) == (front, Seq::<char>::empty()));
        lemma_ascii_scan_append_word(js, last);
        assert(join(ts, seq![' ']) =~= js + last);
        assert(Seq::<char>::empty() + last =~= last);
    }
}

/// Splitting the single-space join of non-empty words without ASCII
/// whitespace at ASCII whitespace gives back the words.
pub proof fn lemma_ascii_words_of_join(ts: Seq<Seq<char>>)
    requires
        forall|k: int| 0 <= k < ts.len() ==> #[trigger] ts[k].len() > 0,
        forall|k: int, j: int| 0 <= k < ts.len() && 0 <= j < ts[k].len() ==> !ascii_white_space(#[trigger] ts[k][j]),
    ensures
        ascii_words(join(ts, seq![' '])) == ts,
{
    if ts.len() == 0 {
        assert(ascii_ws_scan(join(ts, seq![' '])) == (Seq::<Seq<char>>::empty(), Seq::<char>::empty()));
    } else {
        lemma_ascii_scan_join(ts);
        assert(ts.drop_last().push(ts.last()) =~= ts);
    }
}

/// The single-space join of ASCII texts is ASCII.
pub proof fn lemma_join_ascii(ts: Seq<Seq<char>>)
    requires
        forall|k: int| 0 <= k < ts.len() ==> ascii_text(#[trigger] ts[k]),
    ensures
        ascii_text(join(ts, seq![' '])),
    decreases ts.len(),
{
    if ts.len() > 1 {
        let front = ts.drop_last();
        assert forall|k: int| 0 <= k < front.len() implies ascii_text(#[trigger] front[k]) by {
            assert(front[k] == ts[k]);
        }
        lemma_join_ascii(front);
        let jf = join(front, seq![' ']);
        let last = ts.last();
        assert(ascii_text(ts[ts.len() - 1]));
        let j = jf + seq![' '] + last;
        assert forall|i: int| 0 <= i < j.len() implies ascii_char(#[trigger] j[i]) by {
            if i < jf.len() {
                assert(j[i] == jf[i]);
            } else if i == jf.len() {
                assert(j[i] == ' ');
            } else {
                assert(j[i] == last[i - jf.len() - 1]);
            }
        }
    } else if ts.len() == 1 {
        assert(ascii_text(ts[0]));
    }
}

/// The character sequences held by a vector of character vectors.
pub open spec fn views(v: Seq<Vec<char>>) -> Seq<Seq<char>> {
    v.map_values(|x: Vec<char>| x@)
}

/// The strings of `parts`, with `sep` between each two (`join`).
pub open spec fn join(parts: Seq<Seq<char>>, sep: Seq<char>) -> Seq<char>
    decreases parts.len(),
{
    if parts.len() == 0 {
        seq![]
    } else if parts.len() == 1 {
        parts[0]
    } else {
        join(parts.drop_last(), sep) + sep + parts.last()
    }
}

/// The words of `s`, as `str::split_whitespace` gives them.
pub fn split_whitespace(s: &[char]) -> (r: Vec<Vec<char>>)
    ensures
        views(r@) == words(s@),
        ascii_text(s@) ==> views(r@) == ascii_words(s@),
{
    let mut done: Vec<Vec<char>> = Vec::new();
    let mut cur: Vec<char> = Vec::new();
    let mut i: usize = 0;
    while i < s.len()
        invariant
            i <= s@.len(),
            (views(done@), cur@) == ws_scan(s@.subrange(0, i as int)),
        decreases s.len() - i,
    {
        let ghost pre = s@.subrange(0, (i + 1) as int);
        assert(pre.drop_last() =~= s@.subrange(0, i as int));
        let c = s[i];
        if char_is_whitespace(c) {
            if cur.len() > 0 {
                let ghost d0 = done@;
                let ghost wv = cur@;
                let w = cur;
                done.push(w);
                assert(views(done@) =~= views(d0).push(wv));
                cur = Vec::new();
            }
        } else {
            cur.push(c);
        }
        i = i + 1;
    }
    assert(s@.subrange(0, i as int) =~= s@);
    proof {
        if ascii_text(s@) {
            assert forall|j: int| 0 <= j < s@.len() implies unicode_white_space(#[trigger] s@[j])
                == ascii_white_space(s@[j]) by {
                lemma_ascii_white_space(s@[j]);
            }
            lemma_ws_scan_agree(s@);
        }
    }
    if cur.len() > 0 {
        let ghost d0 = done@;
        let ghost cv = cur@;
        done.push(cur);
        assert(views(done@) =~= views(d0).push(cv));
    }
    done
}

/// The parts, with `sep` between each two.
pub fn join_chars(parts: &Vec<Vec<char>>, sep: &[char]) -> (r: Vec<char>)
    ensures
        r@ == join(views(parts@), sep@),
{
    let r = join_first_chars(parts, parts.len(), sep);
    assert(views(parts@).take(parts@.len() as int) =~= views(parts@));
    r
}

/// The first `count` parts, with `sep` between each two.
pub fn join_first_chars(parts: &Vec<Vec<char>>, count: usize, sep: &[char]) -> (r: Vec<char>)
    requires
        count <= parts@.len(),
    ensures
        r@ == join(views(parts@).take(count as int), sep@),
{
    let mut out: Vec<char> = Vec::new();
    let mut i: usize = 0;
    let ghost pv = views(parts@);
    while i < count
        invariant
            count <= parts@.len(),
            pv == views(parts@),
            i <= count,
            out@ == join(pv.subrange(0, i as int), sep@),
        decreases count - i,
    {
        assert(pv.subrange(0, (i + 1) as int).drop_last() =~= pv.subrange(0, i as int));
        if i > 0 {
            append_chars(&mut out, sep);
        } else {
            assert(out@ =~= seq![]);
        }
        append_chars(&mut out, parts[i].as_slice());
        assert(parts[i as int]@ == pv[i as int]);
        i = i + 1;
    }
    assert(pv.subrange(0, i as int) =~= pv.take(count as int));
    out
}

} // verus!
