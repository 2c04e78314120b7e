//! Cleaning LLM output into text fit for speech synthesis, and the
//! capitalisation of paragraphs.

use vstd::prelude::*;
use crate::tokens::lemma_words_are_words;
use crate::text::{
    append_chars, ascii_char, ascii_punctuation, char_is_alphanumeric, char_is_whitespace,
    chars_of, is_ascii_char, is_ascii_punctuation, join, join_chars, replace_all, replace_chars,
    split_whitespace, string_of, unicode_alphanumeric, unicode_white_space, views, words,
    ascii_text, ascii_white_space, ascii_words, ascii_alphanumeric, starts_with, lemma_ascii_words_are_words, lemma_ascii_words_of_join,
    lemma_join_ascii,
};

verus! {

// ---------------------------------------------------------------------------
// Single steps
// ---------------------------------------------------------------------------

/// Every run of consecutive dots shortened to one dot: a dot that directly
/// follows a dot is dropped. This is the fixpoint of replacing ".." by "."
/// until no ".." is left.
pub open spec fn squeeze_dots(s: Seq<char>) -> Seq<char>
    decreases s.len(),
{
    if s.len() == 0 {
        seq![]
    } else {
        let r = squeeze_dots(s.drop_last());
        if s.last() == '.' && s.len() >= 2 && s[s.len() - 2] == '.' {
            r
        } else {
            r.push(s.last())
        }
    }
}

/// The characters of `s` that are alphanumeric, whitespace or ASCII
/// punctuation, in order.
pub open spec fn keep_speakable(s: Seq<char>) -> Seq<char>
    decreases s.len(),
{
    if s.len() == 0 {
        seq![]
    } else {
        let r = keep_speakable(s.drop_last());
        let c = s.last();
        if unicode_alphanumeric(c) || unicode_white_space(c) || ascii_punctuation(c) {
            r.push(c)
        } else {
            r
        }
    }
}

/// The characters of `s` that are alphanumeric or whitespace, in order.
pub open spec fn keep_alnum_space(s: Seq<char>) -> Seq<char>
    decreases s.len(),
{
    if s.len() == 0 {
        seq![]
    } else {
        let r = keep_alnum_space(s.drop_last());
        let c = s.last();
        if unicode_alphanumeric(c) || unicode_white_space(c) {
            r.push(c)
        } else {
            r
        }
    }
}

/// Scanning `s` from the left for `str::split(sep)`: the pieces completed so
/// far and the piece being read.
pub open spec fn split_scan(s: Seq<char>, sep: char) -> (Seq<Seq<char>>, Seq<char>)
    decreases s.len(),
{
    if s.len() == 0 {
        (seq![], seq![])
    } else {
        let prev = split_scan(s.drop_last(), sep);
        if s.last() == sep {
            (prev.0.push(prev.1), seq![])
        } else {
            (prev.0, prev.1.push(s.last()))
        }
    }
}

/// `str::split(sep)` with a character: the pieces between separators,
/// empty ones included; there is always one more piece than separators.
pub open spec fn split_on(s: Seq<char>, sep: char) -> Seq<Seq<char>> {
    split_scan(s, sep).0.push(split_scan(s, sep).1)
}

/// `s` without its leading whitespace.
pub open spec fn trim_start(s: Seq<char>) -> Seq<char>
    decreases s.len(),
{
    if s.len() > 0 && unicode_white_space(s[0]) {
        trim_start(s.drop_first())
    } else {
        s
    }
}

/// `s` without its trailing whitespace.
pub open spec fn trim_end(s: Seq<char>) -> Seq<char>
    decreases s.len(),
{
    if s.len() > 0 && unicode_white_space(s.last()) {
        trim_end(s.drop_last())
    } else {
        s
    }
}

/// `str::trim`: without leading and trailing whitespace.
pub open spec fn trim(s: Seq<char>) -> Seq<char> {
    trim_end(trim_start(s))
}

/// A sentence without its first character when that is ASCII punctuation.
pub open spec fn strip_leading_punctuation(s: Seq<char>) -> Seq<char> {
    if s.len() > 0 && ascii_punctuation(s[0]) {
        s.drop_first()
    } else {
        s
    }
}

/// The longest prefix of `s` made of ASCII characters.
pub open spec fn ascii_prefix(s: Seq<char>) -> Seq<char>
    decreases s.len(),
{
    if s.len() > 0 && ascii_char(s[0]) {
        seq![s[0]] + ascii_prefix(s.drop_first())
    } else {
        seq![]
    }
}

/// `s` without its trailing characters that are not alphanumeric.
pub open spec fn trim_end_non_alnum(s: Seq<char>) -> Seq<char>
    decreases s.len(),
{
    if s.len() > 0 && !unicode_alphanumeric(s.last()) {
        trim_end_non_alnum(s.drop_last())
    } else {
        s
    }
}

/// Spaces before `.`, `,`, `?`, `!`, `:` and `;` removed, in that order.
pub open spec fn tighten_punctuation(s: Seq<char>) -> Seq<char> {
    let a = replace_all(s, seq![' ', '.'], seq!['.']);
    let b = replace_all(a, seq![' ', ','], seq![',']);
    let c = replace_all(b, seq![' ', '?'], seq!['?']);
    let d = replace_all(c, seq![' ', '!'], seq!['!']);
    let e = replace_all(d, seq![' ', ':'], seq![':']);
    replace_all(e, seq![' ', ';'], seq![';'])
}

/// Words separated by single spaces.
pub open spec fn single_spaced(s: Seq<char>) -> Seq<char> {
    join(words(s), seq![' '])
}

/// Each sentence (the pieces between dots) trimmed and stripped of a leading
/// punctuation character, and the sentences joined by ". ".
pub open spec fn tidy_sentences(s: Seq<char>) -> Seq<char> {
    join(
        split_on(s, '.').map_values(|p: Seq<char>| strip_leading_punctuation(trim(p))),
        seq!['.', ' '],
    )
}

/// The marker that ends a chat message.
pub open spec fn im_end_marker() -> Seq<char> {
    seq!['<', '|', 'i', 'm', '_', 'e', 'n', 'd', '|', '>']
}

// ---------------------------------------------------------------------------
// Executable steps
// ---------------------------------------------------------------------------

pub fn squeeze_dots_exec(s: &[char]) -> (r: Vec<char>)
    ensures
        r@ == squeeze_dots(s@),
{
    let mut out: Vec<char> = Vec::new();
    let mut i: usize = 0;
    while i < s.len()
        invariant
            i <= s@.len(),
            out@ == squeeze_dots(s@.subrange(0, i as int)),
        decreases s.len() - i,
    {
        let ghost pre = s@.subrange(0, i + 1);
        assert(pre.drop_last() =~= s@.subrange(0, i as int));
        if !(s[i] == '.' && i >= 1 && s[i - 1] == '.') {
            out.push(s[i]);
        }
        i = i + 1;
    }
    assert(s@.subrange(0, i as int) =~= s@);
    out
}

pub fn keep_speakable_exec(s: &[char]) -> (r: Vec<char>)
    ensures
        r@ == keep_speakable(s@),
{
    let mut out: Vec<char> = Vec::new();
    let mut i: usize = 0;
    while i < s.len()
        invariant
            i <= s@.len(),
            out@ == keep_speakable(s@.subrange(0, i as int)),
        decreases s.len() - i,
    {
        let ghost pre = s@.subrange(0, i + 1);
        assert(pre.drop_last() =~= s@.subrange(0, i as int));
        let c = s[i];
        if char_is_alphanumeric(c) || char_is_whitespace(c) || is_ascii_punctuation(c) {
            out.push(c);
        }
        i = i + 1;
    }
    assert(s@.subrange(0, i as int) =~= s@);
    out
}

pub fn keep_alnum_space_exec(s: &[char]) -> (r: Vec<char>)
    ensures
        r@ == keep_alnum_space(s@),
{
    let mut out: Vec<char> = Vec::new();
    let mut i: usize = 0;
    while i < s.len()
        invariant
            i <= s@.len(),
            out@ == keep_alnum_space(s@.subrange(0, i as int)),
        decreases s.len() - i,
    {
        let ghost pre = s@.subrange(0, i + 1);
        assert(pre.drop_last() =~= s@.subrange(0, i as int));
        let c = s[i];
        if char_is_alphanumeric(c) || char_is_whitespace(c) {
            out.push(c);
        }
        i = i + 1;
    }
    assert(s@.subrange(0, i as int) =~= s@);
    out
}

pub fn split_on_exec(s: &[char], sep: char) -> (r: Vec<Vec<char>>)
    ensures
        views(r@) == split_on(s@, sep),
{
    let mut done: Vec<Vec<char>> = Vec::new();
    let mut cur: Vec<char> = Vec::new();
    let mut i: usize = 0;
    while i < s.len()
        invariant
            i <= s@.len(),
            (views(done@), cur@) == split_scan(s@.subrange(0, i as int), sep),
        decreases s.len() - i,
    {
        let ghost pre = s@.subrange(0, i + 1);
        assert(pre.drop_last() =~= s@.subrange(0, i as int));
        if s[i] == sep {
            let ghost d0 = done@;
            let ghost cv = cur@;
            let w = cur;
            done.push(w);
            assert(views(done@) =~= views(d0).push(cv));
            cur = Vec::new();
        } else {
            cur.push(s[i]);
        }
        i = i + 1;
    }
    assert(s@.subrange(0, i as int) =~= s@);
    let ghost d0 = done@;
    let ghost cv = cur@;
    done.push(cur);
    assert(views(done@) =~= views(d0).push(cv));
    done
}

proof fn lemma_trim_start_skip(s: Seq<char>, i: int)
    requires
        0 <= i <= s.len(),
        forall|j: int| 0 <= j < i ==> unicode_white_space(#[trigger] s[j]),
    ensures
        trim_start(s) == trim_start(s.skip(i)),
    decreases i,
{
    if i > 0 {
        assert(s.drop_first().skip(i - 1) =~= s.skip(i));
        assert forall|j: int| 0 <= j < i - 1 implies unicode_white_space(
            #[trigger] s.drop_first()[j],
        ) by {
            assert(s.drop_first()[j] == s[j + 1]);
        }
        lemma_trim_start_skip(s.drop_first(), i - 1);
    } else {
        assert(s.skip(0) =~= s);
    }
}

proof fn lemma_trim_end_take(s: Seq<char>, k: int)
    requires
        0 <= k <= s.len(),
        forall|j: int| k <= j < s.len() ==> unicode_white_space(#[trigger] s[j]),
    ensures
        trim_end(s) == trim_end(s.take(k)),
    decreases s.len() - k,
{
    if k < s.len() {
        assert(s.drop_last().take(k) =~= s.take(k));
        assert forall|j: int| k <= j < s.drop_last().len() implies unicode_white_space(
            #[trigger] s.drop_last()[j],
        ) by {
            assert(s.drop_last()[j] == s[j]);
        }
        lemma_trim_end_take(s.drop_last(), k);
    } else {
        assert(s.take(k) =~= s);
    }
}

pub fn trim_exec(s: &[char]) -> (r: Vec<char>)
    ensures
        r@ == trim(s@),
{
    let mut a: usize = 0;
    while a < s.len() && char_is_whitespace(s[a])
        invariant
            a <= s@.len(),
            forall|j: int| 0 <= j < a ==> unicode_white_space(#[trigger] s@[j]),
        decreases s.len() - a,
    {
        a = a + 1;
    }
    proof {
        lemma_trim_start_skip(s@, a as int);
    }
    let ghost t = s@.skip(a as int);
    assert(trim_start(t) == t);
    let mut b: usize = s.len();
    while b > a && char_is_whitespace(s[b - 1])
        invariant
            a <= b <= s@.len(),
            forall|j: int| b <= j < s@.len() ==> unicode_white_space(#[trigger] s@[j]),
        decreases b,
    {
        b = b - 1;
    }
    proof {
        assert forall|j: int| (b - a) <= j < t.len() implies unicode_white_space(#[trigger] t[j]) by {
            assert(t[j] == s@[j + a]);
        }
        lemma_trim_end_take(t, b - a);
        assert(t.take(b - a) =~= s@.subrange(a as int, b as int));
    }
    let mut out: Vec<char> = Vec::new();
    let mut k: usize = a;
    while k < b
        invariant
            a <= k <= b <= s@.len(),
            out@ == s@.subrange(a as int, k as int),
        decreases b - k,
    {
        out.push(s[k]);
        k = k + 1;
    }
    out
}

pub fn strip_leading_punctuation_exec(s: Vec<char>) -> (r: Vec<char>)
    ensures
        r@ == strip_leading_punctuation(s@),
{
    if s.len() > 0 && is_ascii_punctuation(s[0]) {
        let mut out: Vec<char> = Vec::new();
        let mut k: usize = 1;
        while k < s.len()
            invariant
                1 <= k <= s@.len(),
                out@ == s@.subrange(1, k as int),
            decreases s.len() - k,
        {
            out.push(s[k]);
            k = k + 1;
        }
        assert(out@ =~= s@.drop_first());
        out
    } else {
        s
    }
}

proof fn lemma_ascii_prefix_take(s: Seq<char>, k: int)
    requires
        0 <= k <= s.len(),
        forall|j: int| 0 <= j < k ==> ascii_char(#[trigger] s[j]),
        k == s.len() || !ascii_char(s[k]),
    ensures
        ascii_prefix(s) == s.take(k),
    decreases k,
{
    if k > 0 {
        assert forall|j: int| 0 <= j < k - 1 implies ascii_char(#[trigger] s.drop_first()[j]) by {
            assert(s.drop_first()[j] == s[j + 1]);
        }
        lemma_ascii_prefix_take(s.drop_first(), k - 1);
        assert(seq![s[0]] + s.drop_first().take(k - 1) =~= s.take(k));
    }
}

pub fn ascii_prefix_exec(s: &[char]) -> (r: Vec<char>)
    ensures
        r@ == ascii_prefix(s@),
{
    let mut out: Vec<char> = Vec::new();
    let mut k: usize = 0;
    while k < s.len() && is_ascii_char(s[k])
        invariant
            k <= s@.len(),
            out@ == s@.take(k as int),
            forall|j: int| 0 <= j < k ==> ascii_char(#[trigger] s@[j]),
        decreases s.len() - k,
    {
        out.push(s[k]);
        k = k + 1;
    }
    proof {
        lemma_ascii_prefix_take(s@, k as int);
    }
    out
}

proof fn lemma_trim_end_non_alnum_take(s: Seq<char>, k: int)
    requires
        0 <= k <= s.len(),
        forall|j: int| k <= j < s.len() ==> !unicode_alphanumeric(#[trigger] s[j]),
    ensures
        trim_end_non_alnum(s) == trim_end_non_alnum(s.take(k)),
    decreases s.len() - k,
{
    if k < s.len() {
        assert(s.drop_last().take(k) =~= s.take(k));
        assert forall|j: int| k <= j < s.drop_last().len() implies !unicode_alphanumeric(
            #[trigger] s.drop_last()[j],
        ) by {
            assert(s.drop_last()[j] == s[j]);
        }
        lemma_trim_end_non_alnum_take(s.drop_last(), k);
    } else {
        assert(s.take(k) =~= s);
    }
}

pub fn trim_end_non_alnum_exec(s: &[char]) -> (r: Vec<char>)
    ensures
        r@ == trim_end_non_alnum(s@),
{
    let mut b: usize = s.len();
    while b > 0 && !char_is_alphanumeric(s[b - 1])
        invariant
            b <= s@.len(),
            forall|j: int| b <= j < s@.len() ==> !unicode_alphanumeric(#[trigger] s@[j]),
        decreases b,
    {
        b = b - 1;
    }
    proof {
        lemma_trim_end_non_alnum_take(s@, b as int);
    }
    let mut out: Vec<char> = Vec::new();
    let mut k: usize = 0;
    while k < b
        invariant
            k <= b <= s@.len(),
            out@ == s@.take(k as int),
        decreases b - k,
    {
        out.push(s[k]);
        k = k + 1;
    }
    out
}

fn replace_pair(s: &[char], a: char, b: char, by: char) -> (r: Vec<char>)
    ensures
        r@ == replace_all(s@, seq![a, b], seq![by]),
{
    let pat = vec![a, b];
    let rep = vec![by];
    assert(pat@ =~= seq![a, b]);
    assert(rep@ =~= seq![by]);
    replace_chars(s, pat.as_slice(), rep.as_slice())
}

pub fn tighten_punctuation_exec(s: &[char]) -> (r: Vec<char>)
    ensures
        r@ == tighten_punctuation(s@),
{
    let a = replace_pair(s, ' ', '.', '.');
    let b = replace_pair(a.as_slice(), ' ', ',', ',');
    let c = replace_pair(b.as_slice(), ' ', '?', '?');
    let d = replace_pair(c.as_slice(), ' ', '!', '!');
    let e = replace_pair(d.as_slice(), ' ', ':', ':');
    replace_pair(e.as_slice(), ' ', ';', ';')
}

pub fn single_spaced_exec(s: &[char]) -> (r: Vec<char>)
    ensures
        r@ == single_spaced(s@),
{
    let ws = split_whitespace(s);
    let sep = vec![' '];
    assert(sep@ =~= seq![' ']);
    join_chars(&ws, sep.as_slice())
}

pub fn tidy_sentences_exec(s: &[char]) -> (r: Vec<char>)
    ensures
        r@ == tidy_sentences(s@),
{
    let pieces = split_on_exec(s, '.');
    let ghost pv = views(pieces@);
    let mut tidied: Vec<Vec<char>> = Vec::new();
    let mut i: usize = 0;
    while i < pieces.len()
        invariant
            pv == views(pieces@),
            pv == split_on(s@, '.'),
            i <= pv.len(),
            views(tidied@) == pv.take(i as int).map_values(
                |p: Seq<char>| strip_leading_punctuation(trim(p)),
            ),
        decreases pieces.len() - i,
    {
        assert(pieces[i as int]@ == pv[i as int]);
        let t = trim_exec(pieces[i].as_slice());
        let u = strip_leading_punctuation_exec(t);
        let ghost tv = views(tidied@);
        let ghost uv = u@;
        assert(uv == strip_leading_punctuation(trim(pv[i as int])));
        tidied.push(u);
        assert(views(tidied@) =~= tv.push(uv));
        assert(views(tidied@) =~= pv.take(i + 1).map_values(
            |p: Seq<char>| strip_leading_punctuation(trim(p)),
        ));
        i = i + 1;
    }
    assert(pv.take(i as int) =~= pv);
    let sep = vec!['.', ' '];
    assert(sep@ =~= seq!['.', ' ']);
    join_chars(&tidied, sep.as_slice())
}

// ---------------------------------------------------------------------------
// Cleaning text for speech
// ---------------------------------------------------------------------------

/// What `clean_tts_input` makes of a text: runs of dots shortened to one dot,
/// the end-of-message marker removed, words single-spaced with no space
/// before punctuation, only alphanumeric, whitespace and ASCII punctuation
/// characters kept, sentences trimmed and rid of a leading punctuation
/// character and joined by ". ", cut at the first non-ASCII character, and
/// trailing non-alphanumeric characters removed.
pub open spec fn tts_clean(s: Seq<char>) -> Seq<char> {
    let a = squeeze_dots(s);
    let b = replace_all(a, im_end_marker(), seq![]);
    let c = tighten_punctuation(single_spaced(b));
    let d = keep_speakable(c);
    let e = tidy_sentences(d);
    trim_end_non_alnum(ascii_prefix(e))
}

/// Cleans LLM output for speech synthesis (see `tts_clean`). The result
/// holds only ASCII letters, digits, spaces and punctuation, holds no two
/// consecutive dots, and is empty or ends with an ASCII letter or digit.
pub fn clean_tts_input(input: String) -> (r: String)
    ensures
        r@ == tts_clean(input@),
        forall|i: int| 0 <= i < r@.len() ==> ascii_char(#[trigger] r@[i]),
        forall|i: int| 0 <= i < r@.len() ==> speakable_ascii(#[trigger] r@[i]),
        forall|i: int| 0 <= i < r@.len() - 1 ==> !(#[trigger] r@[i] == '.' && r@[i + 1] == '.'),
        r@.len() == 0 || ascii_alphanumeric(r@.last()),
{
    let s = chars_of(input.as_str());
    let a = squeeze_dots_exec(s.as_slice());
    let marker = chars_of("<|im_end|>");
    proof {
        reveal_strlit("<|im_end|>");
    }
    assert(marker@ =~= im_end_marker());
    let nothing: Vec<char> = Vec::new();
    let b = replace_chars(a.as_slice(), marker.as_slice(), nothing.as_slice());
    let c0 = single_spaced_exec(b.as_slice());
    let c = tighten_punctuation_exec(c0.as_slice());
    let d = keep_speakable_exec(c.as_slice());
    let e = tidy_sentences_exec(d.as_slice());
    let f = ascii_prefix_exec(e.as_slice());
    let g = trim_end_non_alnum_exec(f.as_slice());
    proof {
        lemma_tidy_sentences_no_double_dot(d@);
        lemma_ascii_prefix_props(e@);
        lemma_trim_end_non_alnum_props(f@);
        lemma_tight_spacing(b@);
        lemma_speakable_tail(c@);
    }
    string_of(g.as_slice())
}

// ---------------------------------------------------------------------------
// Capitalisation
// ---------------------------------------------------------------------------

/// The uppercase mapping of a character beyond ASCII, as
/// `char::to_uppercase` yields it.
pub uninterp spec fn upper_beyond_ascii(c: char) -> Seq<char>;

/// The lowercase form of a string that is not all ASCII, as
/// `str::to_lowercase` gives it.
pub uninterp spec fn lower_beyond_ascii(s: Seq<char>) -> Seq<char>;

/// The uppercase mapping of a character, as `char::to_uppercase` yields it:
/// of an ASCII character its ASCII upper-case form.
pub open spec fn unicode_upper(c: char) -> Seq<char> {
    if ascii_char(c) {
        seq![ascii_upper(c)]
    } else {
        upper_beyond_ascii(c)
    }
}

/// The lowercase form of a string, as `str::to_lowercase` gives it: of an
/// ASCII string its ASCII lower-case form.
pub open spec fn unicode_lower(s: Seq<char>) -> Seq<char> {
    if ascii_text(s) {
        ascii_lowered(s)
    } else {
        lower_beyond_ascii(s)
    }
}

/// The upper-case form of an ASCII character: `a` to `z` become `A` to `Z`,
/// every other character stays.
pub open spec fn ascii_upper(c: char) -> char {
    if 'a' <= c && c <= 'z' {
        ((c as int) - 32) as char
    } else {
        c
    }
}

/// The lower-case form of an ASCII character: `A` to `Z` become `a` to `z`,
/// every other character stays.
pub open spec fn ascii_lower(c: char) -> char {
    if 'A' <= c && c <= 'Z' {
        ((c as int) + 32) as char
    } else {
        c
    }
}

/// A text with every character in lower case (see `ascii_lower`).
pub open spec fn ascii_lowered(s: Seq<char>) -> Seq<char> {
    s.map_values(|c: char| ascii_lower(c))
}

/// Calls `char::to_uppercase` and collects the characters it yields (see
/// `unicode_upper`). The documentation gives that it yields one or more
/// characters, and the Unicode case mapping that it follows maps the ASCII
/// letters `a` to `z` to `A` to `Z` and leaves every other ASCII character as
/// it is. Beyond ASCII the result is named `upper_beyond_ascii`; the rest of
/// the Unicode case table is not stated.
#[verifier::external_body]
fn char_to_uppercase(c: char) -> (r: String)
    ensures
        r@ == unicode_upper(c),
        r@.len() >= 1,
        !ascii_char(c) ==> r@ == upper_beyond_ascii(c),
{
    c.to_uppercase().collect::<String>()
}

/// Calls `str::to_lowercase` (see `unicode_lower`). The Unicode case mapping
/// that it follows maps the ASCII letters `A` to `Z` to `a` to `z` one for
/// one and leaves every other ASCII character as it is. Of a string that is
/// not all ASCII the result is named `lower_beyond_ascii`; the rest of the
/// Unicode case table is not stated.
#[verifier::external_body]
pub(crate) fn str_to_lowercase(s: &str) -> (r: String)
    ensures
        r@ == unicode_lower(s@),
        !ascii_text(s@) ==> r@ == lower_beyond_ascii(s@),
{
    s.to_lowercase()
}

/// A word with its first character in upper case and the rest in lower case.
pub open spec fn capitalized(w: Seq<char>) -> Seq<char> {
    if w.len() == 0 {
        seq![]
    } else {
        unicode_upper(w[0]) + unicode_lower(w.drop_first())
    }
}

/// Each word of the paragraph capitalised, and the words joined by single
/// spaces.
pub open spec fn caps_adjusted(p: Seq<char>) -> Seq<char> {
    join(words(p).map_values(|w: Seq<char>| capitalized(w)), seq![' '])
}

/// A word of ASCII text capitalised: its first character in upper case and
/// the rest in lower case.
pub open spec fn ascii_capitalized(w: Seq<char>) -> Seq<char> {
    if w.len() == 0 {
        seq![]
    } else {
        seq![ascii_upper(w[0])] + ascii_lowered(w.drop_first())
    }
}

/// What `adjust_caps` makes of an ASCII paragraph: each word capitalised
/// (see `ascii_capitalized`) and the words joined by single spaces.
pub open spec fn ascii_caps_adjusted(p: Seq<char>) -> Seq<char> {
    join(ascii_words(p).map_values(|w: Seq<char>| ascii_capitalized(w)), seq![' '])
}

fn capitalize_word(w: &[char]) -> (r: Vec<char>)
    ensures
        r@ == capitalized(w@),
        ascii_text(w@) ==> r@ == ascii_capitalized(w@),
{
    if w.len() == 0 {
        return Vec::new();
    }
    let first = char_to_uppercase(w[0]);
    let mut rest: Vec<char> = Vec::new();
    let mut k: usize = 1;
    while k < w.len()
        invariant
            1 <= k <= w@.len(),
            rest@ == w@.subrange(1, k as int),
        decreases w.len() - k,
    {
        rest.push(w[k]);
        k = k + 1;
    }
    assert(rest@ =~= w@.drop_first());
    let rest_s = string_of(rest.as_slice());
    proof {
        if ascii_text(w@) {
            assert(ascii_char(w@[0]));
            assert forall|i: int| 0 <= i < rest_s@.len() implies ascii_char(#[trigger] rest_s@[i]) by {
                assert(rest_s@[i] == w@[i + 1]);
            }
        }
    }
    let lower = str_to_lowercase(rest_s.as_str());
    let mut out = chars_of(first.as_str());
    let lower_chars = chars_of(lower.as_str());
    append_chars(&mut out, lower_chars.as_slice());
    out
}

/// Removes all caps from a paragraph: every word keeps an upper-case first
/// character and the rest in lower case, and the words are joined by single
/// spaces.
pub fn adjust_caps(paragraph: &str) -> (r: String)
    ensures
        r@ == caps_adjusted(paragraph@),
        ascii_text(paragraph@) ==> r@ == ascii_caps_adjusted(paragraph@),
        ascii_text(paragraph@) ==> ascii_text(r@),
{
    let chars = chars_of(paragraph);
    let ws = split_whitespace(chars.as_slice());
    let ghost wv = views(ws@);
    let ghost is_ascii = ascii_text(paragraph@);
    proof {
        lemma_ascii_words_are_words(paragraph@);
    }
    let mut out: Vec<Vec<char>> = Vec::new();
    let mut i: usize = 0;
    while i < ws.len()
        invariant
            wv == views(ws@),
            wv == words(paragraph@),
            is_ascii == ascii_text(paragraph@),
            is_ascii ==> wv == ascii_words(paragraph@),
            is_ascii ==> forall|k: int| 0 <= k < wv.len() ==> ascii_text(#[trigger] wv[k]),
            i <= wv.len(),
            views(out@) == wv.take(i as int).map_values(|w: Seq<char>| capitalized(w)),
            is_ascii ==> views(out@) == wv.take(i as int).map_values(|w: Seq<char>| ascii_capitalized(w)),
        decreases ws.len() - i,
    {
        assert(ws[i as int]@ == wv[i as int]);
        let c = capitalize_word(ws[i].as_slice());
        let ghost ov = views(out@);
        let ghost cv = c@;
        out.push(c);
        assert(views(out@) =~= ov.push(cv));
        assert(views(out@) =~= wv.take(i + 1).map_values(|w: Seq<char>| capitalized(w)));
        proof {
            if is_ascii {
                assert(ascii_text(wv[i as int]));
                assert(views(out@) =~= wv.take(i + 1).map_values(|w: Seq<char>| ascii_capitalized(w)));
            }
        }
        i = i + 1;
    }
    assert(wv.take(i as int) =~= wv);
    let sep = vec![' '];
    assert(sep@ =~= seq![' ']);
    let joined = join_chars(&out, sep.as_slice());
    proof {
        if is_ascii {
            lemma_ascii_caps_props(paragraph@);
        }
    }
    string_of(joined.as_slice())
}

proof fn lemma_ascii_letter_cases(c: char)
    requires
        ascii_char(c),
    ensures
        ascii_char(ascii_upper(c)),
        ascii_char(ascii_lower(c)),
        ascii_white_space(ascii_upper(c)) == ascii_white_space(c),
        ascii_white_space(ascii_lower(c)) == ascii_white_space(c),
        ascii_upper(ascii_upper(c)) == ascii_upper(c),
        ascii_lower(ascii_lower(c)) == ascii_lower(c),
{
}

proof fn lemma_ascii_capitalized_props(w: Seq<char>)
    requires
        ascii_text(w),
    ensures
        ascii_text(ascii_capitalized(w)),
        ascii_capitalized(w).len() == w.len(),
        forall|j: int| 0 <= j < w.len() ==> ascii_white_space(#[trigger] ascii_capitalized(w)[j])
            == ascii_white_space(w[j]),
        ascii_capitalized(ascii_capitalized(w)) == ascii_capitalized(w),
{
    if w.len() > 0 {
        let cw = ascii_capitalized(w);
        let rest = w.drop_first();
        assert forall|j: int| 0 <= j < w.len() implies ascii_char(#[trigger] cw[j]) && ascii_white_space(cw[j])
            == ascii_white_space(w[j]) by {
            lemma_ascii_letter_cases(w[j]);
            if j > 0 {
                assert(cw[j] == ascii_lower(rest[j - 1]));
                assert(rest[j - 1] == w[j]);
            }
        }
        assert(ascii_text(cw));
        lemma_ascii_letter_cases(w[0]);
        let ccw = ascii_capitalized(cw);
        assert forall|j: int| 0 <= j < w.len() implies #[trigger] ccw[j] == cw[j] by {
            if j > 0 {
                assert(rest[j - 1] == w[j]);
                lemma_ascii_letter_cases(w[j]);
                assert(cw.drop_first()[j - 1] == cw[j]);
            }
        }
        assert(ccw =~= cw);
    }
}

proof fn lemma_ascii_caps_props(p: Seq<char>)
    requires
        ascii_text(p),
    ensures
        ascii_text(ascii_caps_adjusted(p)),
        ascii_words(ascii_caps_adjusted(p)) == ascii_words(p).map_values(
            |w: Seq<char>| ascii_capitalized(w),
        ),
{
    lemma_ascii_words_are_words(p);
    let ws = ascii_words(p);
    let cs = ws.map_values(|w: Seq<char>| ascii_capitalized(w));
    assert forall|k: int| 0 <= k < cs.len() implies ascii_text(#[trigger] cs[k]) && cs[k].len() > 0
        && forall|j: int| 0 <= j < cs[k].len() ==> !ascii_white_space(#[trigger] cs[k][j]) by {
        assert(ascii_text(ws[k]));
        lemma_ascii_capitalized_props(ws[k]);
        assert forall|j: int| 0 <= j < cs[k].len() implies !ascii_white_space(#[trigger] cs[k][j]) by {
            assert(!ascii_white_space(ws[k][j]));
        }
    }
    lemma_join_ascii(cs);
    lemma_ascii_words_of_join(cs);
}

/// Adjusting the caps of an ASCII paragraph twice gives what adjusting them
/// once gives; the adjusted paragraph is ASCII.
pub proof fn lemma_adjust_caps_ascii_idempotent(p: Seq<char>)
    requires
        ascii_text(p),
    ensures
        ascii_text(ascii_caps_adjusted(p)),
        ascii_caps_adjusted(ascii_caps_adjusted(p)) == ascii_caps_adjusted(p),
{
    lemma_ascii_caps_props(p);
    lemma_ascii_words_are_words(p);
    let ws = ascii_words(p);
    let cs = ws.map_values(|w: Seq<char>| ascii_capitalized(w));
    let ccs = cs.map_values(|w: Seq<char>| ascii_capitalized(w));
    assert forall|k: int| 0 <= k < cs.len() implies #[trigger] ccs[k] == cs[k] by {
        assert(ascii_text(ws[k]));
        lemma_ascii_capitalized_props(ws[k]);
    }
    assert(ccs =~= cs);
}

// ---------------------------------------------------------------------------
// Text for the speech synthesiser
// ---------------------------------------------------------------------------

/// What the speech step makes of a paragraph before synthesis: caps
/// adjusted, words single-spaced with no space before punctuation, only
/// alphanumeric, whitespace and ASCII punctuation characters kept, sentences
/// trimmed and rid of a leading punctuation character and joined by ". ",
/// cut at the first non-ASCII character, trailing non-alphanumeric
/// characters removed, and runs of dots shortened to one dot.
pub open spec fn speech_ready(p: Seq<char>) -> Seq<char> {
    let a = caps_adjusted(p);
    let b = tighten_punctuation(single_spaced(a));
    let c = keep_speakable(b);
    let d = tidy_sentences(c);
    squeeze_dots(trim_end_non_alnum(ascii_prefix(d)))
}

/// Prepares a paragraph for speech synthesis (see `speech_ready`). The
/// result holds only ASCII letters, digits, spaces and punctuation, holds no
/// two consecutive dots, and is empty or ends with an ASCII letter or digit.
pub fn prepare_speech_text(paragraph: &str) -> (r: String)
    ensures
        r@ == speech_ready(paragraph@),
        forall|i: int| 0 <= i < r@.len() ==> ascii_char(#[trigger] r@[i]),
        forall|i: int| 0 <= i < r@.len() ==> speakable_ascii(#[trigger] r@[i]),
        no_double_dot(r@),
        r@.len() == 0 || ascii_alphanumeric(r@.last()),
{
    let a = adjust_caps(paragraph);
    let a_chars = chars_of(a.as_str());
    let b0 = single_spaced_exec(a_chars.as_slice());
    let b = tighten_punctuation_exec(b0.as_slice());
    let c = keep_speakable_exec(b.as_slice());
    let d = tidy_sentences_exec(c.as_slice());
    let e = ascii_prefix_exec(d.as_slice());
    let f = trim_end_non_alnum_exec(e.as_slice());
    let g = squeeze_dots_exec(f.as_slice());
    proof {
        lemma_ascii_prefix_props(d@);
        lemma_trim_end_non_alnum_props(e@);
        lemma_squeeze_props(f@);
        lemma_tight_spacing(a_chars@);
        lemma_speakable_tail(b@);
        let sp = |ch: char| speakable_ascii(ch);
        assert(all_chars(f@, sp));
        lemma_squeeze_all(f@, sp);
        assert forall|i: int| 0 <= i < g@.len() implies speakable_ascii(#[trigger] g@[i]) by {
            assert(sp(g@[i]));
        }
    }
    string_of(g.as_slice())
}

proof fn lemma_squeeze_props(s: Seq<char>)
    ensures
        no_double_dot(squeeze_dots(s)),
        s.len() > 0 ==> squeeze_dots(s).len() > 0 && squeeze_dots(s).last() == s.last(),
        s.len() == 0 ==> squeeze_dots(s).len() == 0,
        (forall|i: int| 0 <= i < s.len() ==> ascii_char(#[trigger] s[i])) ==> (forall|i: int|
            0 <= i < squeeze_dots(s).len() ==> ascii_char(#[trigger] squeeze_dots(s)[i])),
    decreases s.len(),
{
    if s.len() > 0 {
        let front = s.drop_last();
        lemma_squeeze_props(front);
        let r = squeeze_dots(front);
        if (forall|i: int| 0 <= i < s.len() ==> ascii_char(#[trigger] s[i])) {
            assert forall|i: int| 0 <= i < front.len() implies ascii_char(#[trigger] front[i]) by {
                assert(front[i] == s[i]);
            }
        }
        if s.last() == '.' && s.len() >= 2 && s[s.len() - 2] == '.' {
            assert(front.last() == s[s.len() - 2]);
        } else {
            let q = r.push(s.last());
            assert forall|i: int| 0 <= i < q.len() - 1 implies !(#[trigger] q[i] == '.' && q[i + 1]
                == '.') by {
                if i < r.len() - 1 {
                    assert(q[i] == r[i] && q[i + 1] == r[i + 1]);
                } else {
                    assert(q[i] == r.last());
                    assert(front.last() == s[s.len() - 2]);
                }
            }
        }
    }
}

// ---------------------------------------------------------------------------
// Properties of the cleaned text
// ---------------------------------------------------------------------------

/// No two consecutive characters of `s` are dots.
pub open spec fn no_double_dot(s: Seq<char>) -> bool {
    forall|i: int| 0 <= i < s.len() - 1 ==> !(#[trigger] s[i] == '.' && s[i + 1] == '.')
}

proof fn lemma_ascii_prefix_props(s: Seq<char>)
    ensures
        ascii_prefix(s).len() <= s.len(),
        forall|i: int| 0 <= i < ascii_prefix(s).len() ==> #[trigger] ascii_prefix(s)[i] == s[i],
        forall|i: int| 0 <= i < ascii_prefix(s).len() ==> ascii_char(#[trigger] ascii_prefix(s)[i]),
    decreases s.len(),
{
    if s.len() > 0 && ascii_char(s[0]) {
        lemma_ascii_prefix_props(s.drop_first());
        let r = ascii_prefix(s);
        let t = ascii_prefix(s.drop_first());
        assert forall|i: int| 0 <= i < r.len() implies #[trigger] r[i] == s[i] && ascii_char(
            r[i],
        ) by {
            if i > 0 {
                assert(r[i] == t[i - 1]);
                assert(s.drop_first()[i - 1] == s[i]);
            }
        }
    }
}

proof fn lemma_trim_end_non_alnum_props(s: Seq<char>)
    ensures
        trim_end_non_alnum(s).len() <= s.len(),
        forall|i: int|
            0 <= i < trim_end_non_alnum(s).len() ==> #[trigger] trim_end_non_alnum(s)[i] == s[i],
        trim_end_non_alnum(s).len() == 0 || unicode_alphanumeric(trim_end_non_alnum(s).last()),
    decreases s.len(),
{
    if s.len() > 0 && !unicode_alphanumeric(s.last()) {
        lemma_trim_end_non_alnum_props(s.drop_last());
    }
}

proof fn lemma_split_pieces_dot_free(s: Seq<char>, sep: char)
    ensures
        forall|k: int, j: int|
            0 <= k < split_on(s, sep).len() && 0 <= j < split_on(s, sep)[k].len() ==> #[trigger] split_on(
                s,
                sep,
            )[k][j] != sep,
{
    lemma_split_scan_free(s, sep);
    let st = split_scan(s, sep);
    let pieces = split_on(s, sep);
    assert forall|k: int, j: int|
        0 <= k < pieces.len() && 0 <= j < pieces[k].len() implies #[trigger] pieces[k][j] != sep by {
        if k < st.0.len() {
            assert(pieces[k] == st.0[k]);
        } else {
            assert(pieces[k] == st.1);
        }
    }
}

proof fn lemma_split_scan_free(s: Seq<char>, sep: char)
    ensures
        forall|k: int, j: int|
            0 <= k < split_scan(s, sep).0.len() && 0 <= j < split_scan(s, sep).0[k].len()
                ==> #[trigger] split_scan(s, sep).0[k][j] != sep,
        forall|j: int| 0 <= j < split_scan(s, sep).1.len() ==> #[trigger] split_scan(s, sep).1[j] != sep,
    decreases s.len(),
{
    if s.len() > 0 {
        lemma_split_scan_free(s.drop_last(), sep);
        let prev = split_scan(s.drop_last(), sep);
        if s.last() == sep {
            let d = prev.0.push(prev.1);
            assert forall|k: int, j: int| 0 <= k < d.len() && 0 <= j < d[k].len() implies #[trigger] d[k][j]
                != sep by {
                if k < prev.0.len() {
                    assert(d[k] == prev.0[k]);
                }
            }
        } else {
            let cur = prev.1.push(s.last());
            assert forall|j: int| 0 <= j < cur.len() implies #[trigger] cur[j] != sep by {
                if j < prev.1.len() {
                    assert(cur[j] == prev.1[j]);
                }
            }
        }
    }
}

proof fn lemma_trim_start_sub(s: Seq<char>)
    ensures
        trim_start(s).len() <= s.len(),
        forall|j: int|
            0 <= j < trim_start(s).len() ==> #[trigger] trim_start(s)[j] == s[j + (s.len() - trim_start(s).len())],
    decreases s.len(),
{
    if s.len() > 0 && unicode_white_space(s[0]) {
        lemma_trim_start_sub(s.drop_first());
    }
}

proof fn lemma_trim_end_sub(s: Seq<char>)
    ensures
        trim_end(s).len() <= s.len(),
        forall|j: int| 0 <= j < trim_end(s).len() ==> #[trigger] trim_end(s)[j] == s[j],
    decreases s.len(),
{
    if s.len() > 0 && unicode_white_space(s.last()) {
        lemma_trim_end_sub(s.drop_last());
    }
}

proof fn lemma_join_dot_space(parts: Seq<Seq<char>>)
    requires
        forall|k: int, j: int| 0 <= k < parts.len() && 0 <= j < parts[k].len() ==> #[trigger] parts[k][j] != '.',
    ensures
        no_double_dot(join(parts, seq!['.', ' '])),
        join(parts, seq!['.', ' ']).len() > 0 ==> join(parts, seq!['.', ' ']).last() != '.',
    decreases parts.len(),
{
    if parts.len() == 1 {
        let j = join(parts, seq!['.', ' ']);
        assert forall|i: int| 0 <= i < j.len() implies #[trigger] j[i] != '.' by {
            assert(j[i] == parts[0][i]);
        }
    } else if parts.len() > 1 {
        let front = parts.drop_last();
        assert forall|k: int, j: int| 0 <= k < front.len() && 0 <= j < front[k].len() implies #[trigger] front[k][j]
            != '.' by {
            assert(front[k] == parts[k]);
        }
        lemma_join_dot_space(front);
        let a = join(front, seq!['.', ' ']);
        let last = parts.last();
        let all = a + seq!['.', ' '] + last;
        assert(join(parts, seq!['.', ' ']) == all);
        assert forall|i: int| 0 <= i < all.len() - 1 implies !(#[trigger] all[i] == '.' && all[i + 1]
            == '.') by {
            if i < a.len() - 1 {
                assert(all[i] == a[i] && all[i + 1] == a[i + 1]);
            } else if i == a.len() - 1 {
                assert(all[i] == a.last());
            } else if i == a.len() {
                assert(all[i + 1] == ' ');
            } else if i == a.len() + 1 {
                assert(all[i] == ' ');
            } else {
                assert(all[i] == last[i - a.len() - 2]);
                assert(parts[parts.len() - 1] == last);
            }
        }
        if last.len() > 0 {
            assert(all.last() == last.last());
            assert(parts[parts.len() - 1][last.len() - 1] == last.last());
        } else {
            assert(all.last() == ' ');
        }
    }
}

proof fn lemma_tidy_sentences_no_double_dot(s: Seq<char>)
    ensures
        no_double_dot(tidy_sentences(s)),
{
    lemma_split_pieces_dot_free(s, '.');
    let pieces = split_on(s, '.');
    let tidy = pieces.map_values(|p: Seq<char>| strip_leading_punctuation(trim(p)));
    assert forall|k: int, j: int| 0 <= k < tidy.len() && 0 <= j < tidy[k].len() implies #[trigger] tidy[k][j]
        != '.' by {
        let p = pieces[k];
        lemma_trim_start_sub(p);
        lemma_trim_end_sub(trim_start(p));
        let t = trim(p);
        let u = strip_leading_punctuation(t);
        let off = p.len() - trim_start(p).len();
        if t.len() > 0 && ascii_punctuation(t[0]) {
            assert(u[j] == t[j + 1]);
            assert(t[j + 1] == trim_start(p)[j + 1]);
            assert(p[j + 1 + off] != '.');
        } else {
            assert(u[j] == t[j]);
            assert(t[j] == trim_start(p)[j]);
            assert(p[j + off] != '.');
        }
    }
    lemma_join_dot_space(tidy);
}


// ---------------------------------------------------------------------------
// Which characters the cleaned text holds
// ---------------------------------------------------------------------------

/// An ASCII letter or digit, a space, or an ASCII punctuation character.
pub open spec fn speakable_ascii(c: char) -> bool {
    ascii_alphanumeric(c) || c == ' ' || ascii_punctuation(c)
}

/// A space, or a character that is not whitespace.
spec fn space_or_visible(c: char) -> bool {
    c == ' ' || !unicode_white_space(c)
}

/// A character that `keep_speakable` keeps.
spec fn speakable_char(c: char) -> bool {
    unicode_alphanumeric(c) || unicode_white_space(c) || ascii_punctuation(c)
}

/// Every character of `s` satisfies `f`.
spec fn all_chars(s: Seq<char>, f: spec_fn(char) -> bool) -> bool {
    forall|i: int| 0 <= i < s.len() ==> f(#[trigger] s[i])
}

proof fn lemma_join_all(parts: Seq<Seq<char>>, sep: Seq<char>, f: spec_fn(char) -> bool)
    requires
        forall|k: int| 0 <= k < parts.len() ==> all_chars(#[trigger] parts[k], f),
        all_chars(sep, f),
    ensures
        all_chars(join(parts, sep), f),
    decreases parts.len(),
{
    if parts.len() == 1 {
        assert(all_chars(parts[0], f));
    } else if parts.len() > 1 {
        let front = parts.drop_last();
        assert forall|k: int| 0 <= k < front.len() implies all_chars(#[trigger] front[k], f) by {
            assert(front[k] == parts[k]);
        }
        lemma_join_all(front, sep, f);
        let a = join(front, sep);
        let last = parts.last();
        assert(all_chars(parts[parts.len() - 1], f));
        let all = a + sep + last;
        assert(join(parts, sep) == all);
        assert forall|i: int| 0 <= i < all.len() implies f(#[trigger] all[i]) by {
            if i < a.len() {
                assert(all[i] == a[i]);
            } else if i < a.len() + sep.len() {
                assert(all[i] == sep[i - a.len()]);
            } else {
                assert(all[i] == last[i - a.len() - sep.len()]);
            }
        }
    }
}

proof fn lemma_replace_all_all(
    s: Seq<char>,
    pat: Seq<char>,
    rep: Seq<char>,
    f: spec_fn(char) -> bool,
)
    requires
        all_chars(s, f),
        all_chars(rep, f),
    ensures
        all_chars(replace_all(s, pat, rep), f),
    decreases s.len(),
{
    if s.len() > 0 {
        let r = replace_all(s, pat, rep);
        if pat.len() > 0 && starts_with(s, pat) {
            let t = s.skip(pat.len() as int);
            assert forall|i: int| 0 <= i < t.len() implies f(#[trigger] t[i]) by {
                assert(t[i] == s[i + pat.len()]);
            }
            lemma_replace_all_all(t, pat, rep, f);
            let q = replace_all(t, pat, rep);
            assert forall|i: int| 0 <= i < r.len() implies f(#[trigger] r[i]) by {
                if i < rep.len() {
                    assert(r[i] == rep[i]);
                } else {
                    assert(r[i] == q[i - rep.len()]);
                }
            }
        } else {
            let t = s.drop_first();
            assert forall|i: int| 0 <= i < t.len() implies f(#[trigger] t[i]) by {
                assert(t[i] == s[i + 1]);
            }
            lemma_replace_all_all(t, pat, rep, f);
            let q = replace_all(t, pat, rep);
            assert forall|i: int| 0 <= i < r.len() implies f(#[trigger] r[i]) by {
                if i > 0 {
                    assert(r[i] == q[i - 1]);
                }
            }
        }
    }
}

proof fn lemma_keep_speakable_all(s: Seq<char>, f: spec_fn(char) -> bool)
    requires
        all_chars(s, f),
    ensures
        forall|i: int|
            0 <= i < keep_speakable(s).len() ==> f(#[trigger] keep_speakable(s)[i])
                && speakable_char(keep_speakable(s)[i]),
    decreases s.len(),
{
    if s.len() > 0 {
        let front = s.drop_last();
        assert forall|i: int| 0 <= i < front.len() implies f(#[trigger] front[i]) by {
            assert(front[i] == s[i]);
        }
        lemma_keep_speakable_all(front, f);
        let r = keep_speakable(front);
        let q = keep_speakable(s);
        assert forall|i: int| 0 <= i < q.len() implies f(#[trigger] q[i]) && speakable_char(q[i]) by {
            if i < r.len() {
                assert(q[i] == r[i]);
            } else {
                assert(q[i] == s.last());
            }
        }
    }
}

proof fn lemma_squeeze_all(s: Seq<char>, f: spec_fn(char) -> bool)
    requires
        all_chars(s, f),
    ensures
        all_chars(squeeze_dots(s), f),
    decreases s.len(),
{
    if s.len() > 0 {
        let front = s.drop_last();
        assert forall|i: int| 0 <= i < front.len() implies f(#[trigger] front[i]) by {
            assert(front[i] == s[i]);
        }
        lemma_squeeze_all(front, f);
        let r = squeeze_dots(front);
        let q = squeeze_dots(s);
        assert forall|i: int| 0 <= i < q.len() implies f(#[trigger] q[i]) by {
            if i < r.len() {
                assert(q[i] == r[i]);
            } else {
                assert(q[i] == s.last());
            }
        }
    }
}

proof fn lemma_split_scan_all(s: Seq<char>, sep: char, f: spec_fn(char) -> bool)
    requires
        all_chars(s, f),
    ensures
        forall|k: int| 0 <= k < split_scan(s, sep).0.len() ==> all_chars(#[trigger] split_scan(s, sep).0[k], f),
        all_chars(split_scan(s, sep).1, f),
    decreases s.len(),
{
    if s.len() > 0 {
        let front = s.drop_last();
        assert forall|i: int| 0 <= i < front.len() implies f(#[trigger] front[i]) by {
            assert(front[i] == s[i]);
        }
        lemma_split_scan_all(front, sep, f);
        let prev = split_scan(front, sep);
        if s.last() == sep {
            let d = prev.0.push(prev.1);
            assert forall|k: int| 0 <= k < d.len() implies all_chars(#[trigger] d[k], f) by {
                if k < prev.0.len() {
                    assert(d[k] == prev.0[k]);
                }
            }
        } else {
            let cur = prev.1.push(s.last());
            assert forall|j: int| 0 <= j < cur.len() implies f(#[trigger] cur[j]) by {
                if j < prev.1.len() {
                    assert(cur[j] == prev.1[j]);
                }
            }
        }
    }
}

proof fn lemma_tidy_sentences_all(s: Seq<char>, f: spec_fn(char) -> bool)
    requires
        all_chars(s, f),
        f('.'),
        f(' '),
    ensures
        all_chars(tidy_sentences(s), f),
{
    lemma_split_scan_all(s, '.', f);
    let st = split_scan(s, '.');
    let pieces = split_on(s, '.');
    assert forall|k: int| 0 <= k < pieces.len() implies all_chars(#[trigger] pieces[k], f) by {
        if k < st.0.len() {
            assert(pieces[k] == st.0[k]);
        } else {
            assert(pieces[k] == st.1);
        }
    }
    let tidy = pieces.map_values(|p: Seq<char>| strip_leading_punctuation(trim(p)));
    assert forall|k: int| 0 <= k < tidy.len() implies all_chars(#[trigger] tidy[k], f) by {
        let p = pieces[k];
        assert(all_chars(p, f));
        lemma_trim_start_sub(p);
        lemma_trim_end_sub(trim_start(p));
        let t = trim(p);
        let u = strip_leading_punctuation(t);
        let off = p.len() - trim_start(p).len();
        assert(tidy[k] == u);
        assert forall|j: int| 0 <= j < u.len() implies f(#[trigger] u[j]) by {
            if t.len() > 0 && ascii_punctuation(t[0]) {
                assert(u[j] == t[j + 1]);
                assert(t[j + 1] == trim_start(p)[j + 1]);
                assert(trim_start(p)[j + 1] == p[j + 1 + off]);
            } else {
                assert(u[j] == t[j]);
                assert(t[j] == trim_start(p)[j]);
                assert(trim_start(p)[j] == p[j + off]);
            }
        }
    }
    let sep = seq!['.', ' '];
    assert(all_chars(sep, f)) by {
        assert forall|i: int| 0 <= i < sep.len() implies f(#[trigger] sep[i]) by {
            if i == 0 {
                assert(sep[i] == '.');
            } else {
                assert(sep[i] == ' ');
            }
        }
    }
    lemma_join_all(tidy, sep, f);
}

/// Single-spacing a text and removing the spaces before punctuation leaves
/// no whitespace but spaces.
proof fn lemma_tight_spacing(b: Seq<char>)
    ensures
        forall|i: int|
            0 <= i < tighten_punctuation(single_spaced(b)).len() ==> space_or_visible(
                #[trigger] tighten_punctuation(single_spaced(b))[i],
            ),
{
    let f = |c: char| space_or_visible(c);
    lemma_words_are_words(b);
    let ws = words(b);
    assert forall|k: int| 0 <= k < ws.len() implies all_chars(#[trigger] ws[k], f) by {
        assert forall|j: int| 0 <= j < ws[k].len() implies f(#[trigger] ws[k][j]) by {
            assert(!unicode_white_space(ws[k][j]));
        }
    }
    assert(all_chars(seq![' '], f)) by {
        assert forall|i: int| 0 <= i < seq![' '].len() implies f(#[trigger] seq![' '][i]) by {
            assert(seq![' '][i] == ' ');
        }
    }
    lemma_join_all(ws, seq![' '], f);
    let s0 = single_spaced(b);
    lemma_one_visible_char('.', f);
    lemma_one_visible_char(',', f);
    lemma_one_visible_char('?', f);
    lemma_one_visible_char('!', f);
    lemma_one_visible_char(':', f);
    lemma_one_visible_char(';', f);
    let a = replace_all(s0, seq![' ', '.'], seq!['.']);
    lemma_replace_all_all(s0, seq![' ', '.'], seq!['.'], f);
    let b1 = replace_all(a, seq![' ', ','], seq![',']);
    lemma_replace_all_all(a, seq![' ', ','], seq![','], f);
    let c = replace_all(b1, seq![' ', '?'], seq!['?']);
    lemma_replace_all_all(b1, seq![' ', '?'], seq!['?'], f);
    let d = replace_all(c, seq![' ', '!'], seq!['!']);
    lemma_replace_all_all(c, seq![' ', '!'], seq!['!'], f);
    let e = replace_all(d, seq![' ', ':'], seq![':']);
    lemma_replace_all_all(d, seq![' ', ':'], seq![':'], f);
    lemma_replace_all_all(e, seq![' ', ';'], seq![';'], f);
    let t = tighten_punctuation(s0);
    assert(all_chars(t, f));
    assert forall|i: int| 0 <= i < t.len() implies space_or_visible(#[trigger] t[i]) by {
        assert(f(t[i]));
    }
}

proof fn lemma_one_visible_char(x: char, f: spec_fn(char) -> bool)
    requires
        ascii_punctuation(x),
        f == (|c: char| space_or_visible(c)),
    ensures
        all_chars(seq![x], f),
{
    assert forall|i: int| 0 <= i < seq![x].len() implies f(#[trigger] seq![x][i]) by {
        assert(seq![x][i] == x);
    }
}

/// The characters left after keeping the speakable ones, tidying the
/// sentences, cutting at the first non-ASCII character and trimming trailing
/// non-alphanumeric characters, from a text whose only whitespace is spaces.
proof fn lemma_speakable_tail(c: Seq<char>)
    requires
        forall|i: int| 0 <= i < c.len() ==> space_or_visible(#[trigger] c[i]),
    ensures
        ({
            let t = trim_end_non_alnum(ascii_prefix(tidy_sentences(keep_speakable(c))));
            &&& forall|i: int| 0 <= i < t.len() ==> speakable_ascii(#[trigger] t[i])
            &&& (t.len() == 0 || ascii_alphanumeric(t.last()))
        }),
{
    let f = |ch: char| space_or_visible(ch);
    let g = |ch: char| space_or_visible(ch) && speakable_char(ch);
    assert(all_chars(c, f));
    lemma_keep_speakable_all(c, f);
    let d = keep_speakable(c);
    assert(all_chars(d, g));
    lemma_tidy_sentences_all(d, g);
    let e = tidy_sentences(d);
    lemma_ascii_prefix_props(e);
    let p = ascii_prefix(e);
    lemma_trim_end_non_alnum_props(p);
    let t = trim_end_non_alnum(p);
    assert forall|i: int| 0 <= i < t.len() implies speakable_ascii(#[trigger] t[i]) by {
        assert(t[i] == p[i]);
        assert(p[i] == e[i]);
        assert(g(e[i]));
        assert(ascii_char(p[i]));
    }
    if t.len() > 0 {
        assert(t[t.len() - 1] == p[t.len() - 1]);
        assert(ascii_char(p[t.len() - 1]));
    }
}


/// The speakable-character filter keeps, in order, exactly the characters
/// that are alphanumeric, whitespace, or ASCII punctuation: `!` to `/`, `:`
/// to `@`, `[` to `` ` `` and `{` to `~` (the apostrophe among them).
pub proof fn lemma_keep_speakable_filters(s: Seq<char>)
    ensures
        keep_speakable(s) == s.filter(
            |c: char|
                unicode_alphanumeric(c) || unicode_white_space(c) || ('!' <= c && c <= '/') || (':'
                    <= c && c <= '@') || ('[' <= c && c <= '`') || ('{' <= c && c <= '~'),
        ),
    decreases s.len(),
{
    reveal(Seq::filter);
    if s.len() > 0 {
        lemma_keep_speakable_filters(s.drop_last());
    }
}

} // verus!
