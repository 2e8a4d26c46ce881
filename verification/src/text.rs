//! Characters and numbers in text: trimming, searching, comparing, splitting,
//! and the decimal and hexadecimal notations.

use vstd::prelude::*;
use vstd::string::{StrSliceExecFns, StringExecFns};
use vstd::utf8::*;

verus! {

/// `String::push`: the character goes to the end.
pub assume_specification[ std::string::String::push ](dest: &mut String, ch: char)
    ensures
        final(dest)@ == old(dest)@.push(ch),
;

/// The plain values behind a result with bytes.
pub open spec fn to_bytes_result(r: Result<Vec<u8>, String>) -> Result<Seq<u8>, Seq<char>> {
    match r {
        Ok(bytes) => Ok(bytes@),
        Err(e) => Err(e@),
    }
}

/// The plain values behind a result with text.
pub open spec fn to_text_result(r: Result<String, String>) -> Result<Seq<char>, Seq<char>> {
    match r {
        Ok(s) => Ok(s@),
        Err(e) => Err(e@),
    }
}

/// The text behind an optional string.
pub open spec fn optional_text(s: Option<String>) -> Option<Seq<char>> {
    match s {
        Some(t) => Some(t@),
        None => None,
    }
}

/// The bytes behind an optional vector.
pub open spec fn optional_bytes(v: Option<Vec<u8>>) -> Option<Seq<u8>> {
    match v {
        Some(bytes) => Some(bytes@),
        None => None,
    }
}

/// The texts behind a list of pairs.
pub open spec fn pairs(list: Seq<(String, String)>) -> Seq<(Seq<char>, Seq<char>)> {
    list.map_values(|p: (String, String)| (p.0@, p.1@))
}

/// One text before another.
pub fn prefixed(prefix: &str, rest: &str) -> (r: String)
    ensures
        r@ == prefix@ + rest@,
{
    let mut r = prefix.to_string();
    r.append(rest);
    r
}

/// The Unicode property `White_Space`.
pub open spec fn white_space(c: char) -> bool {
    ||| '\u{9}' <= c <= '\u{d}'
    ||| c == '\u{20}'
    ||| c == '\u{85}'
    ||| c == '\u{a0}'
    ||| c == '\u{1680}'
    ||| '\u{2000}' <= c <= '\u{200a}'
    ||| c == '\u{2028}'
    ||| c == '\u{2029}'
    ||| c == '\u{202f}'
    ||| c == '\u{205f}'
    ||| c == '\u{3000}'
}

/// Whether a character has the property `White_Space`.
pub fn is_white_space(c: char) -> (r: bool)
    ensures
        r == white_space(c),
{
    ('\u{9}' <= c && c <= '\u{d}') || c == '\u{20}' || c == '\u{85}' || c == '\u{a0}' || c
        == '\u{1680}' || ('\u{2000}' <= c && c <= '\u{200a}') || c == '\u{2028}' || c == '\u{2029}'
        || c == '\u{202f}' || c == '\u{205f}' || c == '\u{3000}'
}

/// The characters that trimming takes away: white space and, where `nul` says
/// so, NUL.
pub open spec fn pads(c: char, nul: bool) -> bool {
    white_space(c) || (nul && c == '\0')
}

/// `s` without the padding at its two ends.
pub open spec fn without_pads(s: Seq<char>, nul: bool) -> Seq<char>
    decreases s.len(),
{
    if s.len() > 0 && pads(s.first(), nul) {
        without_pads(s.drop_first(), nul)
    } else if s.len() > 0 && pads(s.last(), nul) {
        without_pads(s.drop_last(), nul)
    } else {
        s
    }
}

/// `s` without the white space at its two ends.
pub open spec fn trimmed(s: Seq<char>) -> Seq<char> {
    without_pads(s, false)
}

/// What is left after trimming stands in the text as it is, at the place given, and
/// what is gone was padding.
pub proof fn lemma_without_pads_is_a_part(s: Seq<char>, nul: bool) -> (k: int)
    ensures
        0 <= k,
        k + without_pads(s, nul).len() <= s.len(),
        s.subrange(k, k + without_pads(s, nul).len()) == without_pads(s, nul),
        forall|i: int|
            0 <= i < k || k + without_pads(s, nul).len() <= i < s.len() ==> pads(
                #[trigger] s[i],
                nul,
            ),
    decreases s.len(),
{
    let t = without_pads(s, nul);
    if s.len() > 0 && pads(s.first(), nul) {
        let k = lemma_without_pads_is_a_part(s.drop_first(), nul);
        assert forall|i: int|
            0 <= i < k + 1 || k + 1 + t.len() <= i < s.len() implies pads(#[trigger] s[i], nul) by {
            if i > 0 {
                assert(s[i] == s.drop_first()[i - 1]);
            }
        }
        assert(s.subrange(k + 1, k + 1 + t.len()) =~= s.drop_first().subrange(k, k + t.len()));
        k + 1
    } else if s.len() > 0 && pads(s.last(), nul) {
        let k = lemma_without_pads_is_a_part(s.drop_last(), nul);
        assert forall|i: int|
            0 <= i < k || k + t.len() <= i < s.len() implies pads(#[trigger] s[i], nul) by {
            if i < s.len() - 1 {
                assert(s[i] == s.drop_last()[i]);
            }
        }
        assert(s.subrange(k, k + t.len()) =~= s.drop_last().subrange(k, k + t.len()));
        k
    } else {
        assert(s.subrange(0, s.len() as int) =~= s);
        0
    }
}

/// The characters of a text, one by one.
pub fn chars_of(s: &str) -> (chars: Vec<char>)
    ensures
        chars@ == s@,
{
    let mut chars: Vec<char> = Vec::new();
    for c in it: s.chars()
        invariant
            it.seq() == s@,
            chars@ == s@.take(it.index() as int),
    {
        chars.push(c);
        assert(chars@ =~= s@.take(it.index() + 1));
    }
    assert(s@.take(s@.len() as int) =~= s@);
    chars
}

/// The text made of the characters from `from` up to `to`.
pub fn text_of(chars: &Vec<char>, from: usize, to: usize) -> (text: String)
    requires
        from <= to <= chars@.len(),
    ensures
        text@ == chars@.subrange(from as int, to as int),
{
    let mut text = String::new();
    let mut i: usize = from;
    while i < to
        invariant
            from <= i <= to <= chars@.len(),
            text@ == chars@.subrange(from as int, i as int),
        decreases to - i,
    {
        text.push(chars[i]);
        i += 1;
        assert(text@ =~= chars@.subrange(from as int, i as int));
    }
    text
}

/// Where the trimmed part of a text begins and ends.
fn trim_bounds(chars: &Vec<char>, nul: bool) -> (r: (usize, usize))
    ensures
        r.0 <= r.1 <= chars@.len(),
        chars@.subrange(r.0 as int, r.1 as int) == without_pads(chars@, nul),
{
    let mut i: usize = 0;
    let mut j: usize = chars.len();
    assert(chars@.subrange(0, j as int) =~= chars@);
    while i < j && (is_white_space(chars[i]) || (nul && chars[i] == '\0'))
        invariant
            i <= j == chars@.len(),
            without_pads(chars@.subrange(i as int, j as int), nul) == without_pads(chars@, nul),
        decreases j - i,
    {
        assert(chars@.subrange(i as int, j as int).drop_first() =~= chars@.subrange(
            i + 1,
            j as int,
        ));
        i += 1;
    }
    while i < j && (is_white_space(chars[j - 1]) || (nul && chars[j - 1] == '\0'))
        invariant
            i <= j <= chars@.len(),
            i < j ==> !pads(chars@[i as int], nul),
            without_pads(chars@.subrange(i as int, j as int), nul) == without_pads(chars@, nul),
        decreases j - i,
    {
        assert(chars@.subrange(i as int, j as int).drop_last() =~= chars@.subrange(
            i as int,
            j - 1,
        ));
        j -= 1;
    }
    (i, j)
}

/// A text without the white space at its two ends.
pub fn trim(s: &str) -> (r: String)
    ensures
        r@ == trimmed(s@),
{
    let chars = chars_of(s);
    let (i, j) = trim_bounds(&chars, false);
    text_of(&chars, i, j)
}

/// A text without the white space and the NULs at its two ends.
pub fn trim_with_nul(s: &str) -> (r: String)
    ensures
        r@ == without_pads(s@, true),
{
    let chars = chars_of(s);
    let (i, j) = trim_bounds(&chars, true);
    text_of(&chars, i, j)
}

/// `i` is the first place of `c` in `s`.
pub open spec fn is_first(s: Seq<char>, c: char, i: int) -> bool {
    0 <= i < s.len() && s[i] == c && forall|k: int| 0 <= k < i ==> s[k] != c
}

/// `i` is the last place of `c` in `s`.
pub open spec fn is_last(s: Seq<char>, c: char, i: int) -> bool {
    0 <= i < s.len() && s[i] == c && forall|k: int| i < k < s.len() ==> s[k] != c
}

/// The first place of `c` in `s`, where there is one.
pub open spec fn first_place(s: Seq<char>, c: char) -> Option<int> {
    if s.contains(c) {
        Some(choose|i: int| is_first(s, c, i))
    } else {
        None
    }
}

/// The last place of `c` in `s`, where there is one.
pub open spec fn last_place(s: Seq<char>, c: char) -> Option<int> {
    if s.contains(c) {
        Some(choose|i: int| is_last(s, c, i))
    } else {
        None
    }
}

/// A place that is the first one is the one that `first_place` gives.
pub proof fn lemma_first_place(s: Seq<char>, c: char, i: int)
    requires
        is_first(s, c, i),
    ensures
        first_place(s, c) == Some(i),
{
    assert(s.contains(c));
    let k = choose|k: int| is_first(s, c, k);
    assert(is_first(s, c, k));
    assert(k == i);
}

/// A place that is the last one is the one that `last_place` gives.
pub proof fn lemma_last_place(s: Seq<char>, c: char, i: int)
    requires
        is_last(s, c, i),
    ensures
        last_place(s, c) == Some(i),
{
    assert(s.contains(c));
    let k = choose|k: int| is_last(s, c, k);
    assert(is_last(s, c, k));
    assert(k == i);
}

/// The place that `first_place` gives is the first one.
pub proof fn lemma_first_place_holds(s: Seq<char>, c: char)
    ensures
        first_place(s, c) matches Some(i) ==> is_first(s, c, i),
{
    if s.contains(c) {
        let i = lemma_first_among(s, c, s.len() as int);
        lemma_first_place(s, c, i);
    }
}

proof fn lemma_first_among(s: Seq<char>, c: char, n: int) -> (i: int)
    requires
        0 <= n <= s.len(),
        exists|k: int| 0 <= k < n && s[k] == c,
    ensures
        is_first(s, c, i),
    decreases n,
{
    if exists|k: int| 0 <= k < n - 1 && s[k] == c {
        lemma_first_among(s, c, n - 1)
    } else {
        n - 1
    }
}

/// The place that `last_place` gives is the last one.
pub proof fn lemma_last_place_holds(s: Seq<char>, c: char)
    ensures
        last_place(s, c) matches Some(i) ==> is_last(s, c, i),
{
    if s.contains(c) {
        let i = lemma_last_among(s, c, 0);
        lemma_last_place(s, c, i);
    }
}

proof fn lemma_last_among(s: Seq<char>, c: char, n: int) -> (i: int)
    requires
        0 <= n < s.len(),
        exists|k: int| n <= k < s.len() && s[k] == c,
    ensures
        is_last(s, c, i),
    decreases s.len() - n,
{
    if exists|k: int| n < k < s.len() && s[k] == c {
        lemma_last_among(s, c, n + 1)
    } else {
        n
    }
}

/// The first place of a character.
pub fn find(chars: &Vec<char>, c: char) -> (r: Option<usize>)
    ensures
        r is Some <==> first_place(chars@, c) is Some,
        r matches Some(i) ==> is_first(chars@, c, i as int) && first_place(chars@, c) == Some(
            i as int,
        ),
{
    let mut i: usize = 0;
    while i < chars.len()
        invariant
            i <= chars@.len(),
            forall|k: int| 0 <= k < i ==> chars@[k] != c,
        decreases chars.len() - i,
    {
        if chars[i] == c {
            proof {
                lemma_first_place(chars@, c, i as int);
            }
            return Some(i);
        }
        i += 1;
    }
    None
}

/// The last place of a character.
pub fn rfind(chars: &Vec<char>, c: char) -> (r: Option<usize>)
    ensures
        r is Some <==> last_place(chars@, c) is Some,
        r matches Some(i) ==> is_last(chars@, c, i as int) && last_place(chars@, c) == Some(
            i as int,
        ),
{
    let mut i: usize = chars.len();
    while i > 0
        invariant
            i <= chars@.len(),
            forall|k: int| i <= k < chars@.len() ==> chars@[k] != c,
        decreases i,
    {
        i -= 1;
        if chars[i] == c {
            proof {
                lemma_last_place(chars@, c, i as int);
            }
            return Some(i);
        }
    }
    None
}

/// `p` stands in `s` at `i`.
pub open spec fn occurs_at<A>(s: Seq<A>, p: Seq<A>, i: int) -> bool {
    0 <= i && i + p.len() <= s.len() && s.subrange(i, i + p.len()) == p
}

/// `i` is the first place where `p` stands in `s`.
pub open spec fn is_first_at<A>(s: Seq<A>, p: Seq<A>, i: int) -> bool {
    occurs_at(s, p, i) && forall|k: int| 0 <= k < i ==> !occurs_at(s, p, k)
}

/// `p` stands somewhere in `s`.
pub open spec fn occurs<A>(s: Seq<A>, p: Seq<A>) -> bool {
    exists|i: int| occurs_at(s, p, i)
}

/// The first place where `p` stands in `s`, where there is one.
pub open spec fn first_at<A>(s: Seq<A>, p: Seq<A>) -> Option<int> {
    if exists|i: int| is_first_at(s, p, i) {
        Some(choose|i: int| is_first_at(s, p, i))
    } else {
        None
    }
}

/// There is only one first place.
pub proof fn lemma_first_at<A>(s: Seq<A>, p: Seq<A>, i: int)
    requires
        is_first_at(s, p, i),
    ensures
        first_at(s, p) == Some(i),
{
    let k = choose|k: int| is_first_at(s, p, k);
    assert(is_first_at(s, p, k));
    assert(k == i);
}

/// Whether a pattern of bytes stands at a place.
fn bytes_at(s: &[u8], p: &[u8], i: usize) -> (r: bool)
    requires
        i <= s@.len(),
    ensures
        r == occurs_at(s@, p@, i as int),
{
    if s.len() - i < p.len() {
        return false;
    }
    let mut k: usize = 0;
    while k < p.len()
        invariant
            i + p@.len() <= s@.len() <= usize::MAX,
            k <= p@.len(),
            forall|j: int| 0 <= j < k ==> s@[i + j] == #[trigger] p@[j],
        decreases p.len() - k,
    {
        if s[i + k] != p[k] {
            assert(s@.subrange(i as int, i + p@.len())[k as int] != p@[k as int]);
            return false;
        }
        k += 1;
    }
    assert(s@.subrange(i as int, i + p@.len()) =~= p@);
    true
}

/// The first place of a pattern of bytes.
pub fn find_bytes(s: &[u8], p: &[u8]) -> (r: Option<usize>)
    ensures
        match r {
            Some(i) => is_first_at(s@, p@, i as int) && first_at(s@, p@) == Some(i as int),
            None => first_at(s@, p@) is None && !occurs(s@, p@),
        },
{
    let mut i: usize = 0;
    while i < s.len()
        invariant
            i <= s@.len(),
            forall|k: int| 0 <= k < i ==> !occurs_at(s@, p@, k),
        decreases s.len() - i,
    {
        if bytes_at(s, p, i) {
            proof {
                lemma_first_at(s@, p@, i as int);
            }
            return Some(i);
        }
        i += 1;
    }
    if bytes_at(s, p, i) {
        proof {
            lemma_first_at(s@, p@, i as int);
        }
        return Some(i);
    }
    None
}

/// Whether a pattern of characters stands at a place.
fn chars_at(s: &Vec<char>, p: &Vec<char>, i: usize) -> (r: bool)
    requires
        i <= s@.len(),
    ensures
        r == occurs_at(s@, p@, i as int),
{
    if s.len() - i < p.len() {
        return false;
    }
    let mut k: usize = 0;
    while k < p.len()
        invariant
            i + p@.len() <= s@.len() <= usize::MAX,
            k <= p@.len(),
            forall|j: int| 0 <= j < k ==> s@[i + j] == #[trigger] p@[j],
        decreases p.len() - k,
    {
        if s[i + k] != p[k] {
            assert(s@.subrange(i as int, i + p@.len())[k as int] != p@[k as int]);
            return false;
        }
        k += 1;
    }
    assert(s@.subrange(i as int, i + p@.len()) =~= p@);
    true
}

/// Whether one text stands somewhere in another.
pub fn contains_text(s: &str, p: &str) -> (r: bool)
    ensures
        r == occurs(s@, p@),
{
    let hay = chars_of(s);
    let needle = chars_of(p);
    let mut i: usize = 0;
    while i < hay.len()
        invariant
            hay@ == s@,
            needle@ == p@,
            i <= hay@.len(),
            forall|k: int| 0 <= k < i ==> !occurs_at(s@, p@, k),
        decreases hay.len() - i,
    {
        if chars_at(&hay, &needle, i) {
            return true;
        }
        i += 1;
    }
    chars_at(&hay, &needle, i)
}

/// Two texts have the same UTF-8 bytes only where they are the same text.
pub proof fn lemma_same_bytes(a: Seq<char>, b: Seq<char>)
    ensures
        encode_utf8(a) == encode_utf8(b) <==> a == b,
{
    encode_utf8_decode_utf8(a);
    encode_utf8_decode_utf8(b);
}

/// The same bytes once more.
pub fn copy_bytes(bytes: &[u8]) -> (r: Vec<u8>)
    ensures
        r@ == bytes@,
{
    let mut r: Vec<u8> = Vec::new();
    r.extend_from_slice(bytes);
    assert(r@ =~= bytes@);
    r
}

/// Whether two byte sequences are the same.
pub fn same_bytes(a: &[u8], b: &[u8]) -> (r: bool)
    ensures
        r == (a@ == b@),
{
    if a.len() != b.len() {
        return false;
    }
    let mut i: usize = 0;
    while i < a.len()
        invariant
            i <= a@.len() == b@.len(),
            forall|k: int| 0 <= k < i ==> a@[k] == b@[k],
        decreases a.len() - i,
    {
        if a[i] != b[i] {
            return false;
        }
        i += 1;
    }
    assert(a@ =~= b@);
    true
}

/// Whether two texts are the same.
pub fn same_text(a: &str, b: &str) -> (r: bool)
    ensures
        r == (a@ == b@),
{
    proof {
        lemma_same_bytes(a@, b@);
    }
    same_bytes(a.as_bytes(), b.as_bytes())
}

/// An ASCII capital in its small form; any other character as it is.
pub open spec fn ascii_lower(c: char) -> char {
    if 'A' <= c <= 'Z' {
        (c as u32 + 32) as char
    } else {
        c
    }
}

/// Every ASCII capital in its small form.
pub open spec fn ascii_lowered(s: Seq<char>) -> Seq<char> {
    s.map_values(|c: char| ascii_lower(c))
}

/// An ASCII capital in its small form; any other character as it is.
pub fn to_ascii_lower(c: char) -> (r: char)
    ensures
        r == ascii_lower(c),
{
    if 'A' <= c && c <= 'Z' {
        (c as u8 + 32) as char
    } else {
        c
    }
}

/// Whether two texts are the same but for the case of ASCII letters.
pub fn same_ignoring_ascii_case(a: &str, b: &str) -> (r: bool)
    ensures
        r == (ascii_lowered(a@) == ascii_lowered(b@)),
{
    let x = chars_of(a);
    let y = chars_of(b);
    if x.len() != y.len() {
        assert(ascii_lowered(a@).len() != ascii_lowered(b@).len());
        return false;
    }
    let mut i: usize = 0;
    while i < x.len()
        invariant
            x@ == a@,
            y@ == b@,
            i <= x@.len() == y@.len(),
            forall|k: int|
                0 <= k < i ==> ascii_lower(#[trigger] x@[k]) == ascii_lower(y@[k]),
        decreases x.len() - i,
    {
        if to_ascii_lower(x[i]) != to_ascii_lower(y[i]) {
            assert(ascii_lowered(a@)[i as int] != ascii_lowered(b@)[i as int]);
            return false;
        }
        i += 1;
    }
    assert(ascii_lowered(a@) =~= ascii_lowered(b@));
    true
}

/// The length of the run without white space with which `s` begins.
pub open spec fn word_len(s: Seq<char>) -> nat
    decreases s.len(),
{
    if s.len() > 0 && !white_space(s[0]) {
        1 + word_len(s.drop_first())
    } else {
        0
    }
}

/// The words of a text: its longest runs without white space, in order.
pub open spec fn words(s: Seq<char>) -> Seq<Seq<char>>
    decreases s.len(),
    via words_shrinks
{
    if s.len() == 0 {
        seq![]
    } else if white_space(s[0]) {
        words(s.drop_first())
    } else {
        seq![s.take(word_len(s) as int)] + words(s.skip(word_len(s) as int))
    }
}

proof fn lemma_word_len(s: Seq<char>)
    ensures
        word_len(s) <= s.len(),
        s.len() > 0 && !white_space(s[0]) ==> word_len(s) > 0,
    decreases s.len(),
{
    if s.len() > 0 && !white_space(s[0]) {
        lemma_word_len(s.drop_first());
    }
}

#[via_fn]
proof fn words_shrinks(s: Seq<char>) {
    lemma_word_len(s);
}

/// The texts behind a list of strings.
pub open spec fn texts(list: Seq<String>) -> Seq<Seq<char>> {
    list.map_values(|s: String| s@)
}

/// The words of a text.
pub fn split_words(s: &str) -> (r: Vec<String>)
    ensures
        texts(r@) == words(s@),
{
    let chars = chars_of(s);
    let mut list: Vec<String> = Vec::new();
    let mut i: usize = 0;
    assert(chars@.skip(0) =~= chars@);
    while i < chars.len()
        invariant
            chars@ == s@,
            i <= chars@.len(),
            words(s@) == texts(list@) + words(chars@.skip(i as int)),
        decreases chars.len() - i,
    {
        if is_white_space(chars[i]) {
            assert(chars@.skip(i as int).drop_first() =~= chars@.skip(i + 1));
            i += 1;
        } else {
            let start: usize = i;
            let ghost tail = chars@.skip(start as int);
            while i < chars.len() && !is_white_space(chars[i])
                invariant
                    start <= i <= chars@.len(),
                    tail == chars@.skip(start as int),
                    word_len(tail) == (i - start) + word_len(chars@.skip(i as int)),
                decreases chars.len() - i,
            {
                assert(chars@.skip(i as int).drop_first() =~= chars@.skip(i + 1));
                i += 1;
            }
            assert(word_len(tail) == i - start);
            let word = text_of(&chars, start, i);
            let ghost before = list@;
            list.push(word);
            proof {
                lemma_word_len(tail);
                assert(tail.take(i - start) =~= chars@.subrange(start as int, i as int));
                assert(tail.skip(i - start) =~= chars@.skip(i as int));
                assert(texts(list@) =~= texts(before) + seq![word@]);
                assert(texts(before) + (seq![word@] + words(chars@.skip(i as int))) =~= texts(
                    list@,
                ) + words(chars@.skip(i as int)));
            }
        }
    }
    assert(chars@.skip(i as int) =~= Seq::<char>::empty());
    assert(texts(list@) + Seq::<Seq<char>>::empty() =~= texts(list@));
    list
}

/// The decimal digit of a value below ten.
pub open spec fn decimal_digit(v: int) -> char {
    ('0' as int + v) as char
}

/// A number in decimal notation, without leading zeros.
pub open spec fn decimal(n: nat) -> Seq<char>
    decreases n,
{
    if n < 10 {
        seq![decimal_digit(n as int)]
    } else {
        decimal(n / 10).push(decimal_digit((n % 10) as int))
    }
}

/// A number in decimal notation.
pub fn to_decimal(n: u64) -> (r: String)
    ensures
        r@ == decimal(n as nat),
    decreases n,
{
    if n < 10 {
        let mut text = String::new();
        text.push((48 + n as u8) as char);
        assert(text@ =~= decimal(n as nat));
        text
    } else {
        let mut text = to_decimal(n / 10);
        text.push((48 + (n % 10) as u8) as char);
        text
    }
}

/// The value of a digit in a base of at most sixteen.
pub open spec fn digit_value(c: char, base: nat) -> Option<nat> {
    let v: int = if '0' <= c <= '9' {
        c as int - '0' as int
    } else if 'a' <= c <= 'f' {
        c as int - 'a' as int + 10
    } else if 'A' <= c <= 'F' {
        c as int - 'A' as int + 10
    } else {
        16
    };
    if v < base {
        Some(v as nat)
    } else {
        None
    }
}

/// The number that a run of digits stands for; nothing where one of the
/// characters is no digit.
pub open spec fn digits_value(s: Seq<char>, base: nat) -> Option<nat>
    decreases s.len(),
{
    if s.len() == 0 {
        Some(0)
    } else {
        match (digits_value(s.drop_last(), base), digit_value(s.last(), base)) {
            (Some(high), Some(low)) => Some(high * base + low),
            _ => None,
        }
    }
}

/// The number that a text stands for: an optional plus sign, then one digit or
/// more, with a value of at most `max`.
pub open spec fn number(s: Seq<char>, base: nat, max: nat) -> Option<nat> {
    let digits = if s.len() > 0 && s[0] == '+' {
        s.drop_first()
    } else {
        s
    };
    if digits.len() == 0 {
        None
    } else {
        match digits_value(digits, base) {
            Some(v) => if v <= max {
                Some(v)
            } else {
                None
            },
            None => None,
        }
    }
}

fn digit(c: char, base: u64) -> (r: Option<u64>)
    requires
        2 <= base <= 16,
    ensures
        r is Some <==> digit_value(c, base as nat) is Some,
        r matches Some(v) ==> digit_value(c, base as nat) == Some(v as nat) && v < base,
{
    let v: u64 = if '0' <= c && c <= '9' {
        c as u64 - 48
    } else if 'a' <= c && c <= 'f' {
        c as u64 - 87
    } else if 'A' <= c && c <= 'F' {
        c as u64 - 55
    } else {
        16
    };
    if v < base {
        Some(v)
    } else {
        None
    }
}

/// Once a prefix is no number, or too large a one, so is the whole.
proof fn lemma_prefix_decides(s: Seq<char>, k: int, base: nat, max: nat)
    requires
        0 <= k <= s.len(),
        base >= 2,
        digits_value(s.take(k), base) matches Some(v) ==> v > max,
    ensures
        digits_value(s, base) matches Some(v) ==> v > max,
    decreases s.len() - k,
{
    if k == s.len() {
        assert(s.take(k) =~= s);
    } else {
        assert(s.take(k + 1).drop_last() =~= s.take(k));
        assert(s.take(k + 1).last() == s[k]);
        if let Some(v) = digits_value(s.take(k), base) {
            assert(v * base >= v) by (nonlinear_arith)
                requires
                    base >= 2,
            ;
        }
        lemma_prefix_decides(s, k + 1, base, max);
    }
}

/// The number that a text stands for in the given base, if it is at most `max`.
pub fn parse_number(s: &str, base: u64, max: u64) -> (r: Option<u64>)
    requires
        2 <= base <= 16,
    ensures
        r is Some <==> number(s@, base as nat, max as nat) is Some,
        r matches Some(v) ==> number(s@, base as nat, max as nat) == Some(v as nat),
{
    let chars = chars_of(s);
    let start: usize = if chars.len() > 0 && chars[0] == '+' {
        1
    } else {
        0
    };
    let ghost digits = chars@.skip(start as int);
    proof {
        if start == 1 {
            assert(digits =~= s@.drop_first());
        } else {
            assert(digits =~= s@);
        }
    }
    if start == chars.len() {
        return None;
    }
    let mut value: u64 = 0;
    let mut i: usize = start;
    while i < chars.len()
        invariant
            start <= i <= chars@.len(),
            digits == chars@.skip(start as int),
            2 <= base <= 16,
            value <= max,
            digits_value(digits.take(i - start), base as nat) == Some(value as nat),
            digits.len() > 0,
            number(s@, base as nat, max as nat) == (match digits_value(digits, base as nat) {
                Some(v) => if v <= max {
                    Some(v)
                } else {
                    None
                },
                None => None,
            }),
        decreases chars.len() - i,
    {
        let ghost k = i - start;
        assert(digits.take(k + 1).drop_last() =~= digits.take(k));
        assert(digits.take(k + 1).last() == chars@[i as int]);
        match digit(chars[i], base) {
            None => {
                proof {
                    lemma_prefix_decides(digits, k + 1, base as nat, max as nat);
                }
                return None;
            },
            Some(d) => {
                assert(value * base <= u64::MAX * 16) by (nonlinear_arith)
                    requires
                        value <= u64::MAX,
                        base <= 16,
                ;
                let next: u128 = value as u128 * base as u128 + d as u128;
                if next > max as u128 {
                    proof {
                        lemma_prefix_decides(digits, k + 1, base as nat, max as nat);
                    }
                    return None;
                }
                value = next as u64;
            },
        }
        i += 1;
    }
    assert(digits.take(digits.len() as int) =~= digits);
    Some(value)
}

/// Trimming takes the white space off the two ends of a text, and nothing else: what
/// begins and ends with something else stays as it is, with whatever stands inside.
pub proof fn law_trimming_keeps_what_stands_inside(
    before: Seq<char>,
    core: Seq<char>,
    behind: Seq<char>,
    nul: bool,
)
    requires
        forall|i: int| 0 <= i < before.len() ==> pads(#[trigger] before[i], nul),
        forall|i: int| 0 <= i < behind.len() ==> pads(#[trigger] behind[i], nul),
        core.len() > 0 ==> !pads(core.first(), nul) && !pads(core.last(), nul),
    ensures
        without_pads(before + core + behind, nul) == core,
        !nul ==> trimmed(before + core + behind) == core,
    decreases before.len() + behind.len(),
{
    let s = before + core + behind;
    if before.len() > 0 {
        assert(pads(before[0], nul) && s.first() == before[0]);
        let less = before.drop_first();
        assert forall|i: int| 0 <= i < less.len() implies pads(#[trigger] less[i], nul) by {
            assert(less[i] == before[i + 1]);
        }
        law_trimming_keeps_what_stands_inside(less, core, behind, nul);
        assert(s.drop_first() =~= less + core + behind);
    } else if behind.len() > 0 {
        let last = behind.len() - 1;
        assert(pads(behind[last], nul) && s.last() == behind[last]);
        let less = behind.drop_last();
        assert forall|i: int| 0 <= i < less.len() implies pads(#[trigger] less[i], nul) by {
            assert(less[i] == behind[i]);
        }
        if core.len() == 0 {
            assert(s.first() == behind[0]);
            let tail = behind.drop_first();
            assert forall|i: int| 0 <= i < tail.len() implies pads(#[trigger] tail[i], nul) by {
                assert(tail[i] == behind[i + 1]);
            }
            law_trimming_keeps_what_stands_inside(before, core, tail, nul);
            assert(s.drop_first() =~= before + core + tail);
        } else {
            assert(s.first() == core.first());
            law_trimming_keeps_what_stands_inside(before, core, less, nul);
            assert(s.drop_last() =~= before + core + less);
        }
    } else {
        assert(s =~= core);
    }
}

/// Among the ASCII characters, the space and the five from the tab to the carriage
/// return are white space, and no others; NUL is taken off only where it is asked for.
pub proof fn law_ascii_white_space(c: char)
    requires
        c <= '\u{7f}',
    ensures
        pads(c, false) <==> c == ' ' || c == '\t' || c == '\n' || c == '\u{b}' || c == '\u{c}' || c
            == '\r',
        pads(c, true) <==> pads(c, false) || c == '\0',
{
}

/// A text is the words in it: one that begins with a word, behind white space, which
/// ends where the text does or where white space follows, has that word first, and
/// then the words of what follows.
pub proof fn law_first_word(before: Seq<char>, word: Seq<char>, rest: Seq<char>)
    requires
        forall|i: int| 0 <= i < before.len() ==> white_space(#[trigger] before[i]),
        word.len() > 0,
        forall|i: int| 0 <= i < word.len() ==> !white_space(#[trigger] word[i]),
        rest.len() == 0 || white_space(rest[0]),
    ensures
        words(before + word + rest) == seq![word] + words(rest),
    decreases before.len(),
{
    let s = before + word + rest;
    if before.len() > 0 {
        assert(white_space(before[0]) && s[0] == before[0]);
        let less = before.drop_first();
        assert forall|i: int| 0 <= i < less.len() implies white_space(#[trigger] less[i]) by {
            assert(less[i] == before[i + 1]);
        }
        law_first_word(less, word, rest);
        assert(s.drop_first() =~= less + word + rest);
    } else {
        assert(s =~= word + rest);
        lemma_word_len_is(word, rest);
        assert(!white_space(word[0]) && s[0] == word[0]);
        assert(s.take(word.len() as int) =~= word);
        assert(s.skip(word.len() as int) =~= rest);
    }
}

proof fn lemma_word_len_is(word: Seq<char>, rest: Seq<char>)
    requires
        forall|i: int| 0 <= i < word.len() ==> !white_space(#[trigger] word[i]),
        rest.len() == 0 || white_space(rest[0]),
    ensures
        word_len(word + rest) == word.len(),
    decreases word.len(),
{
    let s = word + rest;
    if word.len() > 0 {
        let less = word.drop_first();
        assert(!white_space(word[0]) && s[0] == word[0]);
        assert forall|i: int| 0 <= i < less.len() implies !white_space(#[trigger] less[i]) by {
            assert(less[i] == word[i + 1]);
        }
        lemma_word_len_is(less, rest);
        assert(s.drop_first() =~= less + rest);
    } else {
        assert(s =~= rest);
    }
}

/// White space alone has no words in it.
pub proof fn law_no_words(s: Seq<char>)
    requires
        forall|i: int| 0 <= i < s.len() ==> white_space(#[trigger] s[i]),
    ensures
        words(s) == Seq::<Seq<char>>::empty(),
    decreases s.len(),
{
    if s.len() > 0 {
        let less = s.drop_first();
        assert(white_space(s[0]));
        assert forall|i: int| 0 <= i < less.len() implies white_space(#[trigger] less[i]) by {
            assert(less[i] == s[i + 1]);
        }
        law_no_words(less);
    }
}

/// The first place of a character is where it stands and nowhere before; the last one
/// is where it stands and nowhere behind; there is none only where it does not stand
/// at all.
pub proof fn law_places(s: Seq<char>, c: char)
    ensures
        match first_place(s, c) {
            Some(i) => 0 <= i < s.len() && s[i] == c && (forall|k: int| 0 <= k < i ==> s[k] != c),
            None => forall|k: int| 0 <= k < s.len() ==> s[k] != c,
        },
        match last_place(s, c) {
            Some(i) => 0 <= i < s.len() && s[i] == c && (forall|k: int|
                i < k < s.len() ==> s[k] != c),
            None => forall|k: int| 0 <= k < s.len() ==> s[k] != c,
        },
{
    lemma_first_place_holds(s, c);
    lemma_last_place_holds(s, c);
    if !s.contains(c) {
        assert forall|k: int| 0 <= k < s.len() implies s[k] != c by {
            assert(s.contains(s[k]));
        }
    }
}

/// A text in small letters has the small letter for each capital of the alphabet, and
/// any other character as it is.
pub proof fn law_small_letters(s: Seq<char>, i: int)
    requires
        0 <= i < s.len(),
    ensures
        ascii_lowered(s).len() == s.len(),
        forall|k: int|
            0 <= k < 26 && s[i] == #[trigger] "ABCDEFGHIJKLMNOPQRSTUVWXYZ"@[k] ==> ascii_lowered(s)[i]
                == "abcdefghijklmnopqrstuvwxyz"@[k],
        (forall|k: int| 0 <= k < 26 ==> s[i] != #[trigger] "ABCDEFGHIJKLMNOPQRSTUVWXYZ"@[k])
            ==> ascii_lowered(s)[i] == s[i],
{
    reveal_strlit("ABCDEFGHIJKLMNOPQRSTUVWXYZ");
    reveal_strlit("abcdefghijklmnopqrstuvwxyz");
    let c = s[i];
    if 'A' <= c <= 'Z' {
        let k = c as int - 'A' as int;
        assert("ABCDEFGHIJKLMNOPQRSTUVWXYZ"@[k] == c);
    }
}

/// The decimal notation of a number reads back as the number, is made of digits, and
/// has no zero before others; what is written for ten times a number and a digit more
/// is what is written for the number and then the digit.
pub proof fn law_decimal(n: nat)
    ensures
        decimal(n).len() > 0,
        digits_value(decimal(n), 10) == Some(n),
        decimal(n).len() > 1 ==> decimal(n)[0] != '0',
        forall|i: int| 0 <= i < decimal(n).len() ==> '0' <= #[trigger] decimal(n)[i] <= '9',
        n < 10 ==> decimal(n) == seq!["0123456789"@[n as int]],
        n >= 10 ==> decimal(n) == decimal(n / 10).push("0123456789"@[(n % 10) as int]),
    decreases n,
{
    reveal_strlit("0123456789");
    let s = decimal(n);
    if n < 10 {
        assert(s.drop_last() =~= Seq::<char>::empty());
        assert(digits_value(s.drop_last(), 10) == Some(0nat));
        assert(s.last() == decimal_digit(n as int));
        assert(digit_value(s.last(), 10) == Some(n));
    } else {
        law_decimal(n / 10);
        assert(s.drop_last() =~= decimal(n / 10));
        assert(s.last() == decimal_digit((n % 10) as int));
        assert(digit_value(s.last(), 10) == Some(n % 10));
        assert(n == (n / 10) * 10 + n % 10);
        if n / 10 < 10 {
            assert(decimal(n / 10)[0] == decimal_digit((n / 10) as int));
        }
        assert(s[0] == decimal(n / 10)[0]);
    }
}

/// A digit counts for its place among the digits of the base, capital or small, and
/// nothing else is a digit.
pub proof fn law_digits(c: char, base: nat)
    requires
        2 <= base <= 16,
    ensures
        digit_value(c, base) matches Some(v) ==> v < base && (c == "0123456789abcdef"@[v as int] || c
            == "0123456789ABCDEF"@[v as int]),
        forall|v: int|
            0 <= v < base && (c == #[trigger] "0123456789abcdef"@[v] || c
                == "0123456789ABCDEF"@[v]) ==> digit_value(c, base) == Some(v as nat),
{
    reveal_strlit("0123456789abcdef");
    reveal_strlit("0123456789ABCDEF");
}

/// A number is read digit by digit, each for the base times as much as the next one
/// behind it, an optional plus sign in front; a text with anything else in it, or
/// without a digit, or for more than the limit, is no number.
pub proof fn law_number(digits: Seq<char>, c: char, base: nat, max: nat)
    requires
        2 <= base <= 16,
        digits.len() == 0 || digits[0] != '+',
        c != '+',
    ensures
        number(seq![], base, max) is None,
        number(seq!['+'], base, max) is None,
        number(seq!['+'] + digits.push(c), base, max) == number(digits.push(c), base, max),
        digit_value(c, base) is None ==> number(digits.push(c), base, max) is None,
        digits.len() == 0 ==> number(digits.push(c), base, max) == (match digit_value(c, base) {
            Some(v) => if v <= max {
                Some(v)
            } else {
                None
            },
            None => None,
        }),
        digits.len() > 0 ==> (digits_value(digits, base) matches Some(v) ==> digit_value(
            c,
            base,
        ) matches Some(d) ==> number(digits.push(c), base, max) == (if v * base + d <= max {
            Some(v * base + d)
        } else {
            None
        })),
        digits_value(digits, base) is None ==> number(digits.push(c), base, max) is None,
{
    let s = digits.push(c);
    assert(s.drop_last() =~= digits);
    assert((seq!['+'] + s).drop_first() =~= s);
    assert(seq!['+'].drop_first() =~= Seq::<char>::empty());
    assert(s[0] != '+');
    if digits.len() == 0 {
        assert(digits_value(digits, base) == Some(0nat));
    }
}

/// What is written in decimal notation is read as the number, unless it is over the
/// limit.
pub proof fn law_decimal_reads_back(n: nat, max: nat)
    ensures
        number(decimal(n), 10, max) == (if n <= max {
            Some(n)
        } else {
            None
        }),
{
    law_decimal(n);
    assert('0' <= decimal(n)[0] <= '9');
}

/// A number has one decimal notation: digits that stand for it, with no zero before
/// others, are the ones that are written.
pub proof fn law_decimal_is_unique(digits: Seq<char>, n: nat)
    requires
        digits.len() > 0,
        digits.len() > 1 ==> digits[0] != '0',
        digits_value(digits, 10) == Some(n),
    ensures
        digits == decimal(n),
    decreases digits.len(),
{
    let less = digits.drop_last();
    let high = digits_value(less, 10)->0;
    let low = digit_value(digits.last(), 10)->0;
    assert(digits_value(less, 10) is Some && digit_value(digits.last(), 10) is Some);
    assert(n == high * 10 + low && low < 10);
    assert(digits.last() == decimal_digit(low as int));
    assert(digits =~= less.push(digits.last()));
    if digits.len() == 1 {
        assert(less =~= Seq::<char>::empty());
        assert(high == 0);
        assert(digits =~= decimal(n));
    } else {
        assert(less[0] == digits[0]);
        lemma_first_digit_counts(less);
        law_decimal_is_unique(less, high);
        assert(n / 10 == high && n % 10 == low);
    }
}

proof fn lemma_first_digit_counts(digits: Seq<char>)
    requires
        digits.len() > 0,
        digits[0] != '0',
        digits_value(digits, 10) is Some,
    ensures
        digits_value(digits, 10)->0 > 0,
    decreases digits.len(),
{
    let less = digits.drop_last();
    if digits.len() > 1 {
        assert(less[0] == digits[0]);
        lemma_first_digit_counts(less);
    } else {
        assert(less =~= Seq::<char>::empty());
        assert(digits.last() == digits[0]);
    }
}

/// The decimal notation of a number is no longer than that of a larger one.
pub proof fn law_decimal_grows(n: nat, m: nat)
    requires
        n <= m,
    ensures
        decimal(n).len() <= decimal(m).len(),
    decreases m,
{
    if n >= 10 {
        law_decimal_grows(n / 10, m / 10);
    }
}

/// A pattern stands in a text where each of its elements does, one behind the other; its
/// first place is such a place with none before it; it is missing only where there is no
/// such place at all.
pub proof fn law_occurrences<A>(s: Seq<A>, p: Seq<A>, i: int)
    ensures
        occurs_at(s, p, i) <==> 0 <= i && i + p.len() <= s.len() && forall|j: int|
            0 <= j < p.len() ==> s[i + j] == #[trigger] p[j],
        occurs_at(s, p, i) ==> occurs(s, p) && first_at(s, p) is Some && first_at(s, p)->0 <= i,
        first_at(s, p) matches Some(k) ==> occurs_at(s, p, k) && forall|j: int|
            0 <= j < k ==> !occurs_at(s, p, j),
        first_at(s, p) is Some <==> occurs(s, p),
    decreases i,
{
    if occurs_at(s, p, i) {
        assert forall|j: int| 0 <= j < p.len() implies s[i + j] == #[trigger] p[j] by {
            assert(s.subrange(i, i + p.len())[j] == p[j]);
        }
        lemma_has_first(s, p, i);
    }
    if 0 <= i && i + p.len() <= s.len() && (forall|j: int|
        0 <= j < p.len() ==> s[i + j] == #[trigger] p[j]) {
        assert(s.subrange(i, i + p.len()) =~= p);
    }
    if occurs(s, p) {
        let k = choose|k: int| occurs_at(s, p, k);
        lemma_has_first(s, p, k);
    }
}

proof fn lemma_has_first<A>(s: Seq<A>, p: Seq<A>, i: int)
    requires
        occurs_at(s, p, i),
    ensures
        first_at(s, p) is Some,
        0 <= first_at(s, p)->0 <= i,
        is_first_at(s, p, first_at(s, p)->0),
    decreases i,
{
    if is_first_at(s, p, i) {
        lemma_first_at(s, p, i);
    } else {
        let k = choose|k: int| 0 <= k < i && occurs_at(s, p, k);
        lemma_has_first(s, p, k);
    }
}

/// What digits stand for is the number that is read, where it is within the limit.
pub proof fn law_digits_are_a_number(digits: Seq<char>, base: nat, v: nat, max: nat)
    requires
        digits.len() > 0,
        digits[0] != '+',
    ensures
        number(digits, base, max) == Some(v) <==> digits_value(digits, base) == Some(v) && v
            <= max,
{
}

/// Trimming a second time changes nothing, and what is left neither begins nor ends with
/// what is taken off.
pub proof fn law_trimming_is_stable(s: Seq<char>, nul: bool)
    ensures
        ({
            let t = without_pads(s, nul);
            &&& without_pads(t, nul) == t
            &&& t.len() > 0 ==> !pads(t.first(), nul) && !pads(t.last(), nul)
        }),
    decreases s.len(),
{
    if s.len() > 0 {
        if pads(s.first(), nul) {
            law_trimming_is_stable(s.drop_first(), nul);
        } else if pads(s.last(), nul) {
            law_trimming_is_stable(s.drop_last(), nul);
        }
    }
}

/// Beyond ASCII, the next-line character, the no-break space, the ogham space mark, the
/// spaces from the en quad to the hair space, the two separators, the two narrower spaces
/// and the ideographic space are white space, and no others; a NUL never is.
pub proof fn law_other_white_space(c: char)
    requires
        c > '\u{7f}',
    ensures
        white_space(c) <==> c == '\u{85}' || c == '\u{a0}' || c == '\u{1680}' || '\u{2000}' <= c
            <= '\u{200a}' || c == '\u{2028}' || c == '\u{2029}' || c == '\u{202f}' || c
            == '\u{205f}' || c == '\u{3000}',
        pads(c, true) <==> white_space(c),
        pads(c, false) <==> white_space(c),
{
}

} // verus!
