//! Character-level primitives: conversion between strings and character
//! vectors, whitespace, trimming, splitting and tokens.

use vstd::prelude::*;

verus! {

/// The characters of `s`, in order.
pub fn chars_of(s: &str) -> (chars: Vec<char>)
    ensures
        chars@ == s@,
{
    let mut chars: Vec<char> = Vec::new();
    for c in it: s.chars()
        invariant
            chars@ == it.seq().take(it.index() as int),
            it.seq() == s@,
    {
        chars.push(c);
    }
    chars
}

/// Builds a string from characters. Trusted: `String::from_iter` collects the
/// characters it is given, in order, so the string's characters are those of
/// `chars`.
#[verifier::external_body]
pub(crate) fn string_of(chars: &Vec<char>) -> (s: String)
    ensures
        s@ == chars@,
{
    String::from_iter(chars.iter())
}

/// Whether `c` is white space: a character with the Unicode property
/// `White_Space`.
pub open spec fn is_space(c: char) -> bool {
    let n = c as u32;
    ||| 0x09 <= n <= 0x0D
    ||| n == 0x20
    ||| n == 0x85
    ||| n == 0xA0
    ||| n == 0x1680
    ||| 0x2000 <= n <= 0x200A
    ||| n == 0x2028
    ||| n == 0x2029
    ||| n == 0x202F
    ||| n == 0x205F
    ||| n == 0x3000
}

/// `s` without its leading white space.
pub open spec fn trim_start(s: Seq<char>) -> Seq<char>
    decreases s.len(),
{
    if s.len() > 0 && is_space(s[0]) {
        trim_start(s.drop_first())
    } else {
        s
    }
}

/// `s` without its trailing white space.
pub open spec fn trim_end(s: Seq<char>) -> Seq<char>
    decreases s.len(),
{
    if s.len() > 0 && is_space(s.last()) {
        trim_end(s.drop_last())
    } else {
        s
    }
}

/// `s` without leading and trailing white space.
pub open spec fn trim(s: Seq<char>) -> Seq<char> {
    trim_end(trim_start(s))
}

/// Whether `s` begins with `p`.
pub open spec fn has_prefix(s: Seq<char>, p: Seq<char>) -> bool {
    p.len() <= s.len() && s.take(p.len() as int) == p
}

/// `s` without the prefix `p`, where it begins with `p`; else `s`.
pub open spec fn strip_prefix(s: Seq<char>, p: Seq<char>) -> Seq<char> {
    if has_prefix(s, p) {
        s.skip(p.len() as int)
    } else {
        s
    }
}

/// `pieces` with `head` put in front of its first piece.
pub open spec fn glue(head: Seq<char>, pieces: Seq<Seq<char>>) -> Seq<Seq<char>> {
    pieces.update(0, head + pieces[0])
}

/// The pieces of `s` between the occurrences of the delimiter `d`, found from
/// left to right without overlap. There is always at least one piece; a piece
/// may be empty. With an empty delimiter `s` is its only piece.
pub open spec fn split(s: Seq<char>, d: Seq<char>) -> Seq<Seq<char>>
    decreases s.len(),
{
    if s.len() == 0 || d.len() == 0 {
        seq![s]
    } else if has_prefix(s, d) {
        seq![Seq::<char>::empty()] + split(s.skip(d.len() as int), d)
    } else {
        glue(seq![s[0]], split(s.drop_first(), d))
    }
}

/// The length of the longest prefix of `s` that holds no white space.
pub open spec fn word_len(s: Seq<char>) -> nat
    decreases s.len(),
{
    if s.len() == 0 || is_space(s[0]) {
        0
    } else {
        1 + word_len(s.drop_first())
    }
}

/// The token of `s` at position `k`, counted from 0, where the tokens of `s`
/// are its longest runs of characters that are not white space; `None` where
/// `s` has no more than `k` tokens.
pub open spec fn token_at(s: Seq<char>, k: nat) -> Option<Seq<char>>
    decreases k,
{
    let t = trim_start(s);
    if t.len() == 0 {
        None
    } else if k == 0 {
        Some(t.take(word_len(t) as int))
    } else {
        token_at(t.skip(word_len(t) as int), (k - 1) as nat)
    }
}

/// The character sequences that the vectors of `pieces` hold.
pub open spec fn piece_views(pieces: Seq<Vec<char>>) -> Seq<Seq<char>> {
    Seq::new(pieces.len(), |i: int| pieces[i]@)
}

/// The character sequences that the strings of `items` hold.
pub open spec fn string_views(items: Seq<String>) -> Seq<Seq<char>> {
    Seq::new(items.len(), |i: int| items[i]@)
}

/// Leading white space: where `s[i..j]` is white space and `s[j]` is not, or
/// `j` is the end, trimming `s[i..]` at the start leaves `s[j..]`.
pub proof fn lemma_trim_start_skip(s: Seq<char>, i: int, j: int)
    requires
        0 <= i <= j <= s.len(),
        forall|k: int| i <= k < j ==> is_space(s[k]),
        j < s.len() ==> !is_space(s[j]),
    ensures
        trim_start(s.skip(i)) == s.skip(j),
    decreases j - i,
{
    if i < j {
        assert(s.skip(i).drop_first() =~= s.skip(i + 1));
        lemma_trim_start_skip(s, i + 1, j);
    }
}

/// Trailing white space: where `s[j..]` is white space and `s[j - 1]` is not,
/// or `j` is the start, trimming `s` at the end leaves `s[..j]`.
pub proof fn lemma_trim_end_take(s: Seq<char>, j: int)
    requires
        0 <= j <= s.len(),
        forall|k: int| j <= k < s.len() ==> is_space(s[k]),
        j > 0 ==> !is_space(s[j - 1]),
    ensures
        trim_end(s) == s.take(j),
    decreases s.len() - j,
{
    if j < s.len() {
        lemma_trim_end_take(s.drop_last(), j);
    }
}

/// A word: where `s[j..e]` holds no white space and `s[e]` is white space, or
/// `e` is the end, the longest such prefix of `s[j..]` has `e - j` characters.
pub proof fn lemma_word_len_skip(s: Seq<char>, j: int, e: int)
    requires
        0 <= j <= e <= s.len(),
        forall|k: int| j <= k < e ==> !is_space(s[k]),
        e < s.len() ==> is_space(s[e]),
    ensures
        word_len(s.skip(j)) == e - j,
    decreases e - j,
{
    if j < e {
        assert(s.skip(j).drop_first() =~= s.skip(j + 1));
        lemma_word_len_skip(s, j + 1, e);
    }
}

/// A split always has a first piece.
pub proof fn lemma_split_nonempty(s: Seq<char>, d: Seq<char>)
    ensures
        split(s, d).len() >= 1,
    decreases s.len(),
{
    if s.len() == 0 || d.len() == 0 {
    } else if has_prefix(s, d) {
        lemma_split_nonempty(s.skip(d.len() as int), d);
    } else {
        lemma_split_nonempty(s.drop_first(), d);
    }
}

/// Whether `s` has white space neither at its start nor at its end.
pub open spec fn is_trimmed(s: Seq<char>) -> bool {
    s.len() > 0 ==> !is_space(s[0]) && !is_space(s.last())
}

/// Whether the character `c` occurs nowhere in `s`.
pub open spec fn free_of(s: Seq<char>, c: char) -> bool {
    forall|i: int| 0 <= i < s.len() ==> s[i] != c
}

/// Trimming a text that has no white space at its ends changes nothing.
pub proof fn lemma_trim_of_trimmed(s: Seq<char>)
    requires
        is_trimmed(s),
    ensures
        trim(s) == s,
{
    lemma_trim_start_skip(s, 0, 0);
    assert(s.skip(0) =~= s);
    lemma_trim_end_take(s, s.len() as int);
    assert(s.take(s.len() as int) =~= s);
}

/// Trimming takes away white space that was put around a trimmed text.
pub proof fn lemma_trim_of_padded(before: Seq<char>, s: Seq<char>, after: Seq<char>)
    requires
        is_trimmed(s),
        forall|i: int| 0 <= i < before.len() ==> is_space(before[i]),
        forall|i: int| 0 <= i < after.len() ==> is_space(after[i]),
    ensures
        trim(before + s + after) == s,
{
    let whole = before + s + after;
    let b = before.len() as int;
    if s.len() == 0 {
        lemma_trim_start_skip(whole, 0, whole.len() as int);
        assert(whole.skip(0) =~= whole);
        assert(whole.skip(whole.len() as int) =~= s);
        assert(trim_end(s) == s);
    } else {
        assert(whole[b] == s[0]);
        lemma_trim_start_skip(whole, 0, b);
        assert(whole.skip(0) =~= whole);
        let rest = whole.skip(b);
        assert(rest =~= s + after);
        assert(rest[s.len() - 1] == s.last());
        lemma_trim_end_take(rest, s.len() as int);
        assert(rest.take(s.len() as int) =~= s);
    }
}

/// A text in which the one character of the delimiter does not occur is its
/// own single piece.
pub proof fn lemma_split_without_delimiter(s: Seq<char>, d: Seq<char>)
    requires
        d.len() == 1,
        free_of(s, d[0]),
    ensures
        split(s, d) == seq![s],
    decreases s.len(),
{
    if s.len() > 0 {
        assert(s.take(1)[0] == s[0]);
        lemma_split_without_delimiter(s.drop_first(), d);
        assert(seq![s[0]] + s.drop_first() =~= s);
        assert(glue(seq![s[0]], seq![s.drop_first()]) =~= seq![s]);
    }
}

/// A text that holds the one character of the delimiter for the first time
/// behind `a` splits into `a` and the pieces of what follows.
pub proof fn lemma_split_at_delimiter(a: Seq<char>, b: Seq<char>, d: Seq<char>)
    requires
        d.len() == 1,
        free_of(a, d[0]),
    ensures
        split(a + d + b, d) == seq![a] + split(b, d),
    decreases a.len(),
{
    let whole = a + d + b;
    if a.len() == 0 {
        assert(whole.take(1) =~= d);
        assert(whole.skip(1) =~= b);
        assert(a =~= Seq::<char>::empty());
    } else {
        assert(whole.take(1)[0] == a[0]);
        assert(whole.drop_first() =~= a.drop_first() + d + b);
        lemma_split_at_delimiter(a.drop_first(), b, d);
        lemma_split_nonempty(b, d);
        assert(seq![a[0]] + a.drop_first() =~= a);
        assert(glue(seq![a[0]], seq![a.drop_first()] + split(b, d)) =~= seq![a] + split(b, d));
    }
}

/// Whether `c` is white space.
pub fn is_space_char(c: char) -> (b: bool)
    ensures
        b == is_space(c),
{
    let n: u32 = c as u32;
    (0x09 <= n && n <= 0x0D) || n == 0x20 || n == 0x85 || n == 0xA0 || n == 0x1680 || (0x2000
        <= n && n <= 0x200A) || n == 0x2028 || n == 0x2029 || n == 0x202F || n == 0x205F || n
        == 0x3000
}

/// The characters of `chars` from position `lo` up to, not including, `hi`.
pub(crate) fn slice_chars(chars: &Vec<char>, lo: usize, hi: usize) -> (part: Vec<char>)
    requires
        lo <= hi <= chars.len(),
    ensures
        part@ == chars@.subrange(lo as int, hi as int),
{
    let mut part: Vec<char> = Vec::new();
    let mut i: usize = lo;
    while i < hi
        invariant
            lo <= i <= hi <= chars.len(),
            part@ == chars@.subrange(lo as int, i as int),
        decreases hi - i,
    {
        part.push(chars[i]);
        i += 1;
    }
    part
}

/// `chars` without leading and trailing white space.
pub fn trim_chars(chars: &Vec<char>) -> (trimmed: Vec<char>)
    ensures
        trimmed@ == trim(chars@),
{
    let n: usize = chars.len();
    let mut lo: usize = 0;
    while lo < n && is_space_char(chars[lo])
        invariant
            lo <= n == chars.len(),
            forall|k: int| 0 <= k < lo ==> is_space(chars@[k]),
        decreases n - lo,
    {
        lo += 1;
    }
    let mut hi: usize = n;
    while hi > lo && is_space_char(chars[hi - 1])
        invariant
            lo <= hi <= n == chars.len(),
            forall|k: int| hi <= k < n ==> is_space(chars@[k]),
        decreases hi,
    {
        hi -= 1;
    }
    proof {
        let s = chars@;
        lemma_trim_start_skip(s, 0, lo as int);
        assert(s.skip(0) =~= s);
        let t = s.skip(lo as int);
        lemma_trim_end_take(t, hi - lo);
    }
    slice_chars(chars, lo, hi)
}

/// Whether the characters of `chars` from position `at` on begin with
/// `prefix`.
pub(crate) fn starts_with_at(chars: &Vec<char>, at: usize, prefix: &Vec<char>) -> (b: bool)
    requires
        at <= chars.len(),
    ensures
        b == has_prefix(chars@.skip(at as int), prefix@),
{
    let rest: usize = chars.len() - at;
    if prefix.len() > rest {
        return false;
    }
    let ghost tail = chars@.skip(at as int);
    let mut k: usize = 0;
    while k < prefix.len()
        invariant
            at <= chars.len(),
            k <= prefix.len() <= chars.len() - at,
            tail == chars@.skip(at as int),
            tail.take(k as int) == prefix@.take(k as int),
        decreases prefix.len() - k,
    {
        if chars[at + k] != prefix[k] {
            return false;
        }
        k += 1;
    }
    proof {
        assert(prefix@.take(prefix.len() as int) =~= prefix@);
    }
    true
}

/// `chars` without the prefix `prefix`, where it begins with it; else `chars`
/// as it is.
pub fn strip_prefix_chars(chars: &Vec<char>, prefix: &Vec<char>) -> (rest: Vec<char>)
    ensures
        rest@ == strip_prefix(chars@, prefix@),
{
    proof {
        assert(chars@.skip(0) =~= chars@);
    }
    if starts_with_at(chars, 0, prefix) {
        slice_chars(chars, prefix.len(), chars.len())
    } else {
        slice_chars(chars, 0, chars.len())
    }
}

/// The pieces of `chars` between the occurrences of `delimiter`.
pub fn split_chars(chars: &Vec<char>, delimiter: &Vec<char>) -> (pieces: Vec<Vec<char>>)
    ensures
        piece_views(pieces@) == split(chars@, delimiter@),
{
    let n: usize = chars.len();
    let mut pieces: Vec<Vec<char>> = Vec::new();
    if delimiter.len() == 0 {
        pieces.push(slice_chars(chars, 0, n));
        proof {
            assert(chars@.subrange(0, n as int) =~= chars@);
            assert(piece_views(pieces@) =~= seq![chars@]);
        }
        return pieces;
    }
    let mut current: Vec<char> = Vec::new();
    let mut i: usize = 0;
    proof {
        lemma_split_nonempty(chars@, delimiter@);
        assert(chars@.skip(0) =~= chars@);
    }
    while i < n
        invariant
            i <= n == chars.len(),
            delimiter.len() > 0,
            split(chars@, delimiter@) == piece_views(pieces@) + glue(
                current@,
                split(chars@.skip(i as int), delimiter@),
            ),
        decreases n - i,
    {
        let ghost rest = chars@.skip(i as int);
        let ghost head = current@;
        if starts_with_at(chars, i, delimiter) {
            proof {
                lemma_split_nonempty(rest.skip(delimiter.len() as int), delimiter@);
                assert(rest.skip(delimiter.len() as int) =~= chars@.skip(i + delimiter.len()));
            }
            pieces.push(current);
            current = Vec::new();
            i += delimiter.len();
        } else {
            let ghost after = split(rest.drop_first(), delimiter@);
            proof {
                lemma_split_nonempty(rest.drop_first(), delimiter@);
                assert(rest.drop_first() =~= chars@.skip(i + 1));
                assert(head + (seq![rest[0]] + after[0]) =~= head.push(rest[0]) + after[0]);
            }
            current.push(chars[i]);
            i += 1;
        }
    }
    pieces.push(current);
    pieces
}

/// The token of `chars` at position `k`, counted from 0; `None` where there
/// are no more than `k` tokens.
pub fn nth_token(chars: &Vec<char>, k: usize) -> (token: Option<Vec<char>>)
    ensures
        match token {
            Some(t) => token_at(chars@, k as nat) == Some(t@),
            None => token_at(chars@, k as nat) is None,
        },
{
    let n: usize = chars.len();
    let mut i: usize = 0;
    let mut left: usize = k;
    proof {
        assert(chars@.skip(0) =~= chars@);
    }
    loop
        invariant
            i <= n == chars.len(),
            token_at(chars@, k as nat) == token_at(chars@.skip(i as int), left as nat),
        decreases left,
    {
        let mut j: usize = i;
        while j < n && is_space_char(chars[j])
            invariant
                i <= j <= n == chars.len(),
                forall|m: int| i <= m < j ==> is_space(chars@[m]),
            decreases n - j,
        {
            j += 1;
        }
        proof {
            lemma_trim_start_skip(chars@, i as int, j as int);
        }
        if j == n {
            return None;
        }
        let mut e: usize = j;
        while e < n && !is_space_char(chars[e])
            invariant
                j <= e <= n == chars.len(),
                forall|m: int| j <= m < e ==> !is_space(chars@[m]),
            decreases n - e,
        {
            e += 1;
        }
        proof {
            lemma_word_len_skip(chars@, j as int, e as int);
            assert(chars@.skip(j as int).skip(e - j) =~= chars@.skip(e as int));
        }
        if left == 0 {
            return Some(slice_chars(chars, j, e));
        }
        left -= 1;
        i = e;
    }
}

/// Whether `a` and `b` hold the same characters.
pub fn same_chars(a: &Vec<char>, b: &Vec<char>) -> (same: bool)
    ensures
        same == (a@ == b@),
{
    if a.len() != b.len() {
        return false;
    }
    let mut i: usize = 0;
    while i < a.len()
        invariant
            i <= a.len() == b.len(),
            a@.take(i as int) == b@.take(i as int),
        decreases a.len() - i,
    {
        if a[i] != b[i] {
            return false;
        }
        i += 1;
    }
    proof {
        assert(a@.take(a.len() as int) =~= a@);
        assert(b@.take(b.len() as int) =~= b@);
    }
    true
}

/// Whether `chars` holds the characters of `text`.
pub fn is_text(chars: &Vec<char>, text: &str) -> (same: bool)
    ensures
        same == (chars@ == text@),
{
    let other = chars_of(text);
    same_chars(chars, &other)
}

/// `s`, with as many `fill` in front of it as it has characters fewer than
/// `width`.
pub open spec fn pad_start(s: Seq<char>, width: nat, fill: char) -> Seq<char> {
    if s.len() >= width {
        s
    } else {
        Seq::new((width - s.len()) as nat, |i: int| fill) + s
    }
}

/// `chars`, filled up at the front with `fill` to `width` characters.
pub fn pad_start_chars(chars: &Vec<char>, width: usize, fill: char) -> (padded: Vec<char>)
    ensures
        padded@ == pad_start(chars@, width as nat, fill),
{
    let mut padded: Vec<char> = Vec::new();
    let mut missing: usize = if chars.len() >= width {
        0
    } else {
        width - chars.len()
    };
    let ghost total = missing;
    while missing > 0
        invariant
            missing <= total,
            padded@ == Seq::new((total - missing) as nat, |i: int| fill),
        decreases missing,
    {
        padded.push(fill);
        missing -= 1;
    }
    padded.extend_from_slice(chars.as_slice());
    padded
}

} // verus!
