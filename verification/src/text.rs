//! Text as a sequence of characters: searching, splitting and trimming.
//!
//! The functions work on slices of `char`, so that a piece of a text is a
//! sub-slice of it. What they compute is stated over `Seq<char>`.
use vstd::prelude::*;
use vstd::utf8::decode_utf8;
use vstd::utf8::encode_utf8;
use vstd::utf8::is_ascii_chars;
use vstd::utf8::valid_utf8;

verus! {

/// `String::push` appends one character to the string.
pub assume_specification[ String::push ](s: &mut String, c: char)
    ensures
        final(s)@ == old(s)@.push(c),
;

/// What `str::to_uppercase` makes of a text.
pub uninterp spec fn upper_cased(s: Seq<char>) -> Seq<char>;

/// Whether the upper case of a text of ASCII characters is what replacing its
/// letters one by one makes of it.
pub open spec fn ascii_upper_cased(s: Seq<char>) -> bool {
    is_ascii_chars(s) ==> upper_cased(s) == s.map_values(|c: char| ascii_upper(c))
}

/// Calls `str::to_uppercase`, the upper case of a text by the Unicode rules.
/// The result is a function of the text. Of a text of ASCII characters it
/// replaces each letter from `a` to `z` by the upper case one and keeps the
/// rest; nothing more is claimed of other texts.
#[verifier::external_body]
pub(crate) fn to_upper(s: &str) -> (r: String)
    ensures
        r@ == upper_cased(s@),
        is_ascii_chars(s@) ==> r@ == s@.map_values(|c: char| ascii_upper(c)),
{
    s.to_uppercase()
}

/// What `String::from_utf8_lossy` makes of bytes.
pub uninterp spec fn utf8_lossy(bytes: Seq<u8>) -> Seq<char>;

/// Whether bytes that are valid UTF-8 keep the text that they encode.
pub open spec fn lossless_if_valid(bytes: Seq<u8>) -> bool {
    valid_utf8(bytes) ==> utf8_lossy(bytes) == decode_utf8(bytes)
}

/// Calls `String::from_utf8_lossy`, which decodes UTF-8 and puts replacement
/// characters where the bytes are no UTF-8. The result is a function of the
/// bytes, and the text that they encode where they are valid; what stands in
/// place of invalid bytes is left unsaid.
#[verifier::external_body]
pub(crate) fn lossy_text(bytes: &[u8]) -> (r: String)
    ensures
        r@ == utf8_lossy(bytes@),
        valid_utf8(bytes@) ==> r@ == decode_utf8(bytes@),
{
    String::from_utf8_lossy(bytes).into_owned()
}

/// The characters that the pieces of a text hold.
pub open spec fn pieces(list: Seq<&[char]>) -> Seq<Seq<char>> {
    list.map_values(|piece: &[char]| piece@)
}

/// The position of the first `c` in `s`, or the length of `s` when `c` does
/// not occur in it.
pub open spec fn position(s: Seq<char>, c: char) -> int
    decreases s.len(),
{
    if s.len() == 0 || s[0] == c {
        0
    } else {
        1 + position(s.drop_first(), c)
    }
}

/// What stands before the first `c` and what stands behind it.
pub open spec fn split_at_first(s: Seq<char>, c: char) -> Option<(Seq<char>, Seq<char>)> {
    let p = position(s, c);
    if p < s.len() {
        Some((s.take(p), s.skip(p + 1)))
    } else {
        None
    }
}

/// The pieces of `s` between the occurrences of `c`.
pub open spec fn split(s: Seq<char>, c: char) -> Seq<Seq<char>>
    decreases s.len(),
    via split_decreases
{
    match split_at_first(s, c) {
        None => seq![s],
        Some((head, tail)) => seq![head] + split(tail, c),
    }
}

#[via_fn]
proof fn split_decreases(s: Seq<char>, c: char) {
    lemma_position(s, c);
}

/// `s` without one carriage return at its end.
pub open spec fn without_return(s: Seq<char>) -> Seq<char> {
    if s.len() > 0 && s.last() == '\r' {
        s.drop_last()
    } else {
        s
    }
}

/// The lines of `s`. A line ends in a line feed, or a carriage return and a
/// line feed; the last line may lack its ending.
pub open spec fn lines(s: Seq<char>) -> Seq<Seq<char>>
    decreases s.len(),
    via lines_decreases
{
    if s.len() == 0 {
        seq![]
    } else {
        match split_at_first(s, '\n') {
            None => seq![s],
            Some((head, tail)) => seq![without_return(head)] + lines(tail),
        }
    }
}

#[via_fn]
proof fn lines_decreases(s: Seq<char>) {
    lemma_position(s, '\n');
}

/// Whether `c` has the Unicode property White_Space.
pub open spec fn is_white_space(c: char) -> bool {
    ||| '\u{9}' <= c <= '\u{d}'
    ||| c == ' '
    ||| c == '\u{85}'
    ||| c == '\u{a0}'
    ||| c == '\u{1680}'
    ||| '\u{2000}' <= c <= '\u{200a}'
    ||| c == '\u{2028}'
    ||| c == '\u{2029}'
    ||| c == '\u{202f}'
    ||| c == '\u{205f}'
    ||| c == '\u{3000}'
}

/// `s` without the white space at its start.
pub open spec fn trim_start(s: Seq<char>) -> Seq<char>
    decreases s.len(),
{
    if s.len() > 0 && is_white_space(s[0]) {
        trim_start(s.drop_first())
    } else {
        s
    }
}

/// `s` without the white space at its end.
pub open spec fn trim_end(s: Seq<char>) -> Seq<char>
    decreases s.len(),
{
    if s.len() > 0 && is_white_space(s.last()) {
        trim_end(s.drop_last())
    } else {
        s
    }
}

/// `s` without the white space at either end.
pub open spec fn trimmed(s: Seq<char>) -> Seq<char> {
    trim_end(trim_start(s))
}

/// `c` with an ASCII upper case letter replaced by the lower case one.
pub open spec fn ascii_lower(c: char) -> char {
    if 'A' <= c <= 'Z' {
        (c as u32 + 32) as char
    } else {
        c
    }
}

/// `c` with an ASCII lower case letter replaced by the upper case one.
pub open spec fn ascii_upper(c: char) -> char {
    if 'a' <= c <= 'z' {
        (c as u32 - 32) as char
    } else {
        c
    }
}

/// The texts of `list` with `separator` between each two of them.
pub open spec fn joined(list: Seq<Seq<char>>, separator: Seq<char>) -> Seq<char>
    decreases list.len(),
{
    if list.len() == 0 {
        seq![]
    } else if list.len() == 1 {
        list[0]
    } else {
        joined(list.drop_last(), separator) + separator + list.last()
    }
}

/// What a position is: nothing before it is `c`, and it is `c` or the end.
pub proof fn lemma_position(s: Seq<char>, c: char)
    ensures
        0 <= position(s, c) <= s.len(),
        forall|i: int| 0 <= i < position(s, c) ==> s[i] != c,
        position(s, c) < s.len() ==> s[position(s, c)] == c,
    decreases s.len(),
{
    if s.len() != 0 && s[0] != c {
        lemma_position(s.drop_first(), c);
        assert forall|i: int| 0 <= i < position(s, c) implies s[i] != c by {
            if i > 0 {
                assert(s[i] == s.drop_first()[i - 1]);
            }
        }
    }
}

/// Only one position has the properties of the first one.
pub proof fn lemma_position_is(s: Seq<char>, c: char, p: int)
    requires
        0 <= p <= s.len(),
        forall|i: int| 0 <= i < p ==> s[i] != c,
        p < s.len() ==> s[p] == c,
    ensures
        position(s, c) == p,
{
    lemma_position(s, c);
    let q = position(s, c);
    if q < p {
        assert(s[q] != c);
    }
    if p < q {
        assert(s[p] != c);
    }
}

/// A text has at least one piece, and more than one exactly when it holds the
/// separator.
pub proof fn lemma_split_len(s: Seq<char>, c: char)
    ensures
        split(s, c).len() > 0,
        split(s, c).len() > 1 <==> s.contains(c),
    decreases s.len(),
{
    lemma_position(s, c);
    match split_at_first(s, c) {
        Some((head, tail)) => {
            lemma_split_len(tail, c);
            assert(s[position(s, c)] == c);
        },
        None => {},
    }
}

/// The encoding of two texts in a row is that of the first and that of the
/// second.
pub proof fn lemma_encode_concat(a: Seq<char>, b: Seq<char>)
    ensures
        encode_utf8(a + b) == encode_utf8(a) + encode_utf8(b),
    decreases a.len(),
{
    if a.len() == 0 {
        assert(a + b == b);
    } else {
        lemma_encode_concat(a.drop_first(), b);
        assert((a + b).drop_first() == a.drop_first() + b);
    }
}

/// The characters of a string.
pub fn to_chars(s: &str) -> (r: Vec<char>)
    ensures
        r@ == s@,
{
    let mut r: Vec<char> = Vec::new();
    for c in it: s.chars()
        invariant
            it.seq() == s@,
            r@ == s@.take(it.index()),
    {
        r.push(c);
        assert(s@.take(it.index() + 1) == s@.take(it.index()).push(c));
    }
    assert(s@.take(s@.len() as int) == s@);
    r
}

/// The string that holds the characters of a slice.
pub fn to_text(chars: &[char]) -> (r: String)
    ensures
        r@ == chars@,
{
    let mut r: String = String::new();
    let n: usize = chars.len();
    let mut i: usize = 0;
    while i < n
        invariant
            i <= n,
            n == chars@.len(),
            r@ == chars@.take(i as int),
        decreases n - i,
    {
        r.push(chars[i]);
        assert(chars@.take(i + 1) == chars@.take(i as int).push(chars@[i as int]));
        i += 1;
    }
    assert(chars@.take(n as int) == chars@);
    r
}

/// Whether a slice holds exactly the characters of `literal`.
pub fn equals(chars: &[char], literal: &str) -> (r: bool)
    ensures
        r == (chars@ == literal@),
{
    let other = to_chars(literal);
    if chars.len() != other.len() {
        return false;
    }
    let n: usize = chars.len();
    let mut i: usize = 0;
    while i < n
        invariant
            i <= n,
            n == chars@.len(),
            n == other@.len(),
            other@ == literal@,
            forall|j: int| 0 <= j < i ==> chars@[j] == other@[j],
        decreases n - i,
    {
        if chars[i] != other[i] {
            assert(chars@[i as int] != other@[i as int]);
            return false;
        }
        i += 1;
    }
    assert(chars@ == other@);
    true
}

/// Whether two strings hold the same characters.
pub fn same(a: &str, b: &str) -> (r: bool)
    ensures
        r == (a@ == b@),
{
    equals(to_chars(a).as_slice(), b)
}

/// Whether a slice starts with the characters of `prefix`.
pub fn starts_with(chars: &[char], prefix: &str) -> (r: bool)
    ensures
        r == prefix@.is_prefix_of(chars@),
{
    let n: usize = to_chars(prefix).len();
    if chars.len() < n {
        return false;
    }
    let r = equals(&chars[0..n], prefix);
    assert(chars@.subrange(0, n as int) == chars@.take(n as int));
    assert(prefix@.is_prefix_of(chars@) <==> chars@.take(n as int) == prefix@);
    r
}

/// What stands before `suffix` in a slice that ends with it.
pub fn strip_suffix<'a>(chars: &'a [char], suffix: &str) -> (r: Option<&'a [char]>)
    ensures
        r is Some <==> suffix@.is_suffix_of(chars@),
        r matches Some(head) ==> head@ == chars@.take(chars@.len() - suffix@.len()),
{
    let n: usize = to_chars(suffix).len();
    let len: usize = chars.len();
    if len < n {
        return None;
    }
    let tail = &chars[len - n..len];
    let r = equals(tail, suffix);
    assert(suffix@.is_suffix_of(chars@) <==> chars@.skip(len - n) == suffix@);
    assert(chars@.skip(len - n) == tail@);
    if r {
        let head = &chars[0..len - n];
        assert(head@ == chars@.take(len - n));
        Some(head)
    } else {
        None
    }
}

/// What stands behind `prefix` in a slice that starts with it.
pub fn strip_prefix<'a>(chars: &'a [char], prefix: &str) -> (r: Option<&'a [char]>)
    ensures
        r is Some <==> prefix@.is_prefix_of(chars@),
        r matches Some(tail) ==> tail@ == chars@.skip(prefix@.len() as int),
{
    let n: usize = to_chars(prefix).len();
    if !starts_with(chars, prefix) {
        return None;
    }
    let tail = &chars[n..chars.len()];
    assert(tail@ == chars@.skip(n as int));
    Some(tail)
}

/// The position of the first `c` in a slice, or its length.
pub fn find(chars: &[char], c: char) -> (r: usize)
    ensures
        r == position(chars@, c),
        r <= chars@.len(),
{
    let n: usize = chars.len();
    let mut i: usize = 0;
    while i < n && chars[i] != c
        invariant
            i <= n,
            n == chars@.len(),
            forall|j: int| 0 <= j < i ==> chars@[j] != c,
        decreases n - i,
    {
        i += 1;
    }
    proof {
        lemma_position_is(chars@, c, i as int);
    }
    i
}

/// The two parts of a slice around the first `c`.
pub fn split_once<'a>(chars: &'a [char], c: char) -> (r: Option<(&'a [char], &'a [char])>)
    ensures
        r is Some <==> split_at_first(chars@, c) is Some,
        r matches Some((head, tail)) ==> {
            &&& split_at_first(chars@, c) == Some((head@, tail@))
            &&& head@.len() + 1 + tail@.len() == chars@.len()
        },
{
    let p: usize = find(chars, c);
    let n: usize = chars.len();
    if p < n {
        let head = &chars[0..p];
        let tail = &chars[p + 1..n];
        assert(head@ == chars@.take(p as int));
        assert(tail@ == chars@.skip(p + 1));
        Some((head, tail))
    } else {
        None
    }
}

/// The pieces of a slice between the occurrences of `c`.
pub fn split_all<'a>(chars: &'a [char], c: char) -> (r: Vec<&'a [char]>)
    ensures
        pieces(r@) == split(chars@, c),
        r@.len() > 0,
{
    let mut r: Vec<&'a [char]> = Vec::new();
    let mut rest: &'a [char] = chars;
    loop
        invariant_except_break
            pieces(r@) + split(rest@, c) == split(chars@, c),
        ensures
            pieces(r@) == split(chars@, c),
            r@.len() > 0,
        decreases rest@.len(),
    {
        let ghost before = r@;
        let ghost all = rest@;
        match split_once(rest, c) {
            Some((head, tail)) => {
                r.push(head);
                assert(pieces(r@) == pieces(before).push(head@));
                assert(pieces(before) + split(all, c) == pieces(r@) + split(tail@, c));
                rest = tail;
            },
            None => {
                r.push(rest);
                assert(pieces(r@) == pieces(before).push(rest@));
                assert(pieces(r@) == pieces(before) + seq![rest@]);
                break;
            },
        }
    }
    r
}

/// The lines of a slice.
pub fn lines_of<'a>(chars: &'a [char]) -> (r: Vec<&'a [char]>)
    ensures
        pieces(r@) == lines(chars@),
{
    let mut r: Vec<&'a [char]> = Vec::new();
    let mut rest: &'a [char] = chars;
    while rest.len() > 0
        invariant
            pieces(r@) + lines(rest@) == lines(chars@),
        decreases rest@.len(),
    {
        let ghost before = r@;
        let ghost all = rest@;
        match split_once(rest, '\n') {
            Some((head, tail)) => {
                let n: usize = head.len();
                let line = if n > 0 && head[n - 1] == '\r' {
                    &head[0..n - 1]
                } else {
                    head
                };
                assert(line@ == without_return(head@));
                r.push(line);
                assert(pieces(r@) == pieces(before).push(line@));
                assert(pieces(before) + lines(all) == pieces(r@) + lines(tail@));
                rest = tail;
            },
            None => {
                r.push(rest);
                assert(pieces(r@) == pieces(before).push(rest@));
                rest = &rest[0..0];
                assert(lines(rest@) == Seq::<Seq<char>>::empty());
                assert(pieces(before) + lines(all) == pieces(r@) + lines(rest@));
            },
        }
    }
    assert(lines(rest@) == Seq::<Seq<char>>::empty());
    r
}

fn white_space(c: char) -> (r: bool)
    ensures
        r == is_white_space(c),
{
    ('\u{9}' <= c && c <= '\u{d}') || c == ' ' || c == '\u{85}' || c == '\u{a0}' || c
        == '\u{1680}' || ('\u{2000}' <= c && c <= '\u{200a}') || c == '\u{2028}' || c
        == '\u{2029}' || c == '\u{202f}' || c == '\u{205f}' || c == '\u{3000}'
}

/// A slice without the white space at either end.
pub fn trim<'a>(chars: &'a [char]) -> (r: &'a [char])
    ensures
        r@ == trimmed(chars@),
{
    let mut rest: &'a [char] = chars;
    while rest.len() > 0 && white_space(rest[0])
        invariant
            trim_start(rest@) == trim_start(chars@),
        decreases rest@.len(),
    {
        let tail = &rest[1..rest.len()];
        assert(tail@ == rest@.drop_first());
        rest = tail;
    }
    let ghost started = rest@;
    while rest.len() > 0 && white_space(rest[rest.len() - 1])
        invariant
            trim_end(rest@) == trim_end(started),
        decreases rest@.len(),
    {
        let head = &rest[0..rest.len() - 1];
        assert(head@ == rest@.drop_last());
        rest = head;
    }
    rest
}

/// `c` with an ASCII upper case letter replaced by the lower case one.
pub fn lower(c: char) -> (r: char)
    ensures
        r == ascii_lower(c),
{
    if 'A' <= c && c <= 'Z' {
        (c as u8 + 32) as char
    } else {
        c
    }
}

/// The strings of `list` with `separator` between each two of them.
pub fn join(list: &Vec<String>, separator: &str) -> (r: String)
    ensures
        r@ == joined(list.deep_view(), separator@),
{
    let mut r: String = String::new();
    let n: usize = list.len();
    let ghost all = list.deep_view();
    let mut i: usize = 0;
    while i < n
        invariant
            i <= n,
            n == list@.len(),
            all == list.deep_view(),
            r@ == joined(all.take(i as int), separator@),
        decreases n - i,
    {
        if i > 0 {
            r.append(separator);
        }
        r.append(list[i].as_str());
        assert(all.take(i + 1).drop_last() == all.take(i as int));
        assert(all.take(i + 1).last() == list@[i as int]@);
        i += 1;
    }
    assert(all.take(n as int) == all);
    r
}

/// A text without the separator is one piece.
proof fn lemma_split_one(s: Seq<char>, c: char)
    requires
        !s.contains(c),
    ensures
        split(s, c) == seq![s],
{
    lemma_position_is(s, c, s.len() as int);
}

/// A piece without the separator, put behind a text and a separator, is one
/// piece more.
proof fn lemma_split_push(s: Seq<char>, piece: Seq<char>, c: char)
    requires
        !piece.contains(c),
    ensures
        split(s + seq![c] + piece, c) == split(s, c).push(piece),
    decreases s.len(),
{
    let all = s + seq![c] + piece;
    lemma_position(s, c);
    let p = position(s, c);
    assert forall|i: int| 0 <= i < p implies all[i] != c by {
        assert(all[i] == s[i]);
    }
    if p < s.len() {
        assert(all[p] == s[p]);
    } else {
        assert(all[p] == c);
    }
    lemma_position_is(all, c, p);
    assert(all.take(p) == s.take(p));
    if p < s.len() {
        let tail = s.skip(p + 1);
        assert(all.skip(p + 1) == tail + seq![c] + piece);
        lemma_split_push(tail, piece, c);
        assert(split(all, c) == split(s, c).push(piece));
    } else {
        assert(s.take(p) == s);
        assert(all.skip(p + 1) == piece);
        lemma_split_one(piece, c);
        assert(split(all, c) == split(s, c).push(piece));
    }
}

/// Splitting at a separator undoes joining with it, for texts that do not hold
/// it.
pub proof fn law_split_undoes_join(list: Seq<Seq<char>>, c: char)
    requires
        list.len() > 0,
        forall|i: int| 0 <= i < list.len() ==> !(#[trigger] list[i]).contains(c),
    ensures
        split(joined(list, seq![c]), c) == list,
    decreases list.len(),
{
    if list.len() == 1 {
        lemma_split_one(list[0], c);
        assert(list == seq![list[0]]);
    } else {
        let front = list.drop_last();
        assert forall|i: int| 0 <= i < front.len() implies !(#[trigger] front[i]).contains(c) by {
            assert(front[i] == list[i]);
        }
        law_split_undoes_join(front, c);
        assert(!list[list.len() - 1].contains(c));
        lemma_split_push(joined(front, seq![c]), list.last(), c);
        assert(front.push(list.last()) == list);
    }
}

/// Taking a text apart at the first separator loses nothing and misses none:
/// the two parts and the separator make up the text, and the first part does
/// not hold the separator; and a text is left whole only if it does not hold it.
pub proof fn law_split_at_first(s: Seq<char>, c: char)
    ensures
        split_at_first(s, c) matches Some((head, tail)) ==> head + seq![c] + tail == s
            && !head.contains(c),
        split_at_first(s, c) is None <==> !s.contains(c),
{
    lemma_position(s, c);
    let p = position(s, c);
    if p < s.len() {
        assert(s.take(p) + seq![c] + s.skip(p + 1) == s);
        assert forall|i: int| 0 <= i < p implies s.take(p)[i] != c by {
            assert(s[i] != c);
        }
        assert(s[p] == c);
    }
}

/// What follows the first separator is found whatever it holds.
pub proof fn law_split_at_first_finds(head: Seq<char>, tail: Seq<char>, c: char)
    requires
        !head.contains(c),
    ensures
        split_at_first(head + seq![c] + tail, c) == Some((head, tail)),
{
    let s = head + seq![c] + tail;
    let n = head.len() as int;
    assert forall|i: int| 0 <= i < n implies s[i] != c by {
        assert(s[i] == head[i]);
    }
    lemma_position_is(s, c, n);
    assert(s.take(n) == head);
    assert(s.skip(n + 1) == tail);
}

/// What is joined with a text in front.
proof fn lemma_joined_front(first: Seq<char>, rest: Seq<Seq<char>>, separator: Seq<char>)
    requires
        rest.len() > 0,
    ensures
        joined(seq![first] + rest, separator) == first + separator + joined(rest, separator),
    decreases rest.len(),
{
    let all = seq![first] + rest;
    assert(all.last() == rest.last());
    if rest.len() == 1 {
        assert(all.drop_last() == seq![first]);
        assert(joined(seq![first], separator) == first);
        assert(joined(rest, separator) == rest[0]);
    } else {
        assert(all.drop_last() == seq![first] + rest.drop_last());
        lemma_joined_front(first, rest.drop_last(), separator);
        assert(joined(all, separator) == first + separator + joined(rest, separator));
    }
}

/// Joining undoes splitting, and no piece holds the separator.
pub proof fn law_join_undoes_split(s: Seq<char>, c: char)
    ensures
        joined(split(s, c), seq![c]) == s,
        split(s, c).len() > 0,
        forall|i: int| 0 <= i < split(s, c).len() ==> !(#[trigger] split(s, c)[i]).contains(c),
    decreases s.len(),
{
    law_split_at_first(s, c);
    match split_at_first(s, c) {
        None => {},
        Some((head, tail)) => {
            law_join_undoes_split(tail, c);
            let rest = split(tail, c);
            lemma_joined_front(head, rest, seq![c]);
            assert forall|i: int| 0 <= i < split(s, c).len() implies !(
            #[trigger] split(s, c)[i]).contains(c) by {
                if i > 0 {
                    assert(split(s, c)[i] == rest[i - 1]);
                }
            }
        },
    }
}

/// The lines of a text come off its front one by one. A line feed ends a line,
/// and a carriage return before it is no part of the line.
pub proof fn law_lines(line: Seq<char>, rest: Seq<char>)
    requires
        !line.contains('\n'),
    ensures
        lines(line + seq!['\r', '\n'] + rest) == seq![line] + lines(rest),
        line.len() == 0 || line.last() != '\r' ==> lines(line + seq!['\n'] + rest) == seq![line]
            + lines(rest),
        lines(line) == if line.len() == 0 {
            Seq::<Seq<char>>::empty()
        } else {
            seq![line]
        },
{
    let returned = line.push('\r');
    assert(!returned.contains('\n')) by {
        assert forall|i: int| 0 <= i < returned.len() implies returned[i] != '\n' by {
            if i < line.len() {
                assert(returned[i] == line[i]);
            }
        }
    }
    law_split_at_first_finds(returned, rest, '\n');
    assert(returned + seq!['\n'] + rest == line + seq!['\r', '\n'] + rest);
    assert(returned.drop_last() == line);
    law_split_at_first_finds(line, rest, '\n');
    law_split_at_first(line, '\n');
}

proof fn lemma_trim_start(s: Seq<char>)
    ensures
        exists|i: int|
            #![trigger s.skip(i)]
            0 <= i <= s.len() && trim_start(s) == s.skip(i) && (forall|j: int|
                0 <= j < i ==> is_white_space(#[trigger] s[j])) && (i < s.len()
                ==> !is_white_space(s[i])),
    decreases s.len(),
{
    if s.len() > 0 && is_white_space(s[0]) {
        let rest = s.drop_first();
        lemma_trim_start(rest);
        let i = choose|i: int|
            #![trigger rest.skip(i)]
            0 <= i <= rest.len() && trim_start(rest) == rest.skip(i) && (forall|j: int|
                0 <= j < i ==> is_white_space(#[trigger] rest[j])) && (i < rest.len()
                ==> !is_white_space(rest[i]));
        assert(rest.skip(i) == s.skip(i + 1));
        assert forall|j: int| 0 <= j < i + 1 implies is_white_space(#[trigger] s[j]) by {
            if j > 0 {
                assert(s[j] == rest[j - 1]);
            }
        }
    } else {
        assert(s.skip(0) == s);
    }
}

proof fn lemma_trim_end(s: Seq<char>)
    ensures
        exists|i: int|
            #![trigger s.take(i)]
            0 <= i <= s.len() && trim_end(s) == s.take(i) && (forall|j: int|
                i <= j < s.len() ==> is_white_space(#[trigger] s[j])) && (i > 0
                ==> !is_white_space(s[i - 1])),
    decreases s.len(),
{
    if s.len() > 0 && is_white_space(s.last()) {
        let rest = s.drop_last();
        lemma_trim_end(rest);
        let i = choose|i: int|
            #![trigger rest.take(i)]
            0 <= i <= rest.len() && trim_end(rest) == rest.take(i) && (forall|j: int|
                i <= j < rest.len() ==> is_white_space(#[trigger] rest[j])) && (i > 0
                ==> !is_white_space(rest[i - 1]));
        assert(rest.take(i) == s.take(i));
        assert forall|j: int| i <= j < s.len() implies is_white_space(#[trigger] s[j]) by {
            if j < rest.len() {
                assert(s[j] == rest[j]);
            }
        }
    } else {
        assert(s.take(s.len() as int) == s);
    }
}

/// Trimming takes off all the white space at both ends of a text and nothing
/// else: what is left neither starts nor ends with white space, and white space
/// around it makes up the text.
pub proof fn law_trimmed(s: Seq<char>)
    ensures
        exists|before: Seq<char>, after: Seq<char>|
            #![trigger before + trimmed(s) + after]
            before + trimmed(s) + after == s && (forall|i: int|
                0 <= i < before.len() ==> is_white_space(#[trigger] before[i])) && (forall|i: int|
                0 <= i < after.len() ==> is_white_space(#[trigger] after[i])),
        trimmed(s).len() > 0 ==> !is_white_space(trimmed(s)[0]) && !is_white_space(
            trimmed(s).last(),
        ),
{
    lemma_trim_start(s);
    let i = choose|i: int|
        #![trigger s.skip(i)]
        0 <= i <= s.len() && trim_start(s) == s.skip(i) && (forall|j: int|
            0 <= j < i ==> is_white_space(#[trigger] s[j])) && (i < s.len() ==> !is_white_space(
            s[i],
        ));
    let rest = s.skip(i);
    lemma_trim_end(rest);
    let k = choose|k: int|
        #![trigger rest.take(k)]
        0 <= k <= rest.len() && trim_end(rest) == rest.take(k) && (forall|j: int|
            k <= j < rest.len() ==> is_white_space(#[trigger] rest[j])) && (k > 0
            ==> !is_white_space(rest[k - 1]));
    let before = s.take(i);
    let after = rest.skip(k);
    assert(before + trimmed(s) + after == s);
    assert forall|j: int| 0 <= j < after.len() implies is_white_space(#[trigger] after[j]) by {
        assert(after[j] == rest[k + j]);
    }
}

/// Of the ASCII characters, the space and those from the tab to the carriage
/// return are white space.
pub proof fn law_ascii_white_space(c: char)
    requires
        c <= '\u{7f}',
    ensures
        is_white_space(c) <==> c == ' ' || '\t' <= c <= '\r',
{
}

/// Lower case and upper case undo each other on the letters of their own case,
/// and change nothing but the letters of the other case.
pub proof fn law_ascii_case(c: char)
    ensures
        'A' <= c <= 'Z' ==> 'a' <= ascii_lower(c) <= 'z' && ascii_upper(ascii_lower(c)) == c
            && ascii_lower(c) as u32 - c as u32 == 32,
        'a' <= c <= 'z' ==> 'A' <= ascii_upper(c) <= 'Z' && ascii_lower(ascii_upper(c)) == c,
        !('A' <= c <= 'Z') ==> ascii_lower(c) == c,
        !('a' <= c <= 'z') ==> ascii_upper(c) == c,
{
}

/// White space around a text that neither starts nor ends with white space is
/// what trimming takes off.
pub proof fn law_trim_finds(left: Seq<char>, core: Seq<char>, right: Seq<char>)
    requires
        forall|i: int| 0 <= i < left.len() ==> is_white_space(#[trigger] left[i]),
        forall|i: int| 0 <= i < right.len() ==> is_white_space(#[trigger] right[i]),
        core.len() > 0,
        !is_white_space(core[0]),
        !is_white_space(core.last()),
    ensures
        trimmed(left + core + right) == core,
{
    lemma_trim_left(left, core + right);
    assert(left + core + right == left + (core + right));
    lemma_trim_right(core, right);
}

proof fn lemma_trim_left(left: Seq<char>, rest: Seq<char>)
    requires
        forall|i: int| 0 <= i < left.len() ==> is_white_space(#[trigger] left[i]),
        rest.len() > 0,
        !is_white_space(rest[0]),
    ensures
        trim_start(left + rest) == rest,
    decreases left.len(),
{
    if left.len() == 0 {
        assert(left + rest == rest);
    } else {
        let more = left.drop_first();
        assert forall|i: int| 0 <= i < more.len() implies is_white_space(#[trigger] more[i]) by {
            assert(more[i] == left[i + 1]);
        }
        lemma_trim_left(more, rest);
        assert((left + rest).drop_first() == more + rest);
        assert(is_white_space(left[0]));
    }
}

proof fn lemma_trim_right(front: Seq<char>, right: Seq<char>)
    requires
        forall|i: int| 0 <= i < right.len() ==> is_white_space(#[trigger] right[i]),
        front.len() > 0,
        !is_white_space(front.last()),
    ensures
        trim_end(front + right) == front,
    decreases right.len(),
{
    if right.len() == 0 {
        assert(front + right == front);
    } else {
        let less = right.drop_last();
        assert forall|i: int| 0 <= i < less.len() implies is_white_space(#[trigger] less[i]) by {
            assert(less[i] == right[i]);
        }
        lemma_trim_right(front, less);
        assert((front + right).drop_last() == front + less);
        assert(is_white_space(right[right.len() - 1]));
    }
}

} // verus!
