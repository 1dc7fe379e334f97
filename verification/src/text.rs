//! Text built and read character by character, and its UTF-8 bytes.

use vstd::prelude::*;
use vstd::string::StringExecFns;
use vstd::utf8::{encode_utf8, encode_utf8_decode_utf8, valid_utf8};

verus! {

/// `String::push` appends the character to the end of the text.
pub assume_specification[ String::push ](text: &mut String, ch: char)
    ensures
        final(text)@ == old(text)@.push(ch),
;

/// What `String::from_utf8_lossy` makes of a byte string.
pub uninterp spec fn lossy_chars(bytes: Seq<u8>) -> Seq<char>;

/// `String::from_utf8_lossy`: bytes that are valid UTF-8 are decoded as they are;
/// what it makes of other bytes has the name `lossy_chars`.
#[verifier::external_body]
pub(crate) fn lossy_text(bytes: &[u8]) -> (text: String)
    ensures
        text@ == lossy_chars(bytes@),
        valid_utf8(bytes@) ==> encode_utf8(text@) == bytes@,
{
    String::from_utf8_lossy(bytes).into_owned()
}

/// `std::str::from_utf8`: it succeeds exactly on valid UTF-8, and what it returns
/// has the given bytes.
#[verifier::external_body]
pub(crate) fn utf8_text(bytes: &[u8]) -> (text: Option<String>)
    ensures
        text is Some <==> valid_utf8(bytes@),
        text matches Some(t) ==> encode_utf8(t@) == bytes@,
{
    std::str::from_utf8(bytes).ok().map(str::to_owned)
}

/// The characters with the Unicode property `White_Space`.
pub open spec fn is_white_space(ch: char) -> bool {
    let c = ch as u32;
    ||| 0x09 <= c <= 0x0d
    ||| c == 0x20
    ||| c == 0x85
    ||| c == 0xa0
    ||| c == 0x1680
    ||| 0x2000 <= c <= 0x200a
    ||| c == 0x2028
    ||| c == 0x2029
    ||| c == 0x202f
    ||| c == 0x205f
    ||| c == 0x3000
}

/// `s` without the white space at its two ends.
pub open spec fn trimmed(s: Seq<char>) -> Seq<char>
    decreases s.len(),
{
    if s.len() > 0 && is_white_space(s[0]) {
        trimmed(s.skip(1))
    } else if s.len() > 0 && is_white_space(s.last()) {
        trimmed(s.drop_last())
    } else {
        s
    }
}

/// The UTF-8 bytes of a text.
pub fn text_bytes(text: &str) -> (bytes: Vec<u8>)
    ensures
        bytes@ == encode_utf8(text@),
{
    let source = text.as_bytes();
    let mut bytes: Vec<u8> = Vec::new();
    let mut i: usize = 0;
    while i < source.len()
        invariant
            i <= source@.len(),
            bytes@ == source@.take(i as int),
        decreases source@.len() - i,
    {
        bytes.push(source[i]);
        i += 1;
    }
    assert(source@.take(i as int) =~= source@);
    bytes
}

/// The characters of a text.
pub fn text_chars(text: &str) -> (chars: Vec<char>)
    ensures
        chars@ == text@,
{
    let mut chars: Vec<char> = Vec::new();
    for ch in it: text.chars()
        invariant
            it.seq() == text@,
            chars@ == text@.take(it.index()),
    {
        chars.push(ch);
    }
    assert(text@.take(text@.len() as int) =~= text@);
    chars
}

/// The text with the characters `chars[from..to]`.
pub fn chars_text(chars: &Vec<char>, from: usize, to: usize) -> (text: String)
    requires
        from <= to <= chars@.len(),
    ensures
        text@ == chars@.subrange(from as int, to as int),
{
    let mut text = String::new();
    let mut i: usize = from;
    while i < to
        invariant
            from <= i <= to <= chars@.len(),
            text@ == chars@.subrange(from as int, i as int),
        decreases to - i,
    {
        text.push(chars[i]);
        i += 1;
        assert(chars@.subrange(from as int, i as int) =~= chars@.subrange(from as int, i - 1).push(
            chars@[i - 1],
        ));
    }
    text
}

/// Two texts with the same bytes are the same text.
pub proof fn lemma_encoding_is_injective(a: Seq<char>, b: Seq<char>)
    requires
        encode_utf8(a) == encode_utf8(b),
    ensures
        a == b,
{
    encode_utf8_decode_utf8(a);
    encode_utf8_decode_utf8(b);
}

/// Whether two texts are the same.
pub fn same_text(a: &str, b: &str) -> (same: bool)
    ensures
        same == (a@ == b@),
{
    let x = a.as_bytes();
    let y = b.as_bytes();
    if x.len() != y.len() {
        return false;
    }
    let mut i: usize = 0;
    while i < x.len()
        invariant
            i <= x@.len(),
            x@.len() == y@.len(),
            x@ == encode_utf8(a@),
            y@ == encode_utf8(b@),
            forall|k: int| 0 <= k < i ==> x@[k] == y@[k],
        decreases x@.len() - i,
    {
        if x[i] != y[i] {
            return false;
        }
        i += 1;
    }
    assert(x@ =~= y@);
    proof {
        lemma_encoding_is_injective(a@, b@);
    }
    true
}

/// `s` with every backslash turned into a slash.
pub open spec fn forward_slashes(s: Seq<char>) -> Seq<char> {
    s.map_values(
        |c: char|
            if c == '\\' {
                '/'
            } else {
                c
            },
    )
}

/// The text with every backslash turned into a slash.
pub fn with_forward_slashes(text: &str) -> (out: String)
    ensures
        out@ == forward_slashes(text@),
{
    let mut out = String::new();
    for ch in it: text.chars()
        invariant
            it.seq() == text@,
            out@ == forward_slashes(text@).take(it.index()),
    {
        if ch == '\\' {
            out.push('/');
        } else {
            out.push(ch);
        }
        assert(forward_slashes(text@).take(it.index() + 1) =~= forward_slashes(text@).take(
            it.index(),
        ).push(forward_slashes(text@)[it.index()]));
    }
    assert(forward_slashes(text@).take(text@.len() as int) =~= forward_slashes(text@));
    out
}

/// Whether a text starts with the given one.
pub fn text_starts_with(text: &str, start: &str) -> (yes: bool)
    ensures
        yes == start@.is_prefix_of(text@),
{
    let x = text_chars(text);
    let y = text_chars(start);
    if x.len() < y.len() {
        return false;
    }
    let mut i: usize = 0;
    while i < y.len()
        invariant
            i <= y@.len() <= x@.len(),
            x@ == text@,
            y@ == start@,
            forall|k: int| 0 <= k < i ==> x@[k] == y@[k],
        decreases y@.len() - i,
    {
        if x[i] != y[i] {
            assert(text@.subrange(0, start@.len() as int)[i as int] != start@[i as int]);
            return false;
        }
        i += 1;
    }
    assert(x@.subrange(0, y@.len() as int) =~= y@);
    true
}

/// The two texts, one behind the other.
pub fn concat(first: &str, second: &str) -> (out: String)
    ensures
        out@ == first@ + second@,
{
    let mut out = String::new();
    out.append(first);
    out.append(second);
    out
}

/// Whether the character is white space.
pub fn is_space(ch: char) -> (yes: bool)
    ensures
        yes == is_white_space(ch),
{
    let c = ch as u32;
    (0x09 <= c && c <= 0x0d) || c == 0x20 || c == 0x85 || c == 0xa0 || c == 0x1680 || (0x2000 <= c
        && c <= 0x200a) || c == 0x2028 || c == 0x2029 || c == 0x202f || c == 0x205f || c == 0x3000
}

/// The text without the white space at its two ends.
pub fn trim(text: &str) -> (out: String)
    ensures
        out@ == trimmed(text@),
{
    let chars = text_chars(text);
    let n = chars.len();
    let mut from: usize = 0;
    assert(chars@.subrange(0, n as int) =~= chars@);
    while from < n && is_space(chars[from])
        invariant
            from <= n == chars@.len(),
            trimmed(chars@) == trimmed(chars@.subrange(from as int, n as int)),
        decreases n - from,
    {
        assert(chars@.subrange(from as int, n as int).skip(1) =~= chars@.subrange(
            from + 1,
            n as int,
        ));
        from += 1;
    }
    let mut to: usize = n;
    while from < to && is_space(chars[to - 1])
        invariant
            from <= to <= n == chars@.len(),
            from < n ==> !is_white_space(chars@[from as int]),
            trimmed(chars@) == trimmed(chars@.subrange(from as int, to as int)),
        decreases to - from,
    {
        assert(chars@.subrange(from as int, to as int).drop_last() =~= chars@.subrange(
            from as int,
            to - 1,
        ));
        to -= 1;
    }
    chars_text(&chars, from, to)
}

/// Whether there is nothing but white space before `from` and from `to` on.
pub open spec fn is_space_around(s: Seq<char>, from: int, to: int) -> bool {
    &&& 0 <= from <= to <= s.len()
    &&& forall|k: int| 0 <= k < from ==> is_white_space(#[trigger] s[k])
    &&& forall|k: int| to <= k < s.len() ==> is_white_space(#[trigger] s[k])
}

/// What is left between the white space at the two ends of a text: a part of it, that
/// neither starts nor ends with white space, with nothing but white space around it.
pub proof fn law_only_white_space_is_trimmed(s: Seq<char>)
    ensures
        exists|from: int, to: int| #[trigger]
            is_space_around(s, from, to) && trimmed(s) == s.subrange(from, to),
        trimmed(s).len() > 0 ==> !is_white_space(trimmed(s)[0]) && !is_white_space(
            trimmed(s).last(),
        ),
    decreases s.len(),
{
    if s.len() > 0 && is_white_space(s[0]) {
        let t = s.skip(1);
        law_only_white_space_is_trimmed(t);
        let (from, to) = choose|from: int, to: int| #[trigger]
            is_space_around(t, from, to) && trimmed(t) == t.subrange(from, to);
        lemma_space_in_front(s, from, to);
    } else if s.len() > 0 && is_white_space(s.last()) {
        let t = s.drop_last();
        law_only_white_space_is_trimmed(t);
        let (from, to) = choose|from: int, to: int| #[trigger]
            is_space_around(t, from, to) && trimmed(t) == t.subrange(from, to);
        lemma_space_behind(s, from, to);
    } else {
        assert(s.subrange(0, s.len() as int) =~= s);
        assert(is_space_around(s, 0, s.len() as int));
    }
}

proof fn lemma_space_in_front(s: Seq<char>, from: int, to: int)
    requires
        s.len() > 0,
        is_white_space(s[0]),
        is_space_around(s.skip(1), from, to),
    ensures
        is_space_around(s, from + 1, to + 1),
        s.skip(1).subrange(from, to) == s.subrange(from + 1, to + 1),
{
    let t = s.skip(1);
    assert forall|k: int| 0 <= k < from + 1 implies is_white_space(#[trigger] s[k]) by {
        if k > 0 {
            assert(is_white_space(t[k - 1]));
        }
    }
    assert forall|k: int| to + 1 <= k < s.len() implies is_white_space(#[trigger] s[k]) by {
        assert(is_white_space(t[k - 1]));
    }
    assert(t.subrange(from, to) =~= s.subrange(from + 1, to + 1));
}

proof fn lemma_space_behind(s: Seq<char>, from: int, to: int)
    requires
        s.len() > 0,
        is_white_space(s.last()),
        is_space_around(s.drop_last(), from, to),
    ensures
        is_space_around(s, from, to),
        s.drop_last().subrange(from, to) == s.subrange(from, to),
{
    let t = s.drop_last();
    assert forall|k: int| 0 <= k < from implies is_white_space(#[trigger] s[k]) by {
        assert(is_white_space(t[k]));
    }
    assert forall|k: int| to <= k < s.len() implies is_white_space(#[trigger] s[k]) by {
        if k < t.len() {
            assert(is_white_space(t[k]));
        }
    }
    assert(t.subrange(from, to) =~= s.subrange(from, to));
}

/// The white space of Unicode: the twenty-five characters with that property.
pub proof fn law_white_space_is_that_of_unicode(ch: char)
    ensures
        is_white_space(ch) <==> seq![
            '\u{9}',
            '\u{a}',
            '\u{b}',
            '\u{c}',
            '\u{d}',
            '\u{20}',
            '\u{85}',
            '\u{a0}',
            '\u{1680}',
            '\u{2000}',
            '\u{2001}',
            '\u{2002}',
            '\u{2003}',
            '\u{2004}',
            '\u{2005}',
            '\u{2006}',
            '\u{2007}',
            '\u{2008}',
            '\u{2009}',
            '\u{200a}',
            '\u{2028}',
            '\u{2029}',
            '\u{202f}',
            '\u{205f}',
            '\u{3000}',
        ].contains(ch),
{
    let all = seq![
        '\u{9}',
        '\u{a}',
        '\u{b}',
        '\u{c}',
        '\u{d}',
        '\u{20}',
        '\u{85}',
        '\u{a0}',
        '\u{1680}',
        '\u{2000}',
        '\u{2001}',
        '\u{2002}',
        '\u{2003}',
        '\u{2004}',
        '\u{2005}',
        '\u{2006}',
        '\u{2007}',
        '\u{2008}',
        '\u{2009}',
        '\u{200a}',
        '\u{2028}',
        '\u{2029}',
        '\u{202f}',
        '\u{205f}',
        '\u{3000}',
    ];
    let c = ch as u32;
    if 0x09 <= c <= 0x0d {
        assert(all[c - 0x09] == ch);
    } else if c == 0x20 {
        assert(all[5] == ch);
    } else if c == 0x85 {
        assert(all[6] == ch);
    } else if c == 0xa0 {
        assert(all[7] == ch);
    } else if c == 0x1680 {
        assert(all[8] == ch);
    } else if 0x2000 <= c <= 0x200a {
        assert(all[c - 0x2000 + 9] == ch);
    } else if c == 0x2028 {
        assert(all[20] == ch);
    } else if c == 0x2029 {
        assert(all[21] == ch);
    } else if c == 0x202f {
        assert(all[22] == ch);
    } else if c == 0x205f {
        assert(all[23] == ch);
    } else if c == 0x3000 {
        assert(all[24] == ch);
    }
}

/// Turning backslashes into slashes changes nothing else.
pub proof fn law_only_backslashes_are_turned(s: Seq<char>, i: int)
    requires
        0 <= i < s.len(),
    ensures
        forward_slashes(s).len() == s.len(),
        s[i] == '\\' ==> forward_slashes(s)[i] == '/',
        s[i] != '\\' ==> forward_slashes(s)[i] == s[i],
{
}

} // verus!
