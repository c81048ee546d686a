//! Unicode text: decoding bytes, letter case, white space and lines.

use vstd::prelude::*;
use vstd::utf8::*;

use crate::text;

verus! {

/// The text that `String::from_utf8_lossy` makes of a run of bytes.
pub uninterp spec fn utf8_lossy(bytes: Seq<u8>) -> Seq<char>;

/// The text that `str::to_lowercase` makes of a text.
pub uninterp spec fn unicode_lowercase(s: Seq<char>) -> Seq<char>;

/// `String::from_utf8_lossy`: the text of `bytes`, with a replacement character
/// in place of what is not UTF-8. The result depends on the bytes alone, and of
/// valid UTF-8 it is the text that the bytes encode.
#[verifier::external_body]
pub(crate) fn decode_lossy(bytes: &[u8]) -> (s: String)
    ensures
        s@ == utf8_lossy(bytes@),
        valid_utf8(bytes@) ==> s@ == decode_utf8(bytes@),
{
    String::from_utf8_lossy(bytes).into_owned()
}

/// `str::from_utf8`: the text that `bytes` encode, if they are valid UTF-8.
#[verifier::external_body]
pub(crate) fn decode_strict(bytes: &[u8]) -> (r: Option<String>)
    ensures
        match r {
            Some(s) => valid_utf8(bytes@) && s@ == decode_utf8(bytes@),
            None => !valid_utf8(bytes@),
        },
{
    std::str::from_utf8(bytes).ok().map(str::to_owned)
}

/// `str::to_lowercase`: the Unicode lowercase form of `s`. The result depends on
/// the text alone, and of ASCII text it is that of `ascii_lower_all`.
#[verifier::external_body]
pub(crate) fn lowercase(s: &str) -> (r: String)
    ensures
        r@ == unicode_lowercase(s@),
        is_ascii_chars(s@) ==> r@ == text::ascii_lower_all(s@),
{
    s.to_lowercase()
}

/// The text of a run of bytes: the text that they encode where they are valid UTF-8, and
/// else one with a replacement character in place of what is not.
pub open spec fn decoded(bytes: Seq<u8>) -> Seq<char> {
    if valid_utf8(bytes) {
        decode_utf8(bytes)
    } else {
        utf8_lossy(bytes)
    }
}

/// The lowercase form of a text: that of ASCII letters where the text is in ASCII.
pub open spec fn lowered(s: Seq<char>) -> Seq<char> {
    if is_ascii_chars(s) {
        text::ascii_lower_all(s)
    } else {
        unicode_lowercase(s)
    }
}

/// The characters with the Unicode property `White_Space`.
pub open spec fn is_space(c: char) -> bool {
    let n = c as int;
    ||| 0x9 <= n <= 0xD
    ||| n == 0x20
    ||| n == 0x85
    ||| n == 0xA0
    ||| n == 0x1680
    ||| 0x2000 <= n <= 0x200A
    ||| n == 0x2028
    ||| n == 0x2029
    ||| n == 0x202F
    ||| n == 0x205F
    ||| n == 0x3000
}

/// Whether `c` has the Unicode property `White_Space`.
pub fn is_white_space(c: char) -> (r: bool)
    ensures
        r == is_space(c),
{
    let n: u32 = c as u32;
    (0x9 <= n && n <= 0xD) || n == 0x20 || n == 0x85 || n == 0xA0 || n == 0x1680 || (0x2000 <= n && n
        <= 0x200A) || n == 0x2028 || n == 0x2029 || n == 0x202F || n == 0x205F || n == 0x3000
}

/// `s` without the white space at its start.
pub open spec fn trim_start(s: Seq<char>) -> Seq<char>
    decreases s.len(),
{
    if s.len() > 0 && is_space(s[0]) {
        trim_start(s.skip(1))
    } else {
        s
    }
}

/// `s` without the white space at its end.
pub open spec fn trim_end(s: Seq<char>) -> Seq<char>
    decreases s.len(),
{
    if s.len() > 0 && is_space(s.last()) {
        trim_end(s.drop_last())
    } else {
        s
    }
}

/// `s` without the white space at its start and at its end.
pub open spec fn trim(s: Seq<char>) -> Seq<char> {
    trim_end(trim_start(s))
}

/// The index of the first character of `s` that is not white space.
pub fn space_prefix(s: &[char]) -> (n: usize)
    ensures
        n <= s@.len(),
        s@.skip(n as int) == trim_start(s@),
{
    let mut i: usize = 0;
    proof {
        assert(s@.skip(0) =~= s@);
    }
    while i < s.len() && is_white_space(s[i])
        invariant
            i <= s@.len(),
            trim_start(s@) == trim_start(s@.skip(i as int)),
        decreases s@.len() - i,
    {
        proof {
            assert(s@.skip(i as int).skip(1) =~= s@.skip(i + 1));
        }
        i = i + 1;
    }
    i
}

/// The characters of `s` without the white space at its start and at its end.
pub fn trim_chars(s: &[char]) -> (t: Vec<char>)
    ensures
        t@ == trim(s@),
{
    let from: usize = space_prefix(s);
    let ghost body = s@.skip(from as int);
    let mut to: usize = s.len();
    proof {
        assert(s@.subrange(from as int, to as int) =~= body);
    }
    while to > from && is_white_space(s[to - 1])
        invariant
            from <= to <= s@.len(),
            body == s@.skip(from as int),
            trim_end(body) == trim_end(s@.subrange(from as int, to as int)),
        decreases to,
    {
        proof {
            assert(s@.subrange(from as int, to as int).drop_last() =~= s@.subrange(
                from as int,
                to - 1,
            ));
        }
        to = to - 1;
    }
    text::copy_range(s, from, to)
}

/// `line` without the carriage return at its end, if it ends in one.
pub open spec fn without_cr(line: Seq<char>) -> Seq<char> {
    if line.len() > 0 && line.last() == '\r' {
        line.drop_last()
    } else {
        line
    }
}

/// The lines of `s`: each ends at a line feed, which a carriage return may
/// precede, and neither is part of the line. What follows the last line feed is a
/// line if it is not empty.
pub open spec fn lines(s: Seq<char>) -> Seq<Seq<char>>
    decreases s.len(),
{
    if s.len() == 0 {
        Seq::empty()
    } else {
        match text::first_index(s, '\n', 0) {
            Some(i) => if 0 <= i < s.len() {
                seq![without_cr(s.take(i))] + lines(s.skip(i + 1))
            } else {
                seq![s]
            },
            None => seq![s],
        }
    }
}

proof fn lemma_first_index_in_skip(s: Seq<char>, c: char, from: int)
    requires
        0 <= from <= s.len(),
    ensures
        match text::first_index(s, c, from) {
            Some(i) => text::first_index(s.skip(from), c, 0) == Some(i - from),
            None => text::first_index(s.skip(from), c, 0) is None,
        },
{
    let t = s.skip(from);
    text::lemma_first_index(s, c, from);
    text::lemma_first_index(t, c, 0);
    if let Some(i) = text::first_index(s, c, from) {
        assert(t[i - from] == c);
        if let Some(k) = text::first_index(t, c, 0) {
            assert(s[from + k] == c);
        }
    } else {
        if let Some(k) = text::first_index(t, c, 0) {
            assert(s[from + k] == c);
        }
    }
}

/// The lines of `s`.
pub fn lines_of(s: &[char]) -> (parts: Vec<Vec<char>>)
    ensures
        text::views(parts@) == lines(s@),
{
    let n: usize = s.len();
    let mut parts: Vec<Vec<char>> = Vec::new();
    let mut pos: usize = 0;
    proof {
        assert(s@.skip(0) =~= s@);
        assert(text::views(parts@) + lines(s@) =~= lines(s@));
    }
    while pos < n
        invariant
            n == s@.len(),
            pos <= n,
            lines(s@) == text::views(parts@) + lines(s@.skip(pos as int)),
        decreases n - pos,
    {
        let ghost rest = s@.skip(pos as int);
        let ghost before = parts@;
        let hit = text::index_of_char(s, '\n', pos);
        proof {
            text::lemma_first_index(s@, '\n', pos as int);
            lemma_first_index_in_skip(s@, '\n', pos as int);
        }
        match hit {
            Some(i) => {
                let to: usize = if i > pos && s[i - 1] == '\r' {
                    i - 1
                } else {
                    i
                };
                let piece = text::copy_range(s, pos, to);
                parts.push(piece);
                proof {
                    assert(rest.take(i - pos) =~= s@.subrange(pos as int, i as int));
                    assert(piece@ =~= without_cr(rest.take(i - pos)));
                    assert(rest.skip(i - pos + 1) =~= s@.skip(i + 1));
                    assert(text::views(parts@) =~= text::views(before) + seq![piece@]);
                    assert(text::views(before) + (seq![piece@] + lines(s@.skip(i + 1))) =~= text::views(parts@)
                        + lines(s@.skip(i + 1)));
                }
                pos = i + 1;
            },
            None => {
                let piece = text::copy_range(s, pos, n);
                parts.push(piece);
                proof {
                    assert(rest =~= piece@);
                    assert(s@.skip(n as int).len() == 0);
                    assert(text::views(parts@) =~= text::views(before) + seq![rest]);
                    assert(text::views(parts@) + lines(s@.skip(n as int)) =~= text::views(parts@));
                }
                pos = n;
            },
        }
    }
    proof {
        assert(s@.skip(pos as int).len() == 0);
        assert(text::views(parts@) + lines(s@.skip(pos as int)) =~= text::views(parts@));
    }
    parts
}

// ---------------------------------------------------------------------------
// Laws
// ---------------------------------------------------------------------------

proof fn lemma_trim_start(s: Seq<char>)
    ensures
        trim_start(s).len() <= s.len(),
        s.skip(s.len() - trim_start(s).len()) == trim_start(s),
        forall|k: int| 0 <= k < s.len() - trim_start(s).len() ==> is_space(#[trigger] s[k]),
        trim_start(s).len() > 0 ==> !is_space(trim_start(s)[0]),
    decreases s.len(),
{
    if s.len() > 0 && is_space(s[0]) {
        let t = s.skip(1);
        lemma_trim_start(t);
        let n = s.len() - trim_start(s).len();
        assert(t.skip(n - 1) =~= s.skip(n));
        assert forall|k: int| 0 <= k < n implies is_space(#[trigger] s[k]) by {
            if k > 0 {
                assert(t[k - 1] == s[k]);
            }
        }
    } else {
        assert(s.skip(0) =~= s);
    }
}

proof fn lemma_trim_end(s: Seq<char>)
    ensures
        trim_end(s).len() <= s.len(),
        s.take(trim_end(s).len() as int) == trim_end(s),
        forall|k: int| trim_end(s).len() <= k < s.len() ==> is_space(#[trigger] s[k]),
        trim_end(s).len() > 0 ==> !is_space(trim_end(s).last()),
    decreases s.len(),
{
    if s.len() > 0 && is_space(s.last()) {
        let t = s.drop_last();
        lemma_trim_end(t);
        let n = trim_end(s).len() as int;
        assert(t.take(n) =~= s.take(n));
        assert forall|k: int| n <= k < s.len() implies is_space(#[trigger] s[k]) by {
            if k < t.len() {
                assert(t[k] == s[k]);
            }
        }
    } else {
        assert(s.take(s.len() as int) =~= s);
    }
}

/// What trimming takes away is white space at the two ends, and all of it: what is left
/// stands in the text as it was, and neither begins nor ends with white space.
pub proof fn law_trim_takes_outer_space(s: Seq<char>)
    ensures
        exists|i: int, j: int|
            0 <= i <= j <= s.len() && trim(s) == #[trigger] s.subrange(i, j) && (forall|k: int|
                (0 <= k < i || j <= k < s.len()) ==> is_space(#[trigger] s[k])),
        trim(s).len() > 0 ==> !is_space(trim(s)[0]) && !is_space(trim(s).last()),
{
    let a = trim_start(s);
    lemma_trim_start(s);
    lemma_trim_end(a);
    let i = s.len() - a.len();
    let j = i + trim(s).len();
    assert(s.subrange(i, j) =~= a.take(trim(s).len() as int));
    assert forall|k: int| (0 <= k < i || j <= k < s.len()) implies is_space(#[trigger] s[k]) by {
        if j <= k {
            assert(a[k - i] == s[k]);
        }
    }
}

/// A text that neither begins nor ends with white space is trimmed already, and white space
/// around it makes no difference.
pub proof fn law_trim_ignores_outer_space(before: Seq<char>, s: Seq<char>, after: Seq<char>)
    requires
        forall|k: int| 0 <= k < before.len() ==> is_space(#[trigger] before[k]),
        forall|k: int| 0 <= k < after.len() ==> is_space(#[trigger] after[k]),
        s.len() > 0 ==> !is_space(s[0]) && !is_space(s.last()),
    ensures
        trim(before + s + after) == s,
{
    let t = before + s + after;
    let a = trim_start(t);
    lemma_trim_start(t);
    lemma_trim_end(a);
    let n = t.len() - a.len();
    if s.len() == 0 {
        if a.len() > 0 {
            assert(a[0] == t[n]);
            if n < before.len() {
                assert(t[n] == before[n]);
            } else {
                assert(t[n] == after[n - before.len()]);
            }
        }
        assert(trim(t) =~= s);
    } else {
        let b = before.len() as int;
        assert(t[b] == s[0]);
        if n > b {
            assert(is_space(t[b]));
        }
        if n < b {
            assert(a[0] == t[n]);
            assert(t[n] == before[n]);
        }
        assert(n == b);
        assert(a =~= s + after);
        let m = trim(t).len() as int;
        if m < s.len() {
            assert(is_space(a[s.len() - 1]));
            assert(a[s.len() - 1] == s.last());
        }
        if m > s.len() {
            assert(trim(t).last() == a[m - 1]);
            assert(a[m - 1] == after[m - 1 - s.len()]);
        }
        assert(trim(t) =~= s);
    }
}

/// Of the characters of ASCII, the space and the five controls from the tabulator to the
/// carriage return are white space.
pub proof fn law_ascii_white_space(c: char)
    requires
        (c as int) < 0x80,
    ensures
        is_space(c) <==> c == ' ' || c == '\t' || c == '\n' || c == '\r' || c as int == 11 || c as int
            == 12,
{
}

/// The lowercase form of ASCII text has its length, and a letter in it is the letter that
/// was there, in its small form.
pub proof fn law_lowered_ascii(s: Seq<char>)
    requires
        is_ascii_chars(s),
    ensures
        lowered(s).len() == s.len(),
        forall|i: int|
            0 <= i < s.len() ==> #[trigger] lowered(s)[i] == (if 'A' <= s[i] && s[i] <= 'Z' {
                (s[i] as int + 32) as char
            } else {
                s[i]
            }),
        text::same_ignoring_ascii_case(lowered(s), s),
{
    let l = lowered(s);
    assert forall|i: int| 0 <= i < s.len() implies text::ascii_lower(#[trigger] l[i])
        == text::ascii_lower(s[i]) by {}
    assert(text::ascii_lower_all(l) =~= text::ascii_lower_all(s));
}

proof fn lemma_one_line(s: Seq<char>)
    requires
        !s.contains('\n'),
        s.len() > 0,
    ensures
        lines(s) == seq![s],
{
    text::lemma_first_index(s, '\n', 0);
    if let Some(i) = text::first_index(s, '\n', 0) {
        assert(s.contains(s[i]));
    }
}

/// A line that is put before others, with a line break after it, is the first of the lines:
/// the others follow as they were. A line feed alone, or after a carriage return, is a line
/// break.
pub proof fn law_first_line_comes_first(line: Seq<char>, rest: Seq<char>)
    requires
        !line.contains('\n'),
        line.len() > 0 ==> line.last() != '\r',
    ensures
        lines(line + text::crlf() + rest) == seq![line] + lines(rest),
        lines(line + seq!['\n'] + rest) == seq![line] + lines(rest),
        line.len() > 0 ==> lines(line) == seq![line],
{
    if line.len() > 0 {
        lemma_one_line(line);
    }
    let n = line.len() as int;
    let s = line + text::crlf() + rest;
    text::lemma_first_index(s, '\n', 0);
    assert(s[n + 1] == text::crlf()[1]);
    assert forall|j: int| 0 <= j < n + 1 implies s[j] != '\n' by {
        if j < n {
            assert(s[j] == line[j]);
            assert(line.contains(line[j]));
        } else {
            assert(s[j] == text::crlf()[0]);
        }
    }
    assert(text::first_index(s, '\n', 0) == Some(n + 1));
    assert(s.take(n + 1).last() == text::crlf()[0]);
    assert(s.take(n + 1).drop_last() =~= line);
    assert(s.skip(n + 2) =~= rest);
    let t = line + seq!['\n'] + rest;
    text::lemma_first_index(t, '\n', 0);
    assert(t[n] == '\n');
    assert forall|j: int| 0 <= j < n implies t[j] != '\n' by {
        assert(t[j] == line[j]);
        assert(line.contains(line[j]));
    }
    assert(text::first_index(t, '\n', 0) == Some(n));
    assert(t.take(n) =~= line);
    assert(t.skip(n + 1) =~= rest);
}

/// A text comes back from its bytes.
pub proof fn law_text_comes_back(s: Seq<char>)
    ensures
        decoded(encode_utf8(s)) == s,
{
    encode_utf8_valid_utf8(s);
    encode_utf8_decode_utf8(s);
}

} // verus!
