//! Text operations on characters, with the specifications that the rest of the
//! crate is stated over.

use vstd::prelude::*;

verus! {

/// `String::push` appends one character.
pub assume_specification[ String::push ](s: &mut String, c: char)
    ensures
        final(s)@ == old(s)@.push(c),
;

/// The characters of a string slice.
pub fn chars_of(s: &str) -> (v: Vec<char>)
    ensures
        v@ == s@,
{
    let mut v: Vec<char> = Vec::new();
    for c in it: s.chars()
        invariant
            v@.len() == it.index(),
            it.seq() == s@,
            forall|i: int| 0 <= i < v@.len() ==> v@[i] == it.seq()[i],
    {
        v.push(c);
    }
    v
}

/// The string that holds the given characters.
pub fn string_of(cs: &[char]) -> (s: String)
    ensures
        s@ == cs@,
{
    let mut s = String::new();
    let mut i: usize = 0;
    while i < cs.len()
        invariant
            i <= cs@.len(),
            s@ == cs@.take(i as int),
        decreases cs@.len() - i,
    {
        s.push(cs[i]);
        proof {
            assert(cs@.take(i + 1) =~= cs@.take(i as int).push(cs@[i as int]));
        }
        i = i + 1;
    }
    proof {
        assert(cs@.take(i as int) =~= cs@);
    }
    s
}

/// The text `prefix` and then `rest`.
pub fn prefixed(prefix: &str, rest: &str) -> (s: String)
    ensures
        s@ == prefix@ + rest@,
{
    let mut s = prefix.to_owned();
    s.append(rest);
    s
}

/// The view of an optional text.
pub open spec fn opt_view(s: Option<String>) -> Option<Seq<char>> {
    match s {
        Some(t) => Some(t@),
        None => None,
    }
}

/// A copy of an optional text.
pub fn copy_opt(s: &Option<String>) -> (r: Option<String>)
    ensures
        opt_view(r) == opt_view(*s),
{
    match s {
        Some(t) => Some(t.clone()),
        None => None,
    }
}

/// The views of a run of texts.
pub open spec fn string_views(s: Seq<String>) -> Seq<Seq<char>> {
    Seq::new(s.len(), |i: int| s[i]@)
}


// ---------------------------------------------------------------------------
// Comparison
// ---------------------------------------------------------------------------

/// Whether two runs of characters are the same.
pub fn same_chars(a: &[char], b: &[char]) -> (r: bool)
    ensures
        r == (a@ == b@),
{
    if a.len() != b.len() {
        return false;
    }
    let mut i: usize = 0;
    while i < a.len()
        invariant
            a@.len() == b@.len(),
            i <= a@.len(),
            forall|j: int| 0 <= j < i ==> a@[j] == b@[j],
        decreases a@.len() - i,
    {
        if a[i] != b[i] {
            return false;
        }
        i = i + 1;
    }
    proof {
        assert(a@ =~= b@);
    }
    true
}

/// Whether two string slices hold the same characters.
pub fn same_str(a: &str, b: &str) -> (r: bool)
    ensures
        r == (a@ == b@),
{
    let x = chars_of(a);
    let y = chars_of(b);
    same_chars(x.as_slice(), y.as_slice())
}

// ---------------------------------------------------------------------------
// ASCII case
// ---------------------------------------------------------------------------

/// The ASCII lowercase form of a character; other characters are unchanged.
pub open spec fn ascii_lower(c: char) -> char {
    if 'A' <= c && c <= 'Z' {
        (c as int + 32) as char
    } else {
        c
    }
}

/// `ascii_lower` on every character.
pub open spec fn ascii_lower_all(s: Seq<char>) -> Seq<char> {
    Seq::new(s.len(), |i: int| ascii_lower(s[i]))
}

/// Equality up to the case of ASCII letters.
pub open spec fn same_ignoring_ascii_case(a: Seq<char>, b: Seq<char>) -> bool {
    ascii_lower_all(a) == ascii_lower_all(b)
}

fn lower_one(c: char) -> (r: char)
    ensures
        r == ascii_lower(c),
{
    if c >= 'A' && c <= 'Z' {
        let n: u8 = c as u8 + 32;
        n as char
    } else {
        c
    }
}

/// Whether two runs of characters are equal up to the case of ASCII letters.
pub fn eq_ignore_ascii_case(a: &[char], b: &[char]) -> (r: bool)
    ensures
        r == same_ignoring_ascii_case(a@, b@),
{
    if a.len() != b.len() {
        proof {
            assert(ascii_lower_all(a@).len() != ascii_lower_all(b@).len());
        }
        return false;
    }
    let mut i: usize = 0;
    while i < a.len()
        invariant
            a@.len() == b@.len(),
            i <= a@.len(),
            forall|j: int| 0 <= j < i ==> ascii_lower(a@[j]) == ascii_lower(b@[j]),
        decreases a@.len() - i,
    {
        if lower_one(a[i]) != lower_one(b[i]) {
            proof {
                assert(ascii_lower_all(a@)[i as int] != ascii_lower_all(b@)[i as int]);
            }
            return false;
        }
        i = i + 1;
    }
    proof {
        assert(ascii_lower_all(a@) =~= ascii_lower_all(b@));
    }
    true
}

// ---------------------------------------------------------------------------
// Searching and splitting
// ---------------------------------------------------------------------------

/// Whether `p` stands in `s` at index `i`.
pub open spec fn matches_at(s: Seq<char>, p: Seq<char>, i: int) -> bool {
    &&& 0 <= i
    &&& i + p.len() <= s.len()
    &&& s.subrange(i, i + p.len()) == p
}

/// The first index, from `from` on, at which `p` stands in `s`.
pub open spec fn find_from(s: Seq<char>, p: Seq<char>, from: int) -> Option<int>
    decreases s.len() + 1 - from,
{
    if from < 0 || from + p.len() > s.len() {
        None
    } else if matches_at(s, p, from) {
        Some(from)
    } else {
        find_from(s, p, from + 1)
    }
}

/// Whether `p` stands in `s` at some index.
pub open spec fn contains(s: Seq<char>, p: Seq<char>) -> bool {
    exists|i: int| matches_at(s, p, i)
}

/// What `find_from` finds, and what it passes over.
pub proof fn lemma_find_from(s: Seq<char>, p: Seq<char>, from: int)
    requires
        0 <= from,
    ensures
        match find_from(s, p, from) {
            Some(i) => from <= i && matches_at(s, p, i) && forall|j: int|
                from <= j < i ==> !matches_at(s, p, j),
            None => forall|j: int| from <= j ==> !matches_at(s, p, j),
        },
    decreases s.len() + 1 - from,
{
    if from + p.len() > s.len() {
    } else if matches_at(s, p, from) {
    } else {
        lemma_find_from(s, p, from + 1);
    }
}

fn is_at(s: &[char], p: &[char], i: usize) -> (r: bool)
    requires
        i + p@.len() <= s@.len(),
    ensures
        r == matches_at(s@, p@, i as int),
{
    let n: usize = s.len();
    let mut j: usize = 0;
    while j < p.len()
        invariant
            n == s@.len(),
            i + p@.len() <= s@.len(),
            j <= p@.len(),
            forall|k: int| 0 <= k < j ==> s@[i + k] == p@[k],
        decreases p@.len() - j,
    {
        if s[i + j] != p[j] {
            proof {
                assert(s@.subrange(i as int, i + p@.len())[j as int] != p@[j as int]);
            }
            return false;
        }
        j = j + 1;
    }
    proof {
        assert(s@.subrange(i as int, i + p@.len()) =~= p@);
    }
    true
}

/// The first index, from `from` on, at which `p` stands in `s`.
pub fn find(s: &[char], p: &[char], from: usize) -> (r: Option<usize>)
    ensures
        match r {
            Some(i) => find_from(s@, p@, from as int) == Some(i as int),
            None => find_from(s@, p@, from as int) is None,
        },
{
    if p.len() > s.len() {
        return None;
    }
    let last: usize = s.len() - p.len();
    let mut i: usize = from;
    while i <= last
        invariant
            p@.len() <= s@.len(),
            last == s@.len() - p@.len(),
            find_from(s@, p@, from as int) == find_from(s@, p@, i as int),
        decreases last + 1 - i,
    {
        if is_at(s, p, i) {
            return Some(i);
        }
        if i == usize::MAX {
            return None;
        }
        i = i + 1;
    }
    None
}

/// Whether `p` stands anywhere in `s`.
pub fn has(s: &[char], p: &[char]) -> (r: bool)
    ensures
        r == contains(s@, p@),
{
    let r = find(s, p, 0);
    proof {
        lemma_find_from(s@, p@, 0);
    }
    r.is_some()
}

/// Whether `c` is among the characters of `s`.
pub fn has_char(s: &[char], c: char) -> (r: bool)
    ensures
        r == s@.contains(c),
{
    let mut i: usize = 0;
    while i < s.len()
        invariant
            i <= s@.len(),
            forall|j: int| 0 <= j < i ==> s@[j] != c,
        decreases s@.len() - i,
    {
        if s[i] == c {
            return true;
        }
        i = i + 1;
    }
    false
}

/// Whether `s` begins with `p`.
pub fn begins_with(s: &[char], p: &[char]) -> (r: bool)
    ensures
        r == p@.is_prefix_of(s@),
{
    if p.len() > s.len() {
        return false;
    }
    let r = is_at(s, p, 0);
    r
}

/// Whether `s` ends with `p`.
pub fn finishes_with(s: &[char], p: &[char]) -> (r: bool)
    ensures
        r == p@.is_suffix_of(s@),
{
    if p.len() > s.len() {
        return false;
    }
    let r = is_at(s, p, s.len() - p.len());
    r
}

/// The index of the first `c` in `s`, from `from` on.
pub open spec fn first_index(s: Seq<char>, c: char, from: int) -> Option<int>
    decreases s.len() - from,
{
    if from < 0 || from >= s.len() {
        None
    } else if s[from] == c {
        Some(from)
    } else {
        first_index(s, c, from + 1)
    }
}

/// What `first_index` finds, and what it passes over.
pub proof fn lemma_first_index(s: Seq<char>, c: char, from: int)
    requires
        0 <= from,
    ensures
        match first_index(s, c, from) {
            Some(i) => from <= i < s.len() && s[i] == c && forall|j: int|
                from <= j < i ==> s[j] != c,
            None => forall|j: int| from <= j < s.len() ==> s[j] != c,
        },
    decreases s.len() - from,
{
    if from >= s.len() {
    } else if s[from] == c {
    } else {
        lemma_first_index(s, c, from + 1);
    }
}

/// The index of the last `c` in `s`.
pub open spec fn last_index(s: Seq<char>, c: char) -> Option<int>
    decreases s.len(),
{
    if s.len() == 0 {
        None
    } else if s.last() == c {
        Some(s.len() - 1)
    } else {
        last_index(s.drop_last(), c)
    }
}

/// The index of the first `c` in `s`, from `from` on.
pub fn index_of_char(s: &[char], c: char, from: usize) -> (r: Option<usize>)
    ensures
        match r {
            Some(i) => first_index(s@, c, from as int) == Some(i as int) && i < s@.len(),
            None => first_index(s@, c, from as int) is None,
        },
{
    let mut i: usize = from;
    while i < s.len()
        invariant
            first_index(s@, c, from as int) == first_index(s@, c, i as int),
        decreases s@.len() - i,
    {
        if s[i] == c {
            return Some(i);
        }
        i = i + 1;
    }
    None
}

/// The index of the last `c` in `s`.
pub fn last_index_of_char(s: &[char], c: char) -> (r: Option<usize>)
    ensures
        match r {
            Some(i) => last_index(s@, c) == Some(i as int) && i < s@.len(),
            None => last_index(s@, c) is None,
        },
{
    let mut i: usize = s.len();
    proof {
        assert(s@.take(i as int) =~= s@);
    }
    while i > 0
        invariant
            i <= s@.len(),
            last_index(s@, c) == last_index(s@.take(i as int), c),
        decreases i,
    {
        proof {
            assert(s@.take(i as int).drop_last() =~= s@.take(i - 1));
        }
        if s[i - 1] == c {
            return Some(i - 1);
        }
        i = i - 1;
    }
    None
}

/// The part of `s` before the first `c` and the part after it.
pub open spec fn split_once(s: Seq<char>, c: char) -> Option<(Seq<char>, Seq<char>)> {
    match first_index(s, c, 0) {
        Some(i) => Some((s.take(i), s.skip(i + 1))),
        None => None,
    }
}

/// The pieces of `s` between the occurrences of `sep`, which is not empty.
pub open spec fn split(s: Seq<char>, sep: Seq<char>) -> Seq<Seq<char>>
    decreases s.len(),
{
    match find_from(s, sep, 0) {
        Some(i) => if sep.len() > 0 && 0 <= i && i + sep.len() <= s.len() {
            seq![s.take(i)] + split(s.skip(i + sep.len()), sep)
        } else {
            seq![s]
        },
        None => seq![s],
    }
}

/// The pieces, in order, with `sep` between each two of them.
pub open spec fn join(parts: Seq<Seq<char>>, sep: Seq<char>) -> Seq<char>
    decreases parts.len(),
{
    if parts.len() == 0 {
        Seq::empty()
    } else if parts.len() == 1 {
        parts[0]
    } else {
        join(parts.drop_last(), sep) + sep + parts.last()
    }
}

/// The views of a run of character vectors.
pub open spec fn views(parts: Seq<Vec<char>>) -> Seq<Seq<char>> {
    Seq::new(parts.len(), |i: int| parts[i]@)
}

/// A copy of the characters from index `from` up to, but not including, `to`.
pub fn copy_range(s: &[char], from: usize, to: usize) -> (v: Vec<char>)
    requires
        from <= to <= s@.len(),
    ensures
        v@ == s@.subrange(from as int, to as int),
{
    let mut v: Vec<char> = Vec::new();
    let mut i: usize = from;
    while i < to
        invariant
            from <= i <= to <= s@.len(),
            v@ == s@.subrange(from as int, i as int),
        decreases to - i,
    {
        v.push(s[i]);
        proof {
            assert(s@.subrange(from as int, i + 1) =~= s@.subrange(from as int, i as int).push(
                s@[i as int],
            ));
        }
        i = i + 1;
    }
    v
}

/// The pieces of `s` between the occurrences of `sep`.
pub fn split_chars(s: &[char], sep: &[char]) -> (parts: Vec<Vec<char>>)
    requires
        sep@.len() > 0,
    ensures
        views(parts@) == split(s@, sep@),
        parts@.len() > 0,
{
    let n: usize = s.len();
    let mut parts: Vec<Vec<char>> = Vec::new();
    let mut pos: usize = 0;
    proof {
        assert(s@.skip(0) =~= s@);
        assert(views(parts@) + split(s@, sep@) =~= split(s@, sep@));
    }
    loop
        invariant
            sep@.len() > 0,
            n == s@.len(),
            pos <= s@.len(),
            split(s@, sep@) == views(parts@) + split(s@.skip(pos as int), sep@),
        decreases s@.len() - pos,
    {
        let hit = find(s, sep, pos);
        let ghost rest = s@.skip(pos as int);
        proof {
            lemma_find_in_skip(s@, sep@, pos as int);
            lemma_find_from(s@, sep@, pos as int);
        }
        match hit {
            Some(i) => {
                let ghost before = parts@;
                let piece = copy_range(s, pos, i);
                parts.push(piece);
                proof {
                    assert(rest.take(i - pos) =~= s@.subrange(pos as int, i as int));
                    assert(rest.skip(i - pos + sep@.len()) =~= s@.skip(i + sep@.len()));
                    assert(views(parts@) =~= views(before) + seq![rest.take(i - pos)]);
                    assert(views(before) + (seq![rest.take(i - pos)] + split(
                        s@.skip(i + sep@.len()),
                        sep@,
                    )) =~= views(parts@) + split(s@.skip(i + sep@.len()), sep@));
                }
                pos = i + sep.len();
            },
            None => {
                let ghost before = parts@;
                let piece = copy_range(s, pos, s.len());
                parts.push(piece);
                proof {
                    assert(rest =~= s@.subrange(pos as int, s@.len() as int));
                    assert(views(parts@) =~= views(before) + seq![rest]);
                }
                return parts;
            },
        }
    }
}

/// Searching in a tail of `s` is searching in `s` from there on.
pub proof fn lemma_find_in_skip(s: Seq<char>, p: Seq<char>, from: int)
    requires
        0 <= from <= s.len(),
    ensures
        match find_from(s, p, from) {
            Some(i) => find_from(s.skip(from), p, 0) == Some(i - from),
            None => find_from(s.skip(from), p, 0) is None,
        },
{
    let t = s.skip(from);
    lemma_find_from(s, p, from);
    lemma_find_from(t, p, 0);
    assert forall|j: int| 0 <= j implies matches_at(t, p, j) == matches_at(s, p, from + j) by {
        if j + p.len() <= t.len() {
            assert(t.subrange(j, j + p.len()) =~= s.subrange(from + j, from + j + p.len()));
        }
    }
    if let Some(i) = find_from(s, p, from) {
        assert(matches_at(t, p, i - from));
        if let Some(k) = find_from(t, p, 0) {
            assert(matches_at(s, p, from + k));
            assert(k == i - from);
        }
    } else {
        if let Some(k) = find_from(t, p, 0) {
            assert(matches_at(s, p, from + k));
        }
    }
}

/// The pieces, in order, with `sep` between each two of them.
pub fn join_chars(parts: &Vec<Vec<char>>, sep: &[char]) -> (s: Vec<char>)
    ensures
        s@ == join(views(parts@), sep@),
{
    let mut s: Vec<char> = Vec::new();
    let mut i: usize = 0;
    while i < parts.len()
        invariant
            i <= parts@.len(),
            s@ == join(views(parts@).take(i as int), sep@),
        decreases parts@.len() - i,
    {
        proof {
            let next = views(parts@).take(i + 1);
            assert(next.drop_last() =~= views(parts@).take(i as int));
            assert(next.last() == parts@[i as int]@);
        }
        if i > 0 {
            s.extend_from_slice(sep);
        }
        s.extend_from_slice(parts[i].as_slice());
        proof {
            if i == 0 {
                assert(s@ =~= parts@[0]@);
            } else {
                assert(s@ =~= join(views(parts@).take(i as int), sep@) + sep@ + parts@[i as int]@);
            }
        }
        i = i + 1;
    }
    proof {
        assert(views(parts@).take(i as int) =~= views(parts@));
    }
    s
}

// ---------------------------------------------------------------------------
// Splitting and joining undo each other
// ---------------------------------------------------------------------------

/// Joining from the front.
pub proof fn lemma_join_front(first: Seq<char>, rest: Seq<Seq<char>>, sep: Seq<char>)
    requires
        rest.len() > 0,
    ensures
        join(seq![first] + rest, sep) == first + sep + join(rest, sep),
    decreases rest.len(),
{
    let all = seq![first] + rest;
    assert(all.last() == rest.last());
    assert(all.drop_last() =~= seq![first] + rest.drop_last());
    if rest.len() == 1 {
        assert(all.drop_last() =~= seq![first]);
        assert(join(all.drop_last(), sep) == first);
        assert(rest.last() == rest[0]);
    } else {
        lemma_join_front(first, rest.drop_last(), sep);
        assert(join(all, sep) =~= first + sep + join(rest, sep));
    }
}

/// The pieces of a text, joined with what separated them, are the text again.
pub proof fn law_pieces_join_back(s: Seq<char>, sep: Seq<char>)
    requires
        sep.len() > 0,
    ensures
        join(split(s, sep), sep) == s,
        split(s, sep).len() > 0,
    decreases s.len(),
{
    lemma_find_from(s, sep, 0);
    match find_from(s, sep, 0) {
        Some(i) => {
            let rest = s.skip(i + sep.len());
            law_pieces_join_back(rest, sep);
            lemma_join_front(s.take(i), split(rest, sep), sep);
            assert(s.take(i) + sep + rest =~= s);
        },
        None => {},
    }
}

/// No piece of a text contains what separates the pieces.
pub proof fn lemma_pieces_lack_separator(s: Seq<char>, sep: Seq<char>)
    requires
        sep.len() > 0,
    ensures
        forall|k: int| 0 <= k < split(s, sep).len() ==> !contains(#[trigger] split(s, sep)[k], sep),
    decreases s.len(),
{
    lemma_find_from(s, sep, 0);
    match find_from(s, sep, 0) {
        Some(i) => {
            let rest = s.skip(i + sep.len());
            let head = s.take(i);
            lemma_pieces_lack_separator(rest, sep);
            assert(!contains(head, sep)) by {
                if contains(head, sep) {
                    let j = choose|j: int| matches_at(head, sep, j);
                    assert(head.subrange(j, j + sep.len()) =~= s.subrange(j, j + sep.len()));
                    assert(matches_at(s, sep, j));
                }
            }
            assert forall|k: int| 0 <= k < split(s, sep).len() implies !contains(
                #[trigger] split(s, sep)[k],
                sep,
            ) by {
                if k > 0 {
                    assert(split(s, sep)[k] == split(rest, sep)[k - 1]);
                }
            }
        },
        None => {},
    }
}

/// The line break of HTTP: carriage return, line feed.
pub open spec fn crlf() -> Seq<char> {
    seq!['\r', '\n']
}

/// Where a line break stands.
pub proof fn lemma_break_at(s: Seq<char>, j: int)
    ensures
        matches_at(s, crlf(), j) <==> 0 <= j && j + 2 <= s.len() && s[j] == '\r' && s[j + 1] == '\n',
{
    let sep = crlf();
    if 0 <= j && j + 2 <= s.len() {
        let t = s.subrange(j, j + 2);
        assert(t[0] == s[j] && t[1] == s[j + 1]);
        if s[j] == '\r' && s[j + 1] == '\n' {
            assert(t =~= sep);
        }
    }
}

proof fn lemma_first_match(s: Seq<char>, p: Seq<char>, n: int)
    requires
        matches_at(s, p, n),
        forall|j: int| 0 <= j < n ==> !matches_at(s, p, j),
    ensures
        find_from(s, p, 0) == Some(n),
{
    lemma_find_from(s, p, 0);
}

proof fn lemma_no_break_inside(first: Seq<char>, tail: Seq<char>, j: int)
    requires
        !matches_at(first, crlf(), j),
        0 <= j < first.len(),
    ensures
        !matches_at(first + crlf() + tail, crlf(), j),
{
    let s = first + crlf() + tail;
    lemma_break_at(s, j);
    lemma_break_at(first, j);
    if j + 2 > first.len() {
        assert(s[j + 1] == crlf()[0]);
    }
}

proof fn lemma_find_after_line(first: Seq<char>, tail: Seq<char>)
    requires
        !contains(first, crlf()),
    ensures
        find_from(first + crlf() + tail, crlf(), 0) == Some(first.len() as int),
{
    let s = first + crlf() + tail;
    let n = first.len() as int;
    assert(s[n] == crlf()[0]);
    assert(s[n + 1] == crlf()[1]);
    lemma_break_at(s, n);
    assert forall|j: int| 0 <= j < n implies !matches_at(s, crlf(), j) by {
        lemma_no_break_inside(first, tail, j);
    }
    lemma_first_match(s, crlf(), n);
}

/// Lines that contain no line break, joined with line breaks, split into the same
/// lines again.
pub proof fn lemma_split_join_lines(lines: Seq<Seq<char>>)
    requires
        lines.len() > 0,
        forall|k: int| 0 <= k < lines.len() ==> !contains(#[trigger] lines[k], crlf()),
    ensures
        split(join(lines, crlf()), crlf()) == lines,
    decreases lines.len(),
{
    let sep = crlf();
    let first = lines[0];
    assert(!contains(first, sep));
    if lines.len() == 1 {
        lemma_find_from(first, sep, 0);
        assert(find_from(first, sep, 0) is None);
        assert(lines =~= seq![first]);
    } else {
        let rest = lines.skip(1);
        assert(lines =~= seq![first] + rest);
        assert forall|k: int| 0 <= k < rest.len() implies !contains(#[trigger] rest[k], sep) by {
            assert(rest[k] == lines[k + 1]);
        }
        lemma_split_join_lines(rest);
        lemma_join_front(first, rest, sep);
        let tail = join(rest, sep);
        let s = first + sep + tail;
        let n = first.len() as int;
        lemma_find_after_line(first, tail);
        assert(s.take(n) =~= first);
        assert(s.skip(n + sep.len()) =~= tail);
        assert(split(s, sep) == seq![first] + split(tail, sep));
    }
}

proof fn lemma_find_after_part(first: Seq<char>, c: char, tail: Seq<char>)
    requires
        !first.contains(c),
    ensures
        find_from(first + seq![c] + tail, seq![c], 0) == Some(first.len() as int),
{
    let s = first + seq![c] + tail;
    let n = first.len() as int;
    assert(s.subrange(n, n + 1) =~= seq![c]);
    assert forall|j: int| 0 <= j < n implies !matches_at(s, seq![c], j) by {
        assert(s.subrange(j, j + 1)[0] == first[j]);
        assert(first.contains(first[j]));
    }
    lemma_first_match(s, seq![c], n);
}

proof fn lemma_find_no_char(s: Seq<char>, c: char)
    requires
        !s.contains(c),
    ensures
        find_from(s, seq![c], 0) is None,
{
    lemma_find_from(s, seq![c], 0);
    if let Some(i) = find_from(s, seq![c], 0) {
        assert(s.subrange(i, i + 1)[0] == s[i]);
        assert(s.contains(s[i]));
    }
}

/// Parts without the character `c`, joined with it, split into the same parts again.
pub proof fn lemma_split_join_parts(parts: Seq<Seq<char>>, c: char)
    requires
        parts.len() > 0,
        forall|k: int| 0 <= k < parts.len() ==> !(#[trigger] parts[k]).contains(c),
    ensures
        split(join(parts, seq![c]), seq![c]) == parts,
    decreases parts.len(),
{
    let sep = seq![c];
    let first = parts[0];
    assert(!first.contains(c));
    if parts.len() == 1 {
        lemma_find_no_char(first, c);
        assert(parts =~= seq![first]);
    } else {
        let rest = parts.skip(1);
        assert(parts =~= seq![first] + rest);
        assert forall|k: int| 0 <= k < rest.len() implies !(#[trigger] rest[k]).contains(c) by {
            assert(rest[k] == parts[k + 1]);
        }
        lemma_split_join_parts(rest, c);
        lemma_join_front(first, rest, sep);
        let tail = join(rest, sep);
        let s = first + sep + tail;
        let n = first.len() as int;
        lemma_find_after_part(first, c, tail);
        assert(s.take(n) =~= first);
        assert(s.skip(n + sep.len()) =~= tail);
        assert(split(s, sep) == seq![first] + split(tail, sep));
    }
}

/// What a run holds once one more is put to its end.
pub proof fn lemma_push_contains(s: Seq<Seq<char>>, last: Seq<char>, x: Seq<char>)
    ensures
        s.push(last).contains(x) <==> s.contains(x) || x == last,
{
    if s.contains(x) {
        let j = s.index_of(x);
        assert(s.push(last)[j] == x);
    }
    assert(s.push(last)[s.len() as int] == last);
}

/// What passes a filter was there before.
pub proof fn lemma_filter_source(lines: Seq<Seq<char>>, keep: spec_fn(Seq<char>) -> bool, i: int)
    requires
        0 <= i < lines.filter(keep).len(),
    ensures
        lines.contains(lines.filter(keep)[i]),
    decreases lines.len(),
{
    reveal(Seq::filter);
    if lines.len() > 0 {
        let init = lines.drop_last();
        let f = lines.filter(keep)[i];
        if i < init.filter(keep).len() {
            lemma_filter_source(init, keep, i);
            let k = init.index_of(f);
            assert(lines[k] == f);
        } else {
            assert(lines[lines.len() - 1] == f);
        }
    }
}

// ---------------------------------------------------------------------------
// Laws
// ---------------------------------------------------------------------------

/// Texts that are equal up to the case of ASCII letters have the same length, and at each
/// place either the same character or the two cases of one letter.
pub proof fn law_case_is_all_that_differs(a: Seq<char>, b: Seq<char>)
    ensures
        same_ignoring_ascii_case(a, b) <==> (a.len() == b.len() && forall|i: int|
            0 <= i < a.len() ==> {
                ||| #[trigger] a[i] == b[i]
                ||| 'A' <= a[i] && a[i] <= 'Z' && b[i] as int == a[i] as int + 32
                ||| 'A' <= b[i] && b[i] <= 'Z' && a[i] as int == b[i] as int + 32
            }),
{
    let x = ascii_lower_all(a);
    let y = ascii_lower_all(b);
    if same_ignoring_ascii_case(a, b) {
        assert(x.len() == a.len() && y.len() == b.len());
        assert forall|i: int| 0 <= i < a.len() implies {
            ||| #[trigger] a[i] == b[i]
            ||| 'A' <= a[i] && a[i] <= 'Z' && b[i] as int == a[i] as int + 32
            ||| 'A' <= b[i] && b[i] <= 'Z' && a[i] as int == b[i] as int + 32
        } by {
            assert(x[i] == y[i]);
        }
    }
    if a.len() == b.len() && forall|i: int|
        0 <= i < a.len() ==> {
            ||| #[trigger] a[i] == b[i]
            ||| 'A' <= a[i] && a[i] <= 'Z' && b[i] as int == a[i] as int + 32
            ||| 'A' <= b[i] && b[i] <= 'Z' && a[i] as int == b[i] as int + 32
        } {
        assert forall|i: int| 0 <= i < a.len() implies x[i] == y[i] by {
            assert(a[i] == a[i]);
        }
        assert(x =~= y);
    }
}

/// What stands between two other texts is contained in the three together, at the place
/// behind the first.
pub proof fn law_middle_is_contained(a: Seq<char>, p: Seq<char>, b: Seq<char>)
    ensures
        matches_at(a + p + b, p, a.len() as int),
        contains(a + p + b, p),
{
    let s = a + p + b;
    assert(s.subrange(a.len() as int, a.len() as int + p.len()) =~= p);
    assert(matches_at(s, p, a.len() as int));
}

/// One piece joined is that piece; one more piece stands behind the others and a separator.
pub proof fn law_join_grows(parts: Seq<Seq<char>>, last: Seq<char>, sep: Seq<char>)
    ensures
        join(seq![last], sep) == last,
        parts.len() > 0 ==> join(parts.push(last), sep) == join(parts, sep) + sep + last,
{
    assert(parts.push(last).drop_last() =~= parts);
}

/// A text is split at the first place where the character stands: the two parts around it
/// are the text, and the first holds none of it.
pub proof fn law_split_once_reads_back(s: Seq<char>, c: char)
    ensures
        match split_once(s, c) {
            Some((a, b)) => s == a + seq![c] + b && !a.contains(c),
            None => !s.contains(c),
        },
{
    lemma_first_index(s, c, 0);
    match first_index(s, c, 0) {
        Some(i) => {
            assert(s.take(i) + seq![c] + s.skip(i + 1) =~= s);
            if s.take(i).contains(c) {
                let j = s.take(i).index_of(c);
                assert(s[j] == c);
            }
        },
        None => {
            if s.contains(c) {
                let j = s.index_of(c);
                assert(s[j] == c);
            }
        },
    }
}

/// A filter that takes everything changes nothing.
pub proof fn lemma_filter_all(s: Seq<Seq<char>>, keep: spec_fn(Seq<char>) -> bool)
    requires
        forall|k: int| 0 <= k < s.len() ==> keep(#[trigger] s[k]),
    ensures
        s.filter(keep) == s,
    decreases s.len(),
{
    reveal(Seq::filter);
    if s.len() > 0 {
        let init = s.drop_last();
        assert forall|k: int| 0 <= k < init.len() implies keep(#[trigger] init[k]) by {
            assert(init[k] == s[k]);
        }
        lemma_filter_all(init, keep);
        assert(keep(s[s.len() - 1]));
        assert(init.push(s.last()) =~= s);
    } else {
        assert(s.filter(keep) =~= s);
    }
}

/// A filter that does not take a single line leaves nothing of it.
pub proof fn lemma_filter_none(line: Seq<char>, keep: spec_fn(Seq<char>) -> bool)
    requires
        !keep(line),
    ensures
        seq![line].filter(keep) == Seq::<Seq<char>>::empty(),
{
    reveal(Seq::filter);
    let none = seq![line].drop_last();
    assert(none =~= Seq::<Seq<char>>::empty());
    assert(none.filter(keep) =~= Seq::<Seq<char>>::empty());
}

/// A run of texts is seen text by text, in order.
pub proof fn law_texts_are_seen_in_order(s: Seq<String>, v: Seq<Vec<char>>, i: int)
    ensures
        string_views(s).len() == s.len(),
        0 <= i < s.len() ==> string_views(s)[i] == s[i]@,
        views(v).len() == v.len(),
        0 <= i < v.len() ==> views(v)[i] == v[i]@,
        opt_view(None) is None,
        0 <= i < s.len() ==> opt_view(Some(s[i])) == Some(s[i]@),
{
}

} // verus!
