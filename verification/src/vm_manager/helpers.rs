//! Names in paths, and which names are valid.

use vstd::prelude::*;

use crate::text;

verus! {

/// The path under which environments are found.
pub open spec fn base_path() -> Seq<char> {
    "/v1/environments/"@
}

/// A part of a path: not empty, and without a slash.
pub open spec fn is_part(s: Seq<char>) -> bool {
    s.len() > 0 && !s.contains('/')
}

/// The name in `/v1/environments/{name}{suffix}`.
pub open spec fn path_name(path: Seq<char>, suffix: Seq<char>) -> Option<Seq<char>> {
    let p = base_path();
    if p.is_prefix_of(path) && suffix.is_suffix_of(path.skip(p.len() as int)) {
        let name = path.subrange(p.len() as int, path.len() - suffix.len());
        if is_part(name) {
            Some(name)
        } else {
            None
        }
    } else {
        None
    }
}

/// The name in `/v1/environments/{name}`.
pub fn extract_session_id(path: &str) -> (r: Option<String>)
    ensures
        crate::text::opt_view(r) == path_name(path@, Seq::empty()),
{
    let r = extract_session_id_and_suffix(path, "");
    proof {
        reveal_strlit("");
        assert(""@ =~= Seq::<char>::empty());
    }
    r
}

/// The name in `/v1/environments/{name}{suffix}`.
pub fn extract_session_id_and_suffix(path: &str, suffix: &str) -> (r: Option<String>)
    ensures
        crate::text::opt_view(r) == path_name(path@, suffix@),
{
    let cs = text::chars_of(path);
    let p = text::chars_of("/v1/environments/");
    let end = text::chars_of(suffix);
    if !text::begins_with(cs.as_slice(), p.as_slice()) {
        return None;
    }
    let rest = text::copy_range(cs.as_slice(), p.len(), cs.len());
    proof {
        assert(rest@ =~= path@.skip(p@.len() as int));
    }
    if !text::finishes_with(rest.as_slice(), end.as_slice()) {
        return None;
    }
    let n: usize = rest.len() - end.len();
    let name = text::copy_range(rest.as_slice(), 0, n);
    proof {
        assert(name@ =~= path@.subrange(p@.len() as int, path@.len() - suffix@.len()));
    }
    if name.len() == 0 || text::has_char(name.as_slice(), '/') {
        return None;
    }
    Some(text::string_of(name.as_slice()))
}

/// A lower case ASCII letter, an ASCII digit or an underscore.
pub open spec fn is_id_char(c: char) -> bool {
    ('a' <= c && c <= 'z') || ('0' <= c && c <= '9') || c == '_'
}

/// What `^[a-z0-9_]{8,64}$` matches.
pub open spec fn valid_id(s: Seq<char>) -> bool {
    8 <= s.len() <= 64 && forall|i: int| 0 <= i < s.len() ==> is_id_char(#[trigger] s[i])
}

/// Whether a name matches `^[a-z0-9_]{8,64}$`.
pub fn is_valid_session_id(s: &str) -> (r: bool)
    ensures
        r == valid_id(s@),
{
    let cs = text::chars_of(s);
    if cs.len() < 8 || cs.len() > 64 {
        return false;
    }
    let mut i: usize = 0;
    while i < cs.len()
        invariant
            cs@ == s@,
            i <= cs@.len(),
            forall|j: int| 0 <= j < i ==> is_id_char(#[trigger] cs@[j]),
        decreases cs@.len() - i,
    {
        let c: char = cs[i];
        if !((c >= 'a' && c <= 'z') || (c >= '0' && c <= '9') || c == '_') {
            return false;
        }
        i = i + 1;
    }
    true
}

/// A valid name is found again in the path that it is put into.
pub proof fn law_path_gives_name_back(name: Seq<char>, suffix: Seq<char>)
    requires
        is_part(name),
    ensures
        path_name(base_path() + name + suffix, suffix) == Some(name),
{
    let p = base_path();
    let path = p + name + suffix;
    assert(path.skip(p.len() as int) =~= name + suffix);
    assert((name + suffix).subrange(name.len() as int, (name + suffix).len() as int) =~= suffix);
    assert(path.subrange(p.len() as int, path.len() - suffix.len()) =~= name);
}

/// A valid name has from eight to sixty-four characters, each a small letter, a digit or an
/// underscore.
pub proof fn law_valid_names(s: Seq<char>, c: char)
    ensures
        valid_id(s) ==> 8 <= s.len() <= 64 && is_part(s),
        is_id_char(c) <==> ('a' <= c && c <= 'z') || ('0' <= c && c <= '9') || c == '_',
        8 <= s.len() <= 64 && (forall|i: int| 0 <= i < s.len() ==> is_id_char(#[trigger] s[i]))
            ==> valid_id(s),
        valid_id(s) ==> forall|i: int| 0 <= i < s.len() ==> is_id_char(#[trigger] s[i]),
{
    if valid_id(s) && s.contains('/') {
        let k = s.index_of('/');
        assert(is_id_char(s[k]));
    }
}

/// A path has a name in it only where it is made of that name, with nothing else in it.
pub proof fn law_name_makes_the_path(path: Seq<char>, suffix: Seq<char>)
    ensures
        path_name(path, suffix) matches Some(name) ==> path == base_path() + name + suffix
            && name.len() > 0 && !name.contains('/'),
{
    let p = base_path();
    if let Some(name) = path_name(path, suffix) {
        let rest = path.skip(p.len() as int);
        assert(path.subrange(0, p.len() as int) == p);
        assert(rest.subrange(rest.len() - suffix.len(), rest.len() as int) == suffix);
        assert forall|i: int| 0 <= i < path.len() implies path[i] == (p + name + suffix)[i] by {
            if i < p.len() {
                assert(path.subrange(0, p.len() as int)[i] == p[i]);
            } else if i >= path.len() - suffix.len() {
                let k = i - (path.len() - suffix.len());
                assert(rest.subrange(rest.len() - suffix.len(), rest.len() as int)[k] == suffix[k]);
            }
        }
        assert(path =~= p + name + suffix);
    }
}

} // verus!
