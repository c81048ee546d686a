//! Putting files into a machine: where they come from, and the image that carries
//! them.

use vstd::prelude::*;

use super::network::{command, Command, CommandView, Outcome};
use super::types::FileEntry;
use crate::text::{self, prefixed};
use crate::unicode;

verus! {

// ---------------------------------------------------------------------------
// Where a file comes from
// ---------------------------------------------------------------------------

/// What is to be done to get a file.
#[derive(Debug)]
pub enum Stage {
    /// Write this content.
    Write(String),
    /// Clone this repository at this branch, tag or commit.
    Clone(String, String),
    /// Copy what this names on the host, if it may be copied.
    Copy(HostSource),
}

/// Something on the host, by the name under which it was asked for. Nothing is copied by
/// that name: only a place that was checked is.
#[derive(Debug)]
pub struct HostSource {
    name: String,
}

impl View for HostSource {
    type V = Seq<char>;

    closed spec fn view(&self) -> Seq<char> {
        self.name@
    }
}

/// A place on the host that may be copied from.
#[derive(Debug)]
pub struct CopyOrder {
    place: String,
}

impl View for CopyOrder {
    type V = Seq<char>;

    closed spec fn view(&self) -> Seq<char> {
        self.place@
    }
}

/// The text that says which field is missing.
pub open spec fn missing_field(source: Seq<char>, field: Seq<char>, guest_path: Seq<char>) -> Seq<
    char,
> {
    "source="@ + source + " requires '"@ + field + "' field for "@ + guest_path
}

/// Whether `r` is what is to be done to get a file.
pub open spec fn staged(f: FileEntry, r: Result<Stage, String>) -> bool {
    let at = f.guest_path@;
    if f.source@ == "inline"@ {
        match f.content {
            Some(c) => r matches Ok(Stage::Write(s)) && s@ == c@,
            None => r matches Err(e) && e@ == missing_field("inline"@, "content"@, at),
        }
    } else if f.source@ == "git"@ {
        match f.url {
            Some(u) => r matches Ok(Stage::Clone(url, git_ref)) && url@ == u@ && git_ref@ == (
            match f.git_ref {
                Some(g) => g@,
                None => "main"@,
            }),
            None => r matches Err(e) && e@ == missing_field("git"@, "url"@, at),
        }
    } else if f.source@ == "path"@ {
        match f.path {
            Some(p) => r matches Ok(Stage::Copy(source)) && source@ == p@,
            None => r matches Err(e) && e@ == missing_field("path"@, "path"@, at),
        }
    } else {
        r matches Err(e) && e@ == "unknown file source type: "@ + f.source@
    }
}

fn field_missing(source: &str, field: &str, guest_path: &str) -> (s: String)
    ensures
        s@ == missing_field(source@, field@, guest_path@),
{
    let mut s = prefixed("source=", source);
    s.append(" requires '");
    s.append(field);
    s.append("' field for ");
    s.append(guest_path);
    s
}

/// What is to be done to get a file.
pub fn stage_file(file: &FileEntry) -> (r: Result<Stage, String>)
    ensures
        staged(*file, r),
{
    let at = file.guest_path.as_str();
    proof {
        reveal_strlit("inline");
        reveal_strlit("git");
        reveal_strlit("path");
        assert("inline"@.len() != "git"@.len() && "inline"@.len() != "path"@.len()
            && "git"@.len() != "path"@.len());
    }
    if text::same_str(file.source.as_str(), "inline") {
        return match &file.content {
            Some(c) => Ok(Stage::Write(c.clone())),
            None => Err(field_missing("inline", "content", at)),
        };
    }
    if text::same_str(file.source.as_str(), "git") {
        return match &file.url {
            Some(u) => {
                let git_ref = match &file.git_ref {
                    Some(g) => g.clone(),
                    None => "main".to_owned(),
                };
                Ok(Stage::Clone(u.clone(), git_ref))
            },
            None => Err(field_missing("git", "url", at)),
        };
    }
    if text::same_str(file.source.as_str(), "path") {
        return match &file.path {
            Some(p) => Ok(Stage::Copy(HostSource { name: p.clone() })),
            None => Err(field_missing("path", "path", at)),
        };
    }
    Err(prefixed("unknown file source type: ", file.source.as_str()))
}

/// The directory that files of the host may come from.
pub open spec fn host_directory() -> Seq<char> {
    "/var/lib/ae-vm-manager/files"@
}

/// Whether a place on the host, as the host itself names it, is that directory or lies
/// in it.
pub open spec fn may_copy(place: Seq<char>) -> bool {
    place == host_directory() || (host_directory() + "/"@).is_prefix_of(place)
}

impl CopyOrder {
    #[verifier::type_invariant]
    spec fn inv(self) -> bool {
        may_copy(self.place@)
    }

    /// The place that is copied from.
    pub fn place(&self) -> (s: &str)
        ensures
            s@ == self@,
            may_copy(s@),
    {
        proof {
            use_type_invariant(self);
        }
        self.place.as_str()
    }
}

impl HostSource {
    /// The name under which it was asked for.
    pub fn name(&self) -> (s: &str)
        ensures
            s@ == self@,
    {
        self.name.as_str()
    }

    /// The order to copy what lies at `place`, which is where the host itself says that the
    /// name leads; or why it may not be copied. There is no place where nothing is there.
    pub fn check_host_path(self, place: Option<&str>) -> (r: Result<CopyOrder, String>)
        ensures
            match (r, place) {
                (Ok(order), Some(p)) => may_copy(p@) && order@ == p@,
                (Err(e), Some(p)) => !may_copy(p@) && e@
                    == "path injection restricted to /var/lib/ae-vm-manager/files/ — got "@ + p@,
                (Err(e), None) => e@ == "source path does not exist: "@ + self@,
                _ => false,
            },
    {
        let p = match place {
            Some(p) => p,
            None => {
                return Err(prefixed("source path does not exist: ", self.name.as_str()));
            },
        };
        let cs = text::chars_of(p);
        let dir = text::chars_of("/var/lib/ae-vm-manager/files");
        let under = prefixed("/var/lib/ae-vm-manager/files", "/");
        let under = text::chars_of(under.as_str());
        if text::same_chars(cs.as_slice(), dir.as_slice()) || text::begins_with(
            cs.as_slice(),
            under.as_slice(),
        ) {
            Ok(CopyOrder { place: p.to_owned() })
        } else {
            Err(prefixed("path injection restricted to /var/lib/ae-vm-manager/files/ — got ", p))
        }
    }
}

/// What may be copied lies at a place that begins with the directory, and a slash
/// follows: a directory with a longer name is another one.
pub proof fn law_only_files_directory(place: Seq<char>)
    requires
        may_copy(place),
    ensures
        host_directory().is_prefix_of(place),
        place.len() == host_directory().len() || place[host_directory().len() as int] == '/',
{
    reveal_strlit("/");
    let d = host_directory();
    if place == d {
        assert(place.subrange(0, d.len() as int) =~= d);
    } else {
        let p = d + "/"@;
        assert(place.subrange(0, d.len() as int) =~= d);
        assert(place[d.len() as int] == p[d.len() as int]);
    }
}

// ---------------------------------------------------------------------------
// Where a file goes
// ---------------------------------------------------------------------------

/// A part of a path that says something: not the empty part between two slashes, and not
/// the part that stands for the directory itself.
pub open spec fn says_something() -> spec_fn(Seq<char>) -> bool {
    |part: Seq<char>| part.len() > 0 && part != "."@
}

/// The parts of a path in the machine that say something, in order.
pub open spec fn guest_parts(guest_path: Seq<char>) -> Seq<Seq<char>> {
    text::split(guest_path, "/"@).filter(says_something())
}

/// How far below its start a walk along those parts ends: each part goes one down, and the
/// part that stands for the directory above goes one up.
pub open spec fn depth(parts: Seq<Seq<char>>) -> int
    decreases parts.len(),
{
    if parts.len() == 0 {
        0
    } else if parts.last() == ".."@ {
        depth(parts.drop_last()) - 1
    } else {
        depth(parts.drop_last()) + 1
    }
}

/// The parts without those that go up from the top, where there is nothing above: there
/// the machine stays where it is.
pub open spec fn below_top(parts: Seq<Seq<char>>) -> Seq<Seq<char>>
    decreases parts.len(),
{
    if parts.len() == 0 {
        Seq::empty()
    } else {
        let before = below_top(parts.drop_last());
        if parts.last() == ".."@ && depth(before) <= 0 {
            before
        } else {
            before.push(parts.last())
        }
    }
}

/// Where a file for that path in the machine is put below `staging`, which stands for the
/// top of the machine.
pub open spec fn place_in(staging: Seq<char>, guest_path: Seq<char>) -> Seq<char> {
    text::join(seq![staging] + below_top(guest_parts(guest_path)), "/"@)
}

proof fn lemma_depth_of_rest(parts: Seq<Seq<char>>)
    ensures
        depth(below_top(parts)) >= 0,
    decreases parts.len(),
{
    if parts.len() > 0 {
        let before = below_top(parts.drop_last());
        lemma_depth_of_rest(parts.drop_last());
        if !(parts.last() == ".."@ && depth(before) <= 0) {
            assert(before.push(parts.last()).drop_last() =~= before);
        }
    }
}

/// Where a file for that path in the machine is put below `staging`.
pub fn staging_place(staging: &str, guest_path: &str) -> (s: String)
    ensures
        s@ == place_in(staging@, guest_path@),
{
    let cs = text::chars_of(guest_path);
    let slash = text::chars_of("/");
    let dot = text::chars_of(".");
    let up = text::chars_of("..");
    proof {
        reveal_strlit("/");
        reveal_strlit(".");
        reveal_strlit("..");
    }
    let parts = text::split_chars(cs.as_slice(), slash.as_slice());
    let ghost all = text::views(parts@);
    let ghost keep = says_something();
    let mut kept: Vec<Vec<char>> = Vec::new();
    kept.push(text::chars_of(staging));
    let mut deep: usize = 0;
    let mut i: usize = 0;
    proof {
        reveal(Seq::filter);
        assert(text::views(kept@) =~= seq![staging@] + below_top(all.take(0).filter(keep)));
    }
    while i < parts.len()
        invariant
            all == text::views(parts@),
            all == text::split(guest_path@, "/"@),
            keep == says_something(),
            dot@ == "."@,
            up@ == ".."@,
            ".."@.len() == 2,
            "."@.len() == 1,
            i <= parts@.len(),
            deep <= i,
            deep == depth(below_top(all.take(i as int).filter(keep))),
            text::views(kept@) == seq![staging@] + below_top(all.take(i as int).filter(keep)),
        decreases parts@.len() - i,
    {
        let ghost before = kept@;
        let ghost part = parts@[i as int]@;
        let ghost said = all.take(i as int).filter(keep);
        proof {
            reveal(Seq::filter);
            assert(all[i as int] == part);
            assert(all.take(i + 1).drop_last() =~= all.take(i as int));
            assert(all.take(i + 1).last() == part);
            assert(said.push(part).drop_last() =~= said);
            assert(below_top(said).push(part).drop_last() =~= below_top(said));
        }
        if parts[i].len() > 0 && !text::same_chars(parts[i].as_slice(), dot.as_slice()) {
            proof {
                assert(all.take(i + 1).filter(keep) == said.push(part));
            }
            let goes_up = text::same_chars(parts[i].as_slice(), up.as_slice());
            if !goes_up || deep > 0 {
                let copy = text::copy_range(parts[i].as_slice(), 0, parts[i].len());
                proof {
                    assert(copy@ =~= part);
                }
                kept.push(copy);
                if goes_up {
                    deep = deep - 1;
                } else {
                    deep = deep + 1;
                }
                proof {
                    assert(text::views(kept@) =~= text::views(before).push(part));
                    assert((seq![staging@] + below_top(said)).push(part) =~= seq![staging@]
                        + below_top(said).push(part));
                }
            }
        }
        i = i + 1;
    }
    proof {
        assert(all.take(i as int) =~= all);
    }
    let joined = text::join_chars(&kept, slash.as_slice());
    text::string_of(joined.as_slice())
}

proof fn lemma_below_top_source(parts: Seq<Seq<char>>, i: int)
    requires
        0 <= i < below_top(parts).len(),
    ensures
        parts.contains(below_top(parts)[i]),
    decreases parts.len(),
{
    if parts.len() > 0 {
        let init = parts.drop_last();
        let part = below_top(parts)[i];
        if i < below_top(init).len() {
            lemma_below_top_source(init, i);
            let k = init.index_of(part);
            assert(parts[k] == part);
        } else {
            assert(parts[parts.len() - 1] == part);
        }
    }
}

proof fn lemma_prefix_depth(parts: Seq<Seq<char>>, k: int)
    requires
        0 <= k <= below_top(parts).len(),
    ensures
        depth(below_top(parts).take(k)) >= 0,
    decreases parts.len(),
{
    let rest = below_top(parts);
    if k == rest.len() {
        assert(rest.take(k) =~= rest);
        lemma_depth_of_rest(parts);
    } else {
        let before = below_top(parts.drop_last());
        assert(rest.take(k) =~= before.take(k));
        lemma_prefix_depth(parts.drop_last(), k);
    }
}

/// A file stays below the directory that it is put into: behind the path of that
/// directory come parts, each behind a slash, that say something, and a walk along them is
/// above that directory at no point.
pub proof fn law_files_stay_in_staging(staging: Seq<char>, guest_path: Seq<char>)
    ensures
        ({
            let parts = below_top(guest_parts(guest_path));
            &&& forall|i: int|
                0 <= i < parts.len() ==> (#[trigger] parts[i]).len() > 0 && parts[i] != "."@
                    && !text::contains(parts[i], "/"@)
            &&& forall|k: int| 0 <= k <= parts.len() ==> depth(#[trigger] parts.take(k)) >= 0
        }),
        staging.is_prefix_of(place_in(staging, guest_path)),
        place_in(staging, guest_path).len() == staging.len() || place_in(
            staging,
            guest_path,
        )[staging.len() as int] == '/',
{
    let all = text::split(guest_path, "/"@);
    let keep = says_something();
    let said = guest_parts(guest_path);
    let parts = below_top(said);
    reveal_strlit("/");
    text::lemma_pieces_lack_separator(guest_path, "/"@);
    assert forall|i: int| 0 <= i < parts.len() implies (#[trigger] parts[i]).len() > 0 && parts[i]
        != "."@ && !text::contains(parts[i], "/"@) by {
        lemma_below_top_source(said, i);
        let j = said.index_of(parts[i]);
        all.lemma_filter_pred(keep, j);
        text::lemma_filter_source(all, keep, j);
        let k = all.index_of(said[j]);
        assert(all[k] == parts[i]);
        assert(keep(parts[i]));
    }
    assert forall|k: int| 0 <= k <= parts.len() implies depth(#[trigger] parts.take(k)) >= 0 by {
        lemma_prefix_depth(said, k);
    }
    let place = place_in(staging, guest_path);
    if parts.len() == 0 {
        assert(seq![staging] + parts =~= seq![staging]);
        assert(place == staging);
        assert(place.take(staging.len() as int) =~= staging);
    } else {
        text::lemma_join_front(staging, parts, "/"@);
        assert(place.take(staging.len() as int) =~= staging);
        assert(place[staging.len() as int] == "/"@[0]);
    }
}

/// A path that does not go above the top of the machine is taken as it is, part by part.
pub proof fn law_paths_below_top_are_kept(parts: Seq<Seq<char>>)
    requires
        forall|k: int| 0 <= k <= parts.len() ==> depth(#[trigger] parts.take(k)) >= 0,
    ensures
        below_top(parts) == parts,
    decreases parts.len(),
{
    if parts.len() == 0 {
        assert(below_top(parts) =~= parts);
    } else {
        let init = parts.drop_last();
        assert forall|k: int| 0 <= k <= init.len() implies depth(#[trigger] init.take(k)) >= 0 by {
            assert(init.take(k) =~= parts.take(k));
            assert(depth(parts.take(k)) >= 0);
        }
        law_paths_below_top_are_kept(init);
        assert(parts.take(parts.len() as int) =~= parts);
        assert(depth(parts) >= 0);
        assert(init.push(parts.last()) =~= parts);
    }
}

// ---------------------------------------------------------------------------
// Repositories
// ---------------------------------------------------------------------------

/// How far the cloning of a repository has come.
#[derive(Clone, Copy, Debug, PartialEq, Eq, Structural)]
pub enum CloneStage {
    /// The branch or tag is cloned.
    Branch,
    /// That failed: the repository is cloned as it is.
    Whole,
    /// The commit is checked out.
    Checkout,
    /// The repository is there.
    Done,
}

/// The cloning of a repository.
pub struct CloneJob {
    /// Where it is.
    pub url: String,
    /// The branch, tag or commit.
    pub git_ref: String,
    /// Where it is put.
    pub dest: String,
    /// How far it has come.
    pub stage: CloneStage,
    /// What the first attempt wrote to standard error.
    pub first_error: String,
}

/// The view of the cloning of a repository.
pub struct CloneView {
    /// Where it is.
    pub url: Seq<char>,
    /// The branch, tag or commit.
    pub git_ref: Seq<char>,
    /// Where it is put.
    pub dest: Seq<char>,
    /// How far it has come.
    pub stage: CloneStage,
    /// What the first attempt wrote to standard error.
    pub first_error: Seq<char>,
}

impl View for CloneJob {
    type V = CloneView;

    open spec fn view(&self) -> CloneView {
        CloneView {
            url: self.url@,
            git_ref: self.git_ref@,
            dest: self.dest@,
            stage: self.stage,
            first_error: self.first_error@,
        }
    }
}

/// The command that comes next.
pub open spec fn clone_command(c: CloneView) -> Option<CommandView> {
    match c.stage {
        CloneStage::Branch => Some(
            super::network::must(
                "git"@,
                seq!["clone"@, "--depth"@, "1"@, "--branch"@, c.git_ref, c.url, c.dest],
            ),
        ),
        CloneStage::Whole => Some(
            super::network::must("git"@, seq!["clone"@, "--depth"@, "1"@, c.url, c.dest]),
        ),
        CloneStage::Checkout => Some(
            super::network::may("git"@, seq!["-C"@, c.dest, "checkout"@, c.git_ref]),
        ),
        CloneStage::Done => None,
    }
}

/// The cloning after its next command came to that, or why it failed.
pub open spec fn clone_after(c: CloneView, outcome: Outcome) -> Result<CloneView, Seq<char>> {
    match (c.stage, outcome) {
        (CloneStage::Branch, Outcome::NotRun) => Err("failed to run git clone"@),
        (CloneStage::Branch, Outcome::Ran(true, _, _)) => Ok(
            CloneView { stage: CloneStage::Done, ..c },
        ),
        (CloneStage::Branch, Outcome::Ran(false, _, stderr)) => Ok(
            CloneView {
                stage: CloneStage::Whole,
                first_error: unicode::decoded(stderr@),
                ..c
            },
        ),
        (CloneStage::Whole, Outcome::NotRun) => Err("failed to run git clone (fallback)"@),
        (CloneStage::Whole, Outcome::Ran(true, _, _)) => Ok(
            CloneView { stage: CloneStage::Checkout, ..c },
        ),
        (CloneStage::Whole, Outcome::Ran(false, _, stderr)) => Err(
            "git clone failed for "@ + c.url + " at "@ + c.git_ref + "\nfirst attempt: "@
                + c.first_error + "\nfallback: "@ + unicode::decoded(stderr@),
        ),
        (CloneStage::Checkout, _) => Ok(CloneView { stage: CloneStage::Done, ..c }),
        (CloneStage::Done, _) => Ok(c),
    }
}

impl CloneJob {
    /// The cloning of a repository, at its start.
    pub fn new(url: &str, git_ref: &str, dest: &str) -> (c: CloneJob)
        ensures
            c@ == (CloneView {
                url: url@,
                git_ref: git_ref@,
                dest: dest@,
                stage: CloneStage::Branch,
                first_error: Seq::empty(),
            }),
    {
        let c = CloneJob {
            url: url.to_owned(),
            git_ref: git_ref.to_owned(),
            dest: dest.to_owned(),
            stage: CloneStage::Branch,
            first_error: String::new(),
        };
        proof {
            assert(c@.first_error =~= Seq::empty());
        }
        c
    }

    /// The command that comes next.
    pub fn next(&self) -> (r: Option<Command>)
        ensures
            match r {
                Some(c) => clone_command(self@) == Some(c@),
                None => clone_command(self@) is None,
            },
    {
        let url = self.url.as_str();
        let git_ref = self.git_ref.as_str();
        let dest = self.dest.as_str();
        let r = match self.stage {
            CloneStage::Branch => command(
                "git",
                &["clone", "--depth", "1", "--branch", git_ref, url, dest],
                true,
            ),
            CloneStage::Whole => command("git", &["clone", "--depth", "1", url, dest], true),
            CloneStage::Checkout => command("git", &["-C", dest, "checkout", git_ref], false),
            CloneStage::Done => {
                return None;
            },
        };
        proof {
            assert(r@.args =~= clone_command(self@)->0.args);
        }
        Some(r)
    }

    /// Goes on from what the command came to.
    pub fn take(&mut self, outcome: &Outcome) -> (r: Result<(), String>)
        ensures
            match (r, clone_after(old(self)@, *outcome)) {
                (Ok(_), Ok(next)) => final(self)@ == next,
                (Err(e), Err(why)) => e@ == why && final(self)@ == old(self)@,
                _ => false,
            },
    {
        match self.stage {
            CloneStage::Branch => match outcome {
                Outcome::NotRun => Err("failed to run git clone".to_owned()),
                Outcome::Ran(success, _, stderr) => {
                    if *success {
                        self.stage = CloneStage::Done;
                    } else {
                        self.first_error = unicode::decode_lossy(stderr.as_slice());
                        self.stage = CloneStage::Whole;
                    }
                    Ok(())
                },
            },
            CloneStage::Whole => match outcome {
                Outcome::NotRun => Err("failed to run git clone (fallback)".to_owned()),
                Outcome::Ran(success, _, stderr) => {
                    if *success {
                        self.stage = CloneStage::Checkout;
                        Ok(())
                    } else {
                        let mut m = prefixed("git clone failed for ", self.url.as_str());
                        m.append(" at ");
                        m.append(self.git_ref.as_str());
                        m.append("\nfirst attempt: ");
                        m.append(self.first_error.as_str());
                        m.append("\nfallback: ");
                        m.append(unicode::decode_lossy(stderr.as_slice()).as_str());
                        Err(m)
                    }
                },
            },
            CloneStage::Checkout => {
                self.stage = CloneStage::Done;
                Ok(())
            },
            CloneStage::Done => Ok(()),
        }
    }
}

// ---------------------------------------------------------------------------
// The image
// ---------------------------------------------------------------------------

/// Four MiB.
pub const BLOCK: u64 = 4194304;

/// The size of the image for files of that size together: twice that size, rounded up
/// to blocks of four MiB, and one block at least.
pub open spec fn size_of_image(dir_size: int) -> int {
    let blocks = (dir_size * 2 + BLOCK - 1) / (BLOCK as int);
    if blocks * BLOCK < BLOCK {
        BLOCK as int
    } else {
        blocks * BLOCK
    }
}

/// The size of the image for files of that size together.
pub fn image_size(dir_size: u64) -> (n: u64)
    requires
        size_of_image(dir_size as int) <= u64::MAX,
    ensures
        n == size_of_image(dir_size as int),
{
    proof {
        let d = dir_size * 2 + BLOCK - 1;
        vstd::arithmetic::div_mod::lemma_fundamental_div_mod(d, BLOCK as int);
        vstd::arithmetic::div_mod::lemma_mod_division_less_than_divisor(d, BLOCK as int);
        vstd::arithmetic::mul::lemma_mul_is_commutative(BLOCK as int, d / (BLOCK as int));
        assert(dir_size * 2 <= size_of_image(dir_size as int));
    }
    let double: u64 = dir_size * 2;
    let whole: u64 = double / BLOCK;
    let blocks: u64 = if double % BLOCK == 0 {
        whole
    } else {
        whole + 1
    };
    proof {
        lemma_ceil(double as int);
    }
    if blocks == 0 {
        BLOCK
    } else {
        blocks * BLOCK
    }
}

proof fn lemma_ceil(n: int)
    requires
        0 <= n,
    ensures
        (n + BLOCK - 1) / (BLOCK as int) == (if n % (BLOCK as int) == 0 {
            n / (BLOCK as int)
        } else {
            n / (BLOCK as int) + 1
        }),
{
}

/// The image holds twice what is put into it, in whole blocks, and no block could be
/// left out.
pub proof fn law_image_holds_files(dir_size: int)
    requires
        0 <= dir_size,
    ensures
        size_of_image(dir_size) >= dir_size * 2,
        size_of_image(dir_size) >= BLOCK,
        size_of_image(dir_size) % (BLOCK as int) == 0,
        size_of_image(dir_size) > BLOCK ==> size_of_image(dir_size) - BLOCK < dir_size * 2,
{
    let d = dir_size * 2 + BLOCK - 1;
    let b = BLOCK as int;
    vstd::arithmetic::div_mod::lemma_fundamental_div_mod(d, b);
    vstd::arithmetic::div_mod::lemma_mod_division_less_than_divisor(d, b);
    vstd::arithmetic::mul::lemma_mul_is_commutative(b, d / b);
    vstd::arithmetic::div_mod::lemma_mod_multiples_basic(d / b, b);
}

/// The sum of a run of sizes.
pub open spec fn sum_of(sizes: Seq<u64>) -> int
    decreases sizes.len(),
{
    if sizes.len() == 0 {
        0
    } else {
        sum_of(sizes.drop_last()) + sizes.last()
    }
}

proof fn lemma_sum_prefix(sizes: Seq<u64>, k: int)
    requires
        0 <= k <= sizes.len(),
    ensures
        0 <= sum_of(sizes.take(k)) <= sum_of(sizes),
    decreases sizes.len(),
{
    if sizes.len() == 0 {
        assert(sizes.take(k) =~= sizes);
    } else if k == sizes.len() {
        assert(sizes.take(k) =~= sizes);
        lemma_sum_prefix(sizes.drop_last(), sizes.len() - 1);
        assert(sizes.drop_last().take(sizes.len() - 1) =~= sizes.drop_last());
    } else {
        lemma_sum_prefix(sizes.drop_last(), k);
        assert(sizes.drop_last().take(k) =~= sizes.take(k));
    }
}

/// The size of files together.
pub fn dir_size(sizes: &Vec<u64>) -> (n: u64)
    requires
        sum_of(sizes@) <= u64::MAX,
    ensures
        n == sum_of(sizes@),
{
    let mut n: u64 = 0;
    let mut i: usize = 0;
    while i < sizes.len()
        invariant
            i <= sizes@.len(),
            sum_of(sizes@) <= u64::MAX,
            n == sum_of(sizes@.take(i as int)),
        decreases sizes@.len() - i,
    {
        proof {
            lemma_sum_prefix(sizes@, i + 1);
            assert(sizes@.take(i + 1).drop_last() =~= sizes@.take(i as int));
            assert(sizes@.take(i + 1).last() == sizes@[i as int]);
        }
        n = n + sizes[i];
        i = i + 1;
    }
    proof {
        assert(sizes@.take(i as int) =~= sizes@);
    }
    n
}

/// The name of the image with the files of a machine.
pub fn image_name(session_id: &str) -> (s: String)
    ensures
        s@ == "ae-vm-files-"@ + session_id@ + ".img"@,
{
    let mut s = prefixed("ae-vm-files-", session_id);
    s.append(".img");
    s
}

/// Where the image with the files of a machine is mounted while it is filled.
pub open spec fn mount_text(session_id: Seq<char>) -> Seq<char> {
    "/tmp/ae-vm-mount-"@ + session_id
}

/// Where the image with the files of a machine is mounted while it is filled.
pub fn mount_point(session_id: &str) -> (s: String)
    ensures
        s@ == mount_text(session_id@),
{
    prefixed("/tmp/ae-vm-mount-", session_id)
}

/// The command that makes a file system in an image.
pub fn format_command(image: &str) -> (c: Command)
    ensures
        c@ == super::network::must("mkfs.ext4"@, seq!["-q"@, "-F"@, image@]),
{
    let c = command("mkfs.ext4", &["-q", "-F", image], true);
    proof {
        assert(c@.args =~= seq!["-q"@, "-F"@, image@]);
    }
    c
}

/// The commands that fill an image with what is in `staging`: the contents of that
/// directory are at the top of the image.
pub open spec fn fill(image: Seq<char>, staging: Seq<char>, mount: Seq<char>) -> Seq<CommandView> {
    seq![
        super::network::must("sudo"@, seq!["mount"@, "-o"@, "loop"@, image, mount]),
        super::network::must("sudo"@, seq!["cp"@, "-r"@, staging + "/."@, mount + "/."@]),
        super::network::must("sudo"@, seq!["umount"@, mount]),
    ]
}

/// The commands that fill an image with what is in `staging`.
pub fn fill_commands(image: &str, staging: &str, session_id: &str) -> (r: Vec<Command>)
    ensures
        super::network::command_views(r@) == fill(image@, staging@, mount_text(session_id@)),
{
    let mount = mount_point(session_id);
    let mut contents = staging.to_owned();
    contents.append("/.");
    let mut inside = mount.clone();
    inside.append("/.");
    let mut r: Vec<Command> = Vec::new();
    r.push(command("sudo", &["mount", "-o", "loop", image, mount.as_str()], true));
    r.push(command("sudo", &["cp", "-r", contents.as_str(), inside.as_str()], true));
    r.push(command("sudo", &["umount", mount.as_str()], true));
    proof {
        let want = fill(image@, staging@, mount_text(session_id@));
        assert forall|i: int| 0 <= i < 3 implies super::network::command_views(r@)[i]
            == #[trigger] want[i] by {
            assert(r@[i]@.args =~= want[i].args);
        }
        assert(super::network::command_views(r@) =~= want);
    }
    r
}

// ---------------------------------------------------------------------------
// Laws
// ---------------------------------------------------------------------------

/// Each part of a path goes one down, and the part for the directory above one up.
pub proof fn law_depth_of_a_walk(parts: Seq<Seq<char>>, part: Seq<char>)
    ensures
        depth(Seq::<Seq<char>>::empty()) == 0,
        part == ".."@ ==> depth(parts.push(part)) == depth(parts) - 1,
        part != ".."@ ==> depth(parts.push(part)) == depth(parts) + 1,
{
    assert(parts.push(part).drop_last() =~= parts);
}

proof fn lemma_depth_of_names(parts: Seq<Seq<char>>)
    requires
        forall|i: int| 0 <= i < parts.len() ==> #[trigger] parts[i] != ".."@,
    ensures
        depth(parts) == parts.len(),
    decreases parts.len(),
{
    if parts.len() > 0 {
        let init = parts.drop_last();
        assert forall|i: int| 0 <= i < init.len() implies #[trigger] init[i] != ".."@ by {
            assert(init[i] == parts[i]);
        }
        lemma_depth_of_names(init);
        assert(parts[parts.len() - 1] != ".."@);
    }
}

proof fn lemma_parts_of_path(parts: Seq<Seq<char>>)
    requires
        parts.len() > 0,
        forall|i: int| 0 <= i < parts.len() ==> !(#[trigger] parts[i]).contains('/'),
    ensures
        text::split(text::join(parts, "/"@), "/"@) == parts,
        text::split("/"@ + text::join(parts, "/"@), "/"@) == seq![Seq::<char>::empty()] + parts,
{
    reveal_strlit("/");
    assert("/"@ =~= seq!['/']);
    text::lemma_split_join_parts(parts, '/');
    let none = Seq::<char>::empty();
    let all = seq![none] + parts;
    assert forall|i: int| 0 <= i < all.len() implies !(#[trigger] all[i]).contains('/') by {
        if i > 0 {
            assert(all[i] == parts[i - 1]);
        }
    }
    text::lemma_split_join_parts(all, '/');
    text::lemma_join_front(none, parts, "/"@);
    assert(none + "/"@ + text::join(parts, "/"@) =~= "/"@ + text::join(parts, "/"@));
}

/// A path in the machine is kept whole: a file for it is put below the directory under the
/// very path that was asked for, whatever the names in it, with a slash before it or
/// without.
pub proof fn law_guest_path_is_kept_whole(staging: Seq<char>, parts: Seq<Seq<char>>)
    requires
        parts.len() > 0,
        forall|i: int|
            0 <= i < parts.len() ==> (#[trigger] parts[i]).len() > 0 && parts[i] != "."@ && parts[i]
                != ".."@ && !parts[i].contains('/'),
    ensures
        place_in(staging, "/"@ + text::join(parts, "/"@)) == staging + "/"@ + text::join(
            parts,
            "/"@,
        ),
        place_in(staging, text::join(parts, "/"@)) == staging + "/"@ + text::join(parts, "/"@),
{
    let keep = says_something();
    let none = Seq::<char>::empty();
    lemma_parts_of_path(parts);
    text::lemma_filter_all(parts, keep);
    text::lemma_filter_none(none, keep);
    Seq::filter_distributes_over_add(seq![none], parts, keep);
    assert(Seq::<Seq<char>>::empty() + parts =~= parts);
    assert forall|k: int| 0 <= k <= parts.len() implies depth(#[trigger] parts.take(k)) >= 0 by {
        let t = parts.take(k);
        assert forall|i: int| 0 <= i < t.len() implies #[trigger] t[i] != ".."@ by {
            assert(t[i] == parts[i]);
        }
        lemma_depth_of_names(t);
    }
    law_paths_below_top_are_kept(parts);
    text::lemma_join_front(staging, parts, "/"@);
}

/// A path with the directory above in it is kept part by part as well, as long as it does
/// not lead above the top of the machine.
pub proof fn law_guest_path_below_top_is_kept(staging: Seq<char>, parts: Seq<Seq<char>>)
    requires
        parts.len() > 0,
        forall|i: int|
            0 <= i < parts.len() ==> (#[trigger] parts[i]).len() > 0 && parts[i] != "."@
                && !parts[i].contains('/'),
        forall|k: int| 0 <= k <= parts.len() ==> depth(#[trigger] parts.take(k)) >= 0,
    ensures
        place_in(staging, "/"@ + text::join(parts, "/"@)) == staging + "/"@ + text::join(
            parts,
            "/"@,
        ),
{
    let keep = says_something();
    let none = Seq::<char>::empty();
    lemma_parts_of_path(parts);
    text::lemma_filter_all(parts, keep);
    text::lemma_filter_none(none, keep);
    Seq::filter_distributes_over_add(seq![none], parts, keep);
    assert(Seq::<Seq<char>>::empty() + parts =~= parts);
    law_paths_below_top_are_kept(parts);
    text::lemma_join_front(staging, parts, "/"@);
}

/// An empty part of a path, and one that stands for the directory itself, make no
/// difference.
pub proof fn law_parts_that_say_nothing(
    staging: Seq<char>,
    before: Seq<Seq<char>>,
    part: Seq<char>,
    after: Seq<Seq<char>>,
)
    requires
        before.len() + after.len() > 0,
        part.len() == 0 || part == "."@,
        forall|i: int| 0 <= i < before.len() ==> !(#[trigger] before[i]).contains('/'),
        forall|i: int| 0 <= i < after.len() ==> !(#[trigger] after[i]).contains('/'),
    ensures
        place_in(staging, text::join(before + seq![part] + after, "/"@)) == place_in(
            staging,
            text::join(before + after, "/"@),
        ),
{
    let keep = says_something();
    let long = before + seq![part] + after;
    let short = before + after;
    assert(!part.contains('/')) by {
        reveal_strlit(".");
    }
    assert forall|i: int| 0 <= i < long.len() implies !(#[trigger] long[i]).contains('/') by {
        if i < before.len() {
            assert(long[i] == before[i]);
        } else if i > before.len() {
            assert(long[i] == after[i - before.len() - 1]);
        }
    }
    assert forall|i: int| 0 <= i < short.len() implies !(#[trigger] short[i]).contains('/') by {
        if i < before.len() {
            assert(short[i] == before[i]);
        } else {
            assert(short[i] == after[i - before.len()]);
        }
    }
    lemma_parts_of_path(long);
    lemma_parts_of_path(short);
    text::lemma_filter_none(part, keep);
    Seq::filter_distributes_over_add(before + seq![part], after, keep);
    Seq::filter_distributes_over_add(before, seq![part], keep);
    Seq::filter_distributes_over_add(before, after, keep);
    assert(before.filter(keep) + Seq::<Seq<char>>::empty() =~= before.filter(keep));
}

/// Above the top of the machine there is nothing: going up from there leads to the top.
pub proof fn law_nothing_is_above_the_top(parts: Seq<Seq<char>>)
    ensures
        below_top(seq![".."@] + parts) == below_top(parts),
    decreases parts.len(),
{
    let all = seq![".."@] + parts;
    if parts.len() == 0 {
        let none = Seq::<Seq<char>>::empty();
        assert(all.drop_last() =~= none);
        assert(parts =~= none);
        assert(below_top(none) =~= none);
        assert(depth(none) == 0);
        assert(all.last() == ".."@);
    } else {
        law_nothing_is_above_the_top(parts.drop_last());
        assert(all.drop_last() =~= seq![".."@] + parts.drop_last());
        assert(all.last() == parts.last());
    }
}

/// A file comes from where its entry says: its content is written, its repository cloned,
/// at `main` where nothing else is named, or its path copied. An entry without what its
/// source needs, and one with another source, are refused.
pub proof fn law_file_comes_from_its_source(f: FileEntry, r: Result<Stage, String>)
    requires
        staged(f, r),
    ensures
        f.source@ == "inline"@ && f.content is Some ==> (r matches Ok(Stage::Write(s)) && s@
            == f.content->0@),
        f.source@ == "git"@ && f.url is Some ==> (r matches Ok(Stage::Clone(url, at)) && url@
            == f.url->0@ && (f.git_ref is Some ==> at@ == f.git_ref->0@) && (f.git_ref is None
            ==> at@ == "main"@)),
        f.source@ == "path"@ && f.path is Some ==> (r matches Ok(Stage::Copy(source)) && source@
            == f.path->0@),
        r is Ok ==> {
            ||| f.source@ == "inline"@ && f.content is Some
            ||| f.source@ == "git"@ && f.url is Some
            ||| f.source@ == "path"@ && f.path is Some
        },
{
    reveal_strlit("inline");
    reveal_strlit("git");
    reveal_strlit("path");
    assert("inline"@.len() != "git"@.len() && "inline"@.len() != "path"@.len() && "git"@.len()
        != "path"@.len());
}

/// Everything in the directory may be copied, and nothing outside it.
pub proof fn law_directory_may_be_copied(name: Seq<char>, place: Seq<char>)
    ensures
        may_copy("/var/lib/ae-vm-manager/files"@),
        may_copy("/var/lib/ae-vm-manager/files"@ + "/"@ + name),
        may_copy(place) ==> "/var/lib/ae-vm-manager/files"@.is_prefix_of(place),
{
    let p = host_directory() + "/"@;
    assert((p + name).subrange(0, p.len() as int) =~= p);
    if may_copy(place) {
        law_only_files_directory(place);
    }
}

/// A repository is cloned at the branch or tag that was named. Where there is none of that
/// name, it is cloned as it is, and what was named is then checked out, as a commit.
pub proof fn law_repository_is_cloned_as_named(c: CloneView)
    ensures
        clone_command(c) matches Some(cmd) ==> cmd.program == "git"@ && cmd.args.contains(c.dest),
        c.stage == CloneStage::Branch ==> (clone_command(c) matches Some(cmd) && cmd.required
            && cmd.args.contains(c.url) && cmd.args.contains(c.git_ref)),
        c.stage == CloneStage::Whole ==> (clone_command(c) matches Some(cmd) && cmd.required
            && cmd.args.contains(c.url)),
        c.stage == CloneStage::Checkout ==> (clone_command(c) matches Some(cmd) && !cmd.required
            && cmd.args.contains(c.git_ref)),
        c.stage == CloneStage::Done <==> clone_command(c) is None,
{
    match c.stage {
        CloneStage::Branch => {
            let args = clone_command(c)->0.args;
            assert(args[4] == c.git_ref && args[5] == c.url && args[6] == c.dest);
        },
        CloneStage::Whole => {
            let args = clone_command(c)->0.args;
            assert(args[3] == c.url && args[4] == c.dest);
        },
        CloneStage::Checkout => {
            let args = clone_command(c)->0.args;
            assert(args[1] == c.dest && args[3] == c.git_ref);
        },
        CloneStage::Done => {},
    }
}

/// Cloning goes on from the branch to the whole, and from there to the commit, and stops
/// where a clone succeeds or cannot be made. What is cloned, and where to, stays the same.
pub proof fn law_cloning_goes_on(c: CloneView, outcome: Outcome)
    ensures
        clone_after(c, outcome) matches Ok(next) ==> next.url == c.url && next.git_ref == c.git_ref
            && next.dest == c.dest,
        c.stage == CloneStage::Branch && outcome is Ran ==> (clone_after(c, outcome) matches Ok(
            next,
        ) && next.stage == (if outcome->Ran_0 {
            CloneStage::Done
        } else {
            CloneStage::Whole
        })),
        c.stage == CloneStage::Whole && outcome is Ran ==> (if outcome->Ran_0 {
            clone_after(c, outcome) matches Ok(next) && next.stage == CloneStage::Checkout
        } else {
            clone_after(c, outcome) is Err
        }),
        c.stage == CloneStage::Checkout ==> (clone_after(c, outcome) matches Ok(next) && next.stage
            == CloneStage::Done),
        outcome is NotRun && (c.stage == CloneStage::Branch || c.stage == CloneStage::Whole)
            ==> clone_after(c, outcome) is Err,
{
}

/// The size of files together is that of some of them and of the others.
pub proof fn law_sizes_add_up(a: Seq<u64>, b: Seq<u64>, n: u64)
    ensures
        sum_of(a + b) == sum_of(a) + sum_of(b),
        sum_of(seq![n]) == n,
        sum_of(Seq::<u64>::empty()) == 0,
    decreases b.len(),
{
    assert(seq![n].drop_last() =~= Seq::<u64>::empty());
    assert(sum_of(Seq::<u64>::empty()) == 0);
    assert(seq![n].last() == n);
    if b.len() == 0 {
        assert(a + b =~= a);
    } else {
        law_sizes_add_up(a, b.drop_last(), n);
        assert((a + b).drop_last() =~= a + b.drop_last());
        assert((a + b).last() == b.last());
    }
}

/// An image is mounted, all that is in the directory is copied to where it is mounted, and
/// it is unmounted from there; none of that may fail.
pub proof fn law_image_is_filled(image: Seq<char>, staging: Seq<char>, mount: Seq<char>)
    ensures
        ({
            let c = fill(image, staging, mount);
            &&& c.len() == 3
            &&& forall|i: int| 0 <= i < c.len() ==> (#[trigger] c[i]).required && c[i].program
                == "sudo"@
            &&& c[0].args.first() == "mount"@ && c[0].args.contains(image) && c[0].args.last()
                == mount
            &&& c[1].args.first() == "cp"@ && c[1].args.contains(staging + "/."@)
                && c[1].args.last() == mount + "/."@
            &&& c[2].args.first() == "umount"@ && c[2].args.last() == mount
        }),
{
    let c = fill(image, staging, mount);
    assert(c[0].args[3] == image);
    assert(c[1].args[2] == staging + "/."@);
}

/// Each machine has an image with files, and a place to mount it, of its own.
pub proof fn law_images_are_apart(a: &str, b: &str, x: String, y: String, m: String, n: String)
    requires
        a@ != b@,
        call_ensures(image_name, (a,), x),
        call_ensures(image_name, (b,), y),
        call_ensures(mount_point, (a,), m),
        call_ensures(mount_point, (b,), n),
    ensures
        x@ != y@,
        m@ != n@,
{
    let p = "ae-vm-files-"@;
    let k = p.len() as int;
    if x@ == y@ {
        assert(x@.len() == y@.len());
        assert(x@.subrange(k, k + a@.len()) =~= a@);
        assert(y@.subrange(k, k + b@.len()) =~= b@);
    }
    let q = "/tmp/ae-vm-mount-"@;
    if m@ == n@ {
        assert(m@.skip(q.len() as int) =~= a@);
        assert(n@.skip(q.len() as int) =~= b@);
    }
}

/// Going up from the top leads to the top; everything else is taken, one part after the
/// other.
pub proof fn law_only_going_up_from_the_top_is_left_out(parts: Seq<Seq<char>>, part: Seq<char>)
    ensures
        part != ".."@ ==> below_top(parts.push(part)) == below_top(parts).push(part),
        part == ".."@ && depth(below_top(parts)) > 0 ==> below_top(parts.push(part)) == below_top(
            parts,
        ).push(part),
        part == ".."@ && depth(below_top(parts)) == 0 ==> below_top(parts.push(part)) == below_top(
            parts,
        ),
{
    assert(parts.push(part).drop_last() =~= parts);
}

} // verus!
