//! The destination policy of copy and move: from the kinds of the source and
//! of the destination, decide whether the operation renames, nests the source
//! under the destination, or is refused.
use vstd::prelude::*;

verus! {

/// What a path names on the filesystem. Symbolic links are not followed.
#[derive(Clone, Copy, Debug, PartialEq, Eq, Structural)]
pub enum EntryKind {
    File,
    Directory,
    Symlink,
    Missing,
}

/// Why a copy or move was refused before anything was changed.
#[derive(Clone, Copy, Debug, PartialEq, Eq, Structural)]
pub enum RejectReason {
    /// The source does not exist.
    SourceMissing,
    /// A directory goes to a new path only with recursion.
    NeedsRecursive,
    /// A directory cannot replace an existing non-directory.
    DirectoryOverFile,
    /// The source has no last component to name the nested entry by.
    NoBasename,
}

/// Where a copy or move goes.
#[derive(Debug)]
pub enum Decision {
    /// To exactly this path.
    RenameTo(String),
    /// Into this existing directory, under this name.
    NestUnder(String, String),
    /// Nowhere.
    Rejected(RejectReason),
}

pub enum DecisionSpec {
    RenameTo(Seq<char>),
    NestUnder(Seq<char>, Seq<char>),
    Rejected(RejectReason),
}

impl View for Decision {
    type V = DecisionSpec;

    open spec fn view(&self) -> DecisionSpec {
        match self {
            Decision::RenameTo(p) => DecisionSpec::RenameTo(p@),
            Decision::NestUnder(d, b) => DecisionSpec::NestUnder(d@, b@),
            Decision::Rejected(r) => DecisionSpec::Rejected(*r),
        }
    }
}

/// The path without its trailing slashes.
/// The path without what names no further entry at its end: trailing
/// slashes and `.` components that follow a slash (`a/./` gives `a`).
/// A `.` that is the whole path stays.
pub open spec fn trim_tail(s: Seq<char>) -> Seq<char>
    decreases s.len(),
{
    if s.len() > 0 && s.last() == '/' {
        trim_tail(s.drop_last())
    } else if s.len() >= 2 && s.last() == '.' && s[s.len() - 2] == '/' {
        trim_tail(s.drop_last())
    } else {
        s
    }
}

/// What follows the last slash.
pub open spec fn last_component(s: Seq<char>) -> Seq<char>
    decreases s.len(),
{
    if s.len() == 0 || s.last() == '/' {
        Seq::empty()
    } else {
        last_component(s.drop_last()).push(s.last())
    }
}

/// The last component of a path, trailing slashes and `.` components
/// ignored: `a/b/` and `a/b/.` give `b`. It is empty for `/` and for the
/// empty path, `.` for `.`, and `..` for a path that ends in `..`.
pub open spec fn basename_spec(s: Seq<char>) -> Seq<char> {
    last_component(trim_tail(s))
}

/// A base name that can name a new entry: not empty, `.` or `..`. A path
/// has none exactly where it is empty, `.`, `/`, or ends in `..`, each
/// perhaps followed by slashes and `.` components.
pub open spec fn usable_name(b: Seq<char>) -> bool {
    b.len() > 0 && b != seq!['.'] && b != seq!['.', '.']
}

/// The decision table of copy and move.
pub open spec fn decide(
    source: Seq<char>,
    source_kind: EntryKind,
    destination: Seq<char>,
    destination_kind: EntryKind,
    recursive: bool,
) -> DecisionSpec {
    if source_kind == EntryKind::Missing {
        DecisionSpec::Rejected(RejectReason::SourceMissing)
    } else if destination_kind == EntryKind::Missing {
        if source_kind != EntryKind::Directory || recursive {
            DecisionSpec::RenameTo(destination)
        } else {
            DecisionSpec::Rejected(RejectReason::NeedsRecursive)
        }
    } else if destination_kind == EntryKind::Directory {
        if usable_name(basename_spec(source)) {
            DecisionSpec::NestUnder(destination, basename_spec(source))
        } else {
            DecisionSpec::Rejected(RejectReason::NoBasename)
        }
    } else if source_kind == EntryKind::Directory {
        DecisionSpec::Rejected(RejectReason::DirectoryOverFile)
    } else {
        DecisionSpec::RenameTo(destination)
    }
}

/// `name` placed in directory `dir`.
pub open spec fn join_spec(dir: Seq<char>, name: Seq<char>) -> Seq<char> {
    if dir.len() == 0 {
        name
    } else if dir.last() == '/' {
        dir + name
    } else {
        dir + seq!['/'] + name
    }
}

/// The last component of `path`, trailing slashes and `.` components
/// ignored (`a/b/` and `a/b/.` give `b`).
pub fn basename(path: &str) -> (r: String)
    ensures
        r@ == basename_spec(path@),
{
    let n = path.unicode_len();
    let mut e: usize = n;
    assert(path@.take(n as int) =~= path@);
    while e > 0 && (path.get_char(e - 1) == '/' || (e >= 2 && path.get_char(e - 1) == '.'
        && path.get_char(e - 2) == '/'))
        invariant
            n == path@.len(),
            e <= n,
            trim_tail(path@.take(e as int)) == trim_tail(path@),
        decreases e,
    {
        assert(path@.take(e as int).drop_last() =~= path@.take(e - 1));
        e = e - 1;
    }
    let ghost t = path@.take(e as int);
    assert(trim_tail(t) == t);
    let mut j: usize = e;
    assert(t.subrange(e as int, e as int) =~= Seq::<char>::empty());
    assert(t.take(e as int) =~= t);
    while j > 0 && path.get_char(j - 1) != '/'
        invariant
            n == path@.len(),
            j <= e <= n,
            t == path@.take(e as int),
            last_component(t) == last_component(t.take(j as int)) + path@.subrange(
                j as int,
                e as int,
            ),
        decreases j,
    {
        assert(t.take(j as int).drop_last() =~= t.take(j - 1));
        assert(path@.subrange(j - 1, e as int) =~= seq![path@[j - 1]] + path@.subrange(
            j as int,
            e as int,
        ));
        assert(last_component(t.take(j - 1)).push(path@[j - 1]) + path@.subrange(j as int, e as int)
            =~= last_component(t.take(j - 1)) + path@.subrange(j - 1, e as int));
        j = j - 1;
    }
    assert(last_component(t.take(j as int)) =~= Seq::<char>::empty());
    assert(Seq::<char>::empty() + path@.subrange(j as int, e as int) =~= path@.subrange(
        j as int,
        e as int,
    ));
    String::from_str(path.substring_char(j, e))
}

fn is_usable_name(b: &String) -> (r: bool)
    ensures
        r == usable_name(b@),
{
    let s = b.as_str();
    let n = s.unicode_len();
    if n == 0 {
        return false;
    }
    if n == 1 {
        let is_dot = s.get_char(0) == '.';
        assert(is_dot ==> b@ =~= seq!['.']);
        return !is_dot;
    }
    if n == 2 {
        let is_dots = s.get_char(0) == '.' && s.get_char(1) == '.';
        assert(is_dots ==> b@ =~= seq!['.', '.']);
        assert(!is_dots ==> b@ != seq!['.', '.']) by {
            if b@ == seq!['.', '.'] {
                assert(b@[0] == '.' && b@[1] == '.');
            }
        }
        return !is_dots;
    }
    true
}

/// Decides where a copy or move of `source` to `destination` goes, from
/// what each path names. Nothing is changed on the filesystem.
pub fn resolve(
    source: &str,
    source_kind: EntryKind,
    destination: &str,
    destination_kind: EntryKind,
    recursive: bool,
) -> (r: Decision)
    ensures
        r@ == decide(source@, source_kind, destination@, destination_kind, recursive),
{
    if source_kind == EntryKind::Missing {
        Decision::Rejected(RejectReason::SourceMissing)
    } else if destination_kind == EntryKind::Missing {
        if source_kind != EntryKind::Directory || recursive {
            Decision::RenameTo(String::from_str(destination))
        } else {
            Decision::Rejected(RejectReason::NeedsRecursive)
        }
    } else if destination_kind == EntryKind::Directory {
        let b = basename(source);
        if is_usable_name(&b) {
            Decision::NestUnder(String::from_str(destination), b)
        } else {
            Decision::Rejected(RejectReason::NoBasename)
        }
    } else if source_kind == EntryKind::Directory {
        Decision::Rejected(RejectReason::DirectoryOverFile)
    } else {
        Decision::RenameTo(String::from_str(destination))
    }
}

/// `name` placed in directory `dir`, with one slash between them.
pub fn join(dir: &str, name: &str) -> (r: String)
    ensures
        r@ == join_spec(dir@, name@),
{
    let n = dir.unicode_len();
    if n == 0 {
        String::from_str(name)
    } else if dir.get_char(n - 1) == '/' {
        String::from_str(dir).concat(name)
    } else {
        proof {
            reveal_strlit("/");
        }
        assert("/"@ =~= seq!['/']);
        String::from_str(dir).concat("/").concat(name)
    }
}

impl Decision {
    /// The path the operation writes to, where it is not refused.
    pub fn target(&self) -> (r: Option<String>)
        ensures
            match self@ {
                DecisionSpec::RenameTo(p) => r is Some && r->Some_0@ == p,
                DecisionSpec::NestUnder(d, b) => r is Some && r->Some_0@ == join_spec(d, b),
                DecisionSpec::Rejected(_) => r is None,
            },
    {
        match self {
            Decision::RenameTo(p) => Some(p.clone()),
            Decision::NestUnder(d, b) => Some(join(d.as_str(), b.as_str())),
            Decision::Rejected(_) => None,
        }
    }
}

/// A file resolved against an existing directory, without recursion, nests
/// under that directory under the file's own base name. The one exception is
/// a path that names no entry by its last component (`.`, `..`, `/`, the
/// empty path), which no file has: it is refused.
pub proof fn law_file_nests_under_directory(source: Seq<char>, destination: Seq<char>)
    ensures
        usable_name(basename_spec(source)) ==> decide(
            source,
            EntryKind::File,
            destination,
            EntryKind::Directory,
            false,
        ) == DecisionSpec::NestUnder(destination, basename_spec(source)),
        !usable_name(basename_spec(source)) ==> decide(
            source,
            EntryKind::File,
            destination,
            EntryKind::Directory,
            false,
        ) == DecisionSpec::Rejected(RejectReason::NoBasename),
{
}

/// A directory resolved against a missing path becomes that path with
/// recursion, and is refused without it.
pub proof fn law_directory_to_new_path(source: Seq<char>, destination: Seq<char>)
    ensures
        decide(source, EntryKind::Directory, destination, EntryKind::Missing, true)
            == DecisionSpec::RenameTo(destination),
        decide(source, EntryKind::Directory, destination, EntryKind::Missing, false) is Rejected,
{
}

} // verus!
