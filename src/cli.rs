//! Argument shapes of the commands: which words are options and which are
//! operands, and when an argument list is refused.
use vstd::prelude::*;

verus! {

/// Whether `s` is exactly the word `w`.
pub fn is_word(s: &str, w: &str) -> (r: bool)
    ensures
        r == (s@ == w@),
{
    let n = s.unicode_len();
    let m = w.unicode_len();
    if n != m {
        return false;
    }
    let mut i: usize = 0;
    while i < n
        invariant
            n == s@.len(),
            m == w@.len(),
            n == m,
            i <= n,
            s@.take(i as int) == w@.take(i as int),
        decreases n - i,
    {
        if s.get_char(i) != w.get_char(i) {
            assert(s@[i as int] != w@[i as int]);
            return false;
        }
        assert(s@.take(i + 1) =~= s@.take(i as int).push(s@[i as int]));
        assert(w@.take(i + 1) =~= w@.take(i as int).push(w@[i as int]));
        i = i + 1;
    }
    assert(s@.take(n as int) =~= s@);
    assert(w@.take(n as int) =~= w@);
    true
}

pub open spec fn is_recursive_flag(a: Seq<char>) -> bool {
    a == "-r"@ || a == "-R"@ || a == "--recursive"@
}

pub open spec fn is_dir_flag(a: Seq<char>) -> bool {
    a == "-d"@ || a == "--dir"@
}

pub open spec fn is_rm_flag(a: Seq<char>) -> bool {
    is_recursive_flag(a) || is_dir_flag(a)
}

fn recursive_flag(a: &str) -> (r: bool)
    ensures
        r == is_recursive_flag(a@),
{
    is_word(a, "-r") || is_word(a, "-R") || is_word(a, "--recursive")
}

fn dir_flag(a: &str) -> (r: bool)
    ensures
        r == is_dir_flag(a@),
{
    is_word(a, "-d") || is_word(a, "--dir")
}

/// The arguments of `rm` that are not options, in order.
pub open spec fn rm_paths(args: Seq<String>) -> Seq<String>
    decreases args.len(),
{
    if args.len() == 0 {
        Seq::empty()
    } else if is_rm_flag(args.last()@) {
        rm_paths(args.drop_last())
    } else {
        rm_paths(args.drop_last()).push(args.last())
    }
}

/// The arguments of `rm`: `-r`, `-R` or `--recursive` anywhere asks for
/// recursion, `-d` or `--dir` for removal of empty directories. Every path
/// is walked and counted (see `TraversalOutcome`) whatever the options, so
/// with both `-r` and `-d` too, `rm` fails unless every path was removed.
#[derive(Debug)]
pub struct RmArgs {
    pub recursive: bool,
    pub dir_only: bool,
    pub paths: Vec<String>,
}

/// Splits the arguments of `rm`; refused where no path is given.
pub fn parse_rm(args: &Vec<String>) -> (r: Option<RmArgs>)
    ensures
        match r {
            Some(o) => {
                &&& rm_paths(args@).len() > 0
                &&& o.paths@ == rm_paths(args@)
                &&& o.recursive == exists|i: int|
                    0 <= i < args@.len() && is_recursive_flag(#[trigger] args@[i]@)
                &&& o.dir_only == exists|i: int| 0 <= i < args@.len() && is_dir_flag(#[trigger] args@[i]@)
            },
            None => rm_paths(args@).len() == 0,
        },
{
    let mut recursive = false;
    let mut dir_only = false;
    let mut paths: Vec<String> = Vec::new();
    let mut i: usize = 0;
    while i < args.len()
        invariant
            i <= args@.len(),
            paths@ == rm_paths(args@.take(i as int)),
            recursive == exists|k: int| 0 <= k < i && is_recursive_flag(#[trigger] args@[k]@),
            dir_only == exists|k: int| 0 <= k < i && is_dir_flag(#[trigger] args@[k]@),
        decreases args@.len() - i,
    {
        let a = args[i].as_str();
        assert(args@.take(i + 1).drop_last() =~= args@.take(i as int));
        assert(args@.take(i + 1).last() == args@[i as int]);
        let r = recursive_flag(a);
        let d = dir_flag(a);
        if r {
            recursive = true;
        }
        if d {
            dir_only = true;
        }
        if !r && !d {
            paths.push(args[i].clone());
        }
        i = i + 1;
    }
    assert(args@.take(i as int) =~= args@);
    if paths.len() == 0 {
        return None;
    }
    Some(RmArgs { recursive, dir_only, paths })
}

pub open spec fn is_all_flag(a: Seq<char>) -> bool {
    a == "-a"@ || a == "--all"@
}

pub open spec fn is_ls_recursive_flag(a: Seq<char>) -> bool {
    a == "-R"@ || a == "--recursive"@
}

/// The last argument of `ls` that is not an option.
pub open spec fn ls_path(args: Seq<String>) -> Option<String>
    decreases args.len(),
{
    if args.len() == 0 {
        None
    } else if is_all_flag(args.last()@) || is_ls_recursive_flag(args.last()@) {
        ls_path(args.drop_last())
    } else {
        Some(args.last())
    }
}

/// The arguments of `ls`: `-a` or `--all` shows hidden entries, `-R` or
/// `--recursive` descends; the last other word is the path to list.
#[derive(Debug)]
pub struct LsArgs {
    pub show_hidden: bool,
    pub recursive: bool,
    pub path: Option<String>,
}

pub fn parse_ls(args: &Vec<String>) -> (r: LsArgs)
    ensures
        r.show_hidden == exists|i: int| 0 <= i < args@.len() && is_all_flag(#[trigger] args@[i]@),
        r.recursive == exists|i: int|
            0 <= i < args@.len() && is_ls_recursive_flag(#[trigger] args@[i]@),
        r.path == ls_path(args@),
{
    let mut show_hidden = false;
    let mut recursive = false;
    let mut path: Option<String> = None;
    let mut i: usize = 0;
    while i < args.len()
        invariant
            i <= args@.len(),
            path == ls_path(args@.take(i as int)),
            show_hidden == exists|k: int| 0 <= k < i && is_all_flag(#[trigger] args@[k]@),
            recursive == exists|k: int| 0 <= k < i && is_ls_recursive_flag(#[trigger] args@[k]@),
        decreases args@.len() - i,
    {
        let a = args[i].as_str();
        assert(args@.take(i + 1).drop_last() =~= args@.take(i as int));
        assert(args@.take(i + 1).last() == args@[i as int]);
        let h = is_word(a, "-a") || is_word(a, "--all");
        let r = is_word(a, "-R") || is_word(a, "--recursive");
        if h {
            show_hidden = true;
        }
        if r {
            recursive = true;
        }
        if !h && !r {
            path = Some(args[i].clone());
        }
        i = i + 1;
    }
    assert(args@.take(i as int) =~= args@);
    LsArgs { show_hidden, recursive, path }
}

/// The operands of `cp`, after an optional leading `-R`, `-r` or
/// `--recursive`.
#[derive(Debug)]
pub struct CpArgs {
    pub recursive: bool,
    pub source: String,
    pub destination: String,
}

/// Splits the arguments of `cp`: the source follows the option, if any, and
/// the destination is the last word. Refused where no source and
/// destination remain.
pub fn parse_cp(args: &Vec<String>) -> (r: Option<CpArgs>)
    ensures
        match r {
            Some(o) => {
                let rec = args@.len() > 0 && is_recursive_flag(args@[0]@);
                let first = if rec {
                    1int
                } else {
                    0int
                };
                &&& args@.len() >= first + 2
                &&& o.recursive == rec
                &&& o.source == args@[first]
                &&& o.destination == args@[args@.len() - 1]
            },
            None => args@.len() < 2 || (is_recursive_flag(args@[0]@) && args@.len() < 3),
        },
{
    if args.len() < 2 {
        return None;
    }
    let recursive = recursive_flag(args[0].as_str());
    let first: usize = if recursive {
        1
    } else {
        0
    };
    if args.len() < first + 2 {
        return None;
    }
    Some(
        CpArgs {
            recursive,
            source: args[first].clone(),
            destination: args[args.len() - 1].clone(),
        },
    )
}

/// The operands of `ln`.
#[derive(Debug)]
pub struct LnArgs {
    pub symbolic: bool,
    pub source: String,
    pub link: String,
}

pub open spec fn is_symbolic_flag(a: Seq<char>) -> bool {
    a == "-s"@ || a == "--symbolic"@
}

/// Splits the arguments of `ln`: a source and a link name make a hard link;
/// `-s` or `--symbolic` before them makes a symbolic one. Anything else is
/// refused.
pub fn parse_ln(args: &Vec<String>) -> (r: Option<LnArgs>)
    ensures
        match r {
            Some(o) => (args@.len() == 2 && !o.symbolic && o.source == args@[0] && o.link
                == args@[1]) || (args@.len() == 3 && is_symbolic_flag(args@[0]@) && o.symbolic
                && o.source == args@[1] && o.link == args@[2]),
            None => !(args@.len() == 2 || (args@.len() == 3 && is_symbolic_flag(args@[0]@))),
        },
{
    if args.len() == 2 {
        Some(LnArgs { symbolic: false, source: args[0].clone(), link: args[1].clone() })
    } else if args.len() == 3 && (is_word(args[0].as_str(), "-s") || is_word(
        args[0].as_str(),
        "--symbolic",
    )) {
        Some(LnArgs { symbolic: true, source: args[1].clone(), link: args[2].clone() })
    } else {
        None
    }
}

/// The operands of `chmod`.
#[derive(Debug)]
pub struct ChmodArgs {
    pub mode: String,
    pub target: String,
}

/// Splits the arguments of `chmod`: exactly a mode expression and a path,
/// where the expression does not start like an option.
pub fn parse_chmod(args: &Vec<String>) -> (r: Option<ChmodArgs>)
    ensures
        match r {
            Some(o) => args@.len() == 2 && !(args@[0]@.len() > 0 && args@[0]@[0] == '-') && o.mode
                == args@[0] && o.target == args@[1],
            None => args@.len() != 2 || (args@[0]@.len() > 0 && args@[0]@[0] == '-'),
        },
{
    if args.len() != 2 {
        return None;
    }
    let m = args[0].as_str();
    if m.unicode_len() > 0 && m.get_char(0) == '-' {
        return None;
    }
    Some(ChmodArgs { mode: args[0].clone(), target: args[1].clone() })
}

/// The arguments of `touch`: `-a` opens for access, `-c` or `--no-create`
/// never creates, `-m` truncates; the last other word is the file.
#[derive(Debug)]
pub struct TouchArgs {
    pub access_only: bool,
    pub create: bool,
    pub modify_only: bool,
    pub file: Option<String>,
}

pub open spec fn is_touch_flag(a: Seq<char>) -> bool {
    a == "-a"@ || a == "-c"@ || a == "--no-create"@ || a == "-m"@
}

/// The last argument of `touch` that is not an option.
pub open spec fn touch_file(args: Seq<String>) -> Option<String>
    decreases args.len(),
{
    if args.len() == 0 {
        None
    } else if is_touch_flag(args.last()@) {
        touch_file(args.drop_last())
    } else {
        Some(args.last())
    }
}

pub fn parse_touch(args: &Vec<String>) -> (r: TouchArgs)
    ensures
        r.access_only == exists|i: int| 0 <= i < args@.len() && #[trigger] args@[i]@ == "-a"@,
        r.modify_only == exists|i: int| 0 <= i < args@.len() && #[trigger] args@[i]@ == "-m"@,
        r.create == !exists|i: int|
            0 <= i < args@.len() && (#[trigger] args@[i]@ == "-c"@ || args@[i]@ == "--no-create"@),
        r.file == touch_file(args@),
{
    let mut access_only = false;
    let mut create = true;
    let mut modify_only = false;
    let mut file: Option<String> = None;
    let mut i: usize = 0;
    while i < args.len()
        invariant
            i <= args@.len(),
            file == touch_file(args@.take(i as int)),
            access_only == exists|k: int| 0 <= k < i && #[trigger] args@[k]@ == "-a"@,
            modify_only == exists|k: int| 0 <= k < i && #[trigger] args@[k]@ == "-m"@,
            create == !exists|k: int|
                0 <= k < i && (#[trigger] args@[k]@ == "-c"@ || args@[k]@ == "--no-create"@),
        decreases args@.len() - i,
    {
        let a = args[i].as_str();
        assert(args@.take(i + 1).drop_last() =~= args@.take(i as int));
        assert(args@.take(i + 1).last() == args@[i as int]);
        let is_a = is_word(a, "-a");
        let is_c = is_word(a, "-c") || is_word(a, "--no-create");
        let is_m = is_word(a, "-m");
        if is_a {
            access_only = true;
        }
        if is_c {
            create = false;
        }
        if is_m {
            modify_only = true;
        }
        if !is_a && !is_c && !is_m {
            file = Some(args[i].clone());
        }
        i = i + 1;
    }
    assert(args@.take(i as int) =~= args@);
    TouchArgs { access_only, create, modify_only, file }
}

/// The words separated by single spaces.
pub open spec fn joined(words: Seq<String>) -> Seq<char>
    decreases words.len(),
{
    if words.len() == 0 {
        Seq::empty()
    } else if words.len() == 1 {
        words[0]@
    } else {
        joined(words.drop_last()) + seq![' '] + words.last()@
    }
}

/// What `echo` writes: the words joined by spaces and a newline, or, after
/// a leading `-n`, the remaining words without the newline.
pub open spec fn echo_spec(args: Seq<String>) -> Seq<char> {
    if args.len() > 0 && args[0]@ == "-n"@ {
        joined(args.drop_first())
    } else {
        joined(args) + seq!['\n']
    }
}

fn join_words(args: &Vec<String>, from: usize) -> (r: String)
    requires
        from <= args@.len(),
    ensures
        r@ == joined(args@.subrange(from as int, args@.len() as int)),
{
    let mut out = String::new();
    let mut i: usize = from;
    assert(args@.subrange(from as int, from as int) =~= Seq::<String>::empty());
    while i < args.len()
        invariant
            from <= i <= args@.len(),
            out@ == joined(args@.subrange(from as int, i as int)),
        decreases args@.len() - i,
    {
        let ghost prev = args@.subrange(from as int, i as int);
        let ghost next = args@.subrange(from as int, i + 1);
        assert(next.drop_last() =~= prev);
        if i == from {
            assert(next =~= seq![args@[i as int]]);
            out = out.concat(args[i].as_str());
            assert(out@ =~= joined(next));
        } else {
            proof {
                reveal_strlit(" ");
            }
            assert(" "@ =~= seq![' ']);
            out = out.concat(" ").concat(args[i].as_str());
            assert(out@ =~= joined(next));
        }
        i = i + 1;
    }
    out
}

/// The text `echo` writes for its arguments.
pub fn echo_text(args: &Vec<String>) -> (r: String)
    ensures
        r@ == echo_spec(args@),
{
    if args.len() > 0 && is_word(args[0].as_str(), "-n") {
        assert(args@.subrange(1, args@.len() as int) =~= args@.drop_first());
        join_words(args, 1)
    } else {
        proof {
            reveal_strlit("\n");
        }
        assert("\n"@ =~= seq!['\n']);
        assert(args@.subrange(0, args@.len() as int) =~= args@);
        join_words(args, 0).concat("\n")
    }
}

} // verus!
