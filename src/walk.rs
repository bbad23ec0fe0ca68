//! Recursive tree operations. A snapshot of the tree below a root, read once
//! per directory, is turned into the ordered list of filesystem operations
//! that deletes, copies or lists it; the caller performs them in order and
//! records each result in a `TraversalOutcome`.
use vstd::prelude::*;
use crate::dest::{EntryKind, join, join_spec};

verus! {

broadcast use vstd::std_specs::vec::group_vec_axioms, vstd::seq::group_seq_axioms;

/// The failures of the file commands.
#[derive(Clone, Copy, Debug, PartialEq, Eq, Structural)]
pub enum FsError {
    NotFound,
    AlreadyExists,
    NotADirectory,
    IsADirectory,
    DirectoryNotEmpty,
    InvalidModeExpression,
    /// For instance, deleting a directory without recursion.
    UnsupportedOperation,
    /// A failure the filesystem reported.
    Underlying,
}

/// An entry of a snapshot: its name within its parent, its kind, and, for a
/// directory, its children in the order the filesystem listed them. A plan
/// names each entry by its parent's path joined with its name, so with names
/// as a directory listing gives them (one component, never `.` or `..`) the
/// paths that begin with the root (see `law_walk_stays_below_roots`) lie
/// below it.
#[derive(Debug)]
pub struct Node {
    pub name: String,
    pub kind: EntryKind,
    pub children: Vec<Node>,
}

/// What a walk does at each entry.
#[derive(Debug)]
pub enum Action {
    /// Remove entries; without recursion, a directory goes only where
    /// `empty_dirs` is set and it has no children.
    Delete { empty_dirs: bool },
    /// Copy entries below this destination root.
    Copy(String),
    /// Print names, hidden ones (a leading `.`) only where `show_hidden` is set.
    List { show_hidden: bool },
}

/// One filesystem operation of a plan.
#[derive(Debug)]
pub enum Op {
    RemoveFile(String),
    RemoveDir(String),
    /// Create the directory where it does not exist yet.
    CreateDir(String),
    /// Copy the bytes and permissions of a file.
    CopyFile(String, String),
    /// Write one line of output.
    Print(String),
}

pub enum OpSpec {
    RemoveFile(Seq<char>),
    RemoveDir(Seq<char>),
    CreateDir(Seq<char>),
    CopyFile(Seq<char>, Seq<char>),
    Print(Seq<char>),
}

impl View for Op {
    type V = OpSpec;

    open spec fn view(&self) -> OpSpec {
        match self {
            Op::RemoveFile(p) => OpSpec::RemoveFile(p@),
            Op::RemoveDir(p) => OpSpec::RemoveDir(p@),
            Op::CreateDir(p) => OpSpec::CreateDir(p@),
            Op::CopyFile(a, b) => OpSpec::CopyFile(a@, b@),
            Op::Print(l) => OpSpec::Print(l@),
        }
    }
}

pub open spec fn ops_view(ops: Seq<Op>) -> Seq<OpSpec> {
    ops.map_values(|o: Op| o@)
}

/// The removal of one entry.
pub open spec fn removal(path: Seq<char>, node: Node) -> OpSpec {
    if node.kind == EntryKind::Directory {
        OpSpec::RemoveDir(path)
    } else {
        OpSpec::RemoveFile(path)
    }
}

/// Deleting a subtree: the children's subtrees in order, then the entry
/// itself, so that a directory goes only once it is empty.
pub open spec fn delete_ops(path: Seq<char>, node: Node) -> Seq<OpSpec>
    decreases node, 1int,
{
    if node.kind == EntryKind::Directory {
        delete_children(path, node.children@) + seq![removal(path, node)]
    } else {
        seq![removal(path, node)]
    }
}

pub open spec fn delete_children(path: Seq<char>, cs: Seq<Node>) -> Seq<OpSpec>
    decreases cs, 0int,
{
    if cs.len() == 0 {
        Seq::empty()
    } else {
        delete_children(path, cs.drop_last()) + delete_ops(join_spec(path, cs.last().name@), cs.last())
    }
}

proof fn lemma_ops_view_push(ops: Seq<Op>, o: Op)
    ensures
        ops_view(ops.push(o)) == ops_view(ops).push(o@),
{
    assert(ops_view(ops.push(o)) =~= ops_view(ops).push(o@));
}

fn push_op(ops: &mut Vec<Op>, o: Op)
    ensures
        ops_view(final(ops)@) == ops_view(old(ops)@) + seq![o@],
{
    let ghost prev = ops@;
    ops.push(o);
    proof {
        lemma_ops_view_push(prev, o);
        assert(ops_view(prev).push(o@) =~= ops_view(prev) + seq![o@]);
    }
}

fn removal_of(path: &String, node: &Node) -> (r: Op)
    ensures
        r@ == removal(path@, *node),
{
    if node.kind == EntryKind::Directory {
        Op::RemoveDir(path.clone())
    } else {
        Op::RemoveFile(path.clone())
    }
}

/// Appends the deletion of the subtree at `node`, found at `path`.
fn push_delete(path: &String, node: &Node, ops: &mut Vec<Op>)
    ensures
        ops_view(final(ops)@) == ops_view(old(ops)@) + delete_ops(path@, *node),
    decreases node,
{
    if node.kind == EntryKind::Directory {
        let ghost start = ops_view(ops@);
        let mut i: usize = 0;
        while i < node.children.len()
            invariant
                i <= node.children@.len(),
                ops_view(ops@) == start + delete_children(path@, node.children@.take(i as int)),
            decreases node.children@.len() - i,
        {
            let child = &node.children[i];
            let child_path = join(path.as_str(), child.name.as_str());
            let ghost before = ops_view(ops@);
            push_delete(&child_path, child, ops);
            proof {
                assert(node.children@.take(i + 1).drop_last() =~= node.children@.take(i as int));
                assert(node.children@.take(i + 1).last() == *child);
                assert(start + delete_children(path@, node.children@.take(i + 1)) =~= before
                    + delete_ops(child_path@, *child));
            }
            i = i + 1;
        }
        assert(node.children@.take(i as int) =~= node.children@);
        push_op(ops, removal_of(path, node));
        assert(ops_view(ops@) =~= start + delete_ops(path@, *node));
    } else {
        push_op(ops, removal_of(path, node));
    }
}

/// Copying a subtree: a directory is created before its children are
/// copied into it.
pub open spec fn copy_ops(from: Seq<char>, to: Seq<char>, node: Node) -> Seq<OpSpec>
    decreases node, 1int,
{
    if node.kind == EntryKind::Directory {
        seq![OpSpec::CreateDir(to)] + copy_children(from, to, node.children@)
    } else {
        seq![OpSpec::CopyFile(from, to)]
    }
}

pub open spec fn copy_children(from: Seq<char>, to: Seq<char>, cs: Seq<Node>) -> Seq<OpSpec>
    decreases cs, 0int,
{
    if cs.len() == 0 {
        Seq::empty()
    } else {
        copy_children(from, to, cs.drop_last()) + copy_ops(
            join_spec(from, cs.last().name@),
            join_spec(to, cs.last().name@),
            cs.last(),
        )
    }
}

fn push_copy(from: &String, to: &String, node: &Node, ops: &mut Vec<Op>)
    ensures
        ops_view(final(ops)@) == ops_view(old(ops)@) + copy_ops(from@, to@, *node),
    decreases node,
{
    if node.kind == EntryKind::Directory {
        let ghost start = ops_view(ops@);
        push_op(ops, Op::CreateDir(to.clone()));
        let mut i: usize = 0;
        while i < node.children.len()
            invariant
                i <= node.children@.len(),
                ops_view(ops@) == start + seq![OpSpec::CreateDir(to@)] + copy_children(
                    from@,
                    to@,
                    node.children@.take(i as int),
                ),
            decreases node.children@.len() - i,
        {
            let child = &node.children[i];
            let child_from = join(from.as_str(), child.name.as_str());
            let child_to = join(to.as_str(), child.name.as_str());
            let ghost before = ops_view(ops@);
            push_copy(&child_from, &child_to, child, ops);
            proof {
                assert(node.children@.take(i + 1).drop_last() =~= node.children@.take(i as int));
                assert(node.children@.take(i + 1).last() == *child);
                assert(start + seq![OpSpec::CreateDir(to@)] + copy_children(
                    from@,
                    to@,
                    node.children@.take(i + 1),
                ) =~= before + copy_ops(child_from@, child_to@, *child));
            }
            i = i + 1;
        }
        assert(node.children@.take(i as int) =~= node.children@);
        assert(ops_view(ops@) =~= start + copy_ops(from@, to@, *node));
    } else {
        push_op(ops, Op::CopyFile(from.clone(), to.clone()));
    }
}

pub open spec fn is_hidden(name: Seq<char>) -> bool {
    name.len() > 0 && name[0] == '.'
}

pub open spec fn shown(name: Seq<char>, show_hidden: bool) -> bool {
    show_hidden || !is_hidden(name)
}

/// The names of the children that are shown, in order.
pub open spec fn list_names(cs: Seq<Node>, show_hidden: bool) -> Seq<OpSpec>
    decreases cs.len(),
{
    if cs.len() == 0 {
        Seq::empty()
    } else {
        list_names(cs.drop_last(), show_hidden) + if shown(cs.last().name@, show_hidden) {
            seq![OpSpec::Print(cs.last().name@)]
        } else {
            Seq::empty()
        }
    }
}

/// Listing a subtree. A file prints its path. A directory prints, in order:
/// its path and a colon where the listing is recursive; `.` and `..` where
/// hidden entries are shown; the names of its shown children; and, where
/// the listing is recursive, the listing of each shown child directory.
pub open spec fn list_ops(path: Seq<char>, node: Node, show_hidden: bool, recursive: bool) -> Seq<
    OpSpec,
>
    decreases node, 1int,
{
    if node.kind != EntryKind::Directory {
        seq![OpSpec::Print(path)]
    } else {
        (if recursive {
            seq![OpSpec::Print(path + seq![':'])]
        } else {
            Seq::empty()
        }) + (if show_hidden {
            seq![OpSpec::Print(seq!['.']), OpSpec::Print(seq!['.', '.'])]
        } else {
            Seq::empty()
        }) + list_names(node.children@, show_hidden) + (if recursive {
            list_subdirs(path, node.children@, show_hidden)
        } else {
            Seq::empty()
        })
    }
}

pub open spec fn list_subdirs(path: Seq<char>, cs: Seq<Node>, show_hidden: bool) -> Seq<OpSpec>
    decreases cs, 0int,
{
    if cs.len() == 0 {
        Seq::empty()
    } else {
        list_subdirs(path, cs.drop_last(), show_hidden) + if shown(cs.last().name@, show_hidden)
            && cs.last().kind == EntryKind::Directory {
            list_ops(join_spec(path, cs.last().name@), cs.last(), show_hidden, true)
        } else {
            Seq::empty()
        }
    }
}

fn is_shown(name: &String, show_hidden: bool) -> (r: bool)
    ensures
        r == shown(name@, show_hidden),
{
    if show_hidden {
        return true;
    }
    let s = name.as_str();
    !(s.unicode_len() > 0 && s.get_char(0) == '.')
}

fn push_names(node: &Node, show_hidden: bool, ops: &mut Vec<Op>)
    ensures
        ops_view(final(ops)@) == ops_view(old(ops)@) + list_names(node.children@, show_hidden),
{
    let ghost start = ops_view(ops@);
    let mut i: usize = 0;
    while i < node.children.len()
        invariant
            i <= node.children@.len(),
            ops_view(ops@) == start + list_names(node.children@.take(i as int), show_hidden),
        decreases node.children@.len() - i,
    {
        let child = &node.children[i];
        proof {
            assert(node.children@.take(i + 1).drop_last() =~= node.children@.take(i as int));
            assert(node.children@.take(i + 1).last() == *child);
        }
        if is_shown(&child.name, show_hidden) {
            push_op(ops, Op::Print(child.name.clone()));
            assert(ops_view(ops@) =~= start + list_names(node.children@.take(i + 1), show_hidden));
        } else {
            assert(ops_view(ops@) =~= start + list_names(node.children@.take(i + 1), show_hidden));
        }
        i = i + 1;
    }
    assert(node.children@.take(i as int) =~= node.children@);
}

fn push_list(path: &String, node: &Node, show_hidden: bool, recursive: bool, ops: &mut Vec<Op>)
    ensures
        ops_view(final(ops)@) == ops_view(old(ops)@) + list_ops(
            path@,
            *node,
            show_hidden,
            recursive,
        ),
    decreases node,
{
    if node.kind != EntryKind::Directory {
        push_op(ops, Op::Print(path.clone()));
        return ;
    }
    let ghost start = ops_view(ops@);
    if recursive {
        proof {
            reveal_strlit(":");
        }
        assert(":"@ =~= seq![':']);
        push_op(ops, Op::Print(path.clone().concat(":")));
    }
    let ghost after_header = ops_view(ops@);
    if show_hidden {
        proof {
            reveal_strlit(".");
            reveal_strlit("..");
        }
        assert("."@ =~= seq!['.']);
        assert(".."@ =~= seq!['.', '.']);
        push_op(ops, Op::Print(String::from_str(".")));
        push_op(ops, Op::Print(String::from_str("..")));
    }
    let ghost after_dots = ops_view(ops@);
    push_names(node, show_hidden, ops);
    let ghost after_names = ops_view(ops@);
    if recursive {
        let mut i: usize = 0;
        while i < node.children.len()
            invariant
                i <= node.children@.len(),
                ops_view(ops@) == after_names + list_subdirs(
                    path@,
                    node.children@.take(i as int),
                    show_hidden,
                ),
            decreases node.children@.len() - i,
        {
            let child = &node.children[i];
            proof {
                assert(node.children@.take(i + 1).drop_last() =~= node.children@.take(i as int));
                assert(node.children@.take(i + 1).last() == *child);
            }
            let ghost before = ops_view(ops@);
            if is_shown(&child.name, show_hidden) && child.kind == EntryKind::Directory {
                let child_path = join(path.as_str(), child.name.as_str());
                push_list(&child_path, child, show_hidden, true, ops);
                assert(ops_view(ops@) =~= after_names + list_subdirs(
                    path@,
                    node.children@.take(i + 1),
                    show_hidden,
                ));
            } else {
                assert(ops_view(ops@) =~= after_names + list_subdirs(
                    path@,
                    node.children@.take(i + 1),
                    show_hidden,
                ));
            }
            i = i + 1;
        }
        assert(node.children@.take(i as int) =~= node.children@);
    }
    assert(ops_view(ops@) =~= start + list_ops(path@, *node, show_hidden, recursive));
}

/// What walking the tree below `root` amounts to: the operations to perform
/// in order, or the failure that stops the walk before anything is changed.
pub open spec fn walk_spec(root: Seq<char>, node: Node, recursive: bool, action: Action) -> Result<
    Seq<OpSpec>,
    FsError,
> {
    if node.kind == EntryKind::Missing {
        Err(FsError::NotFound)
    } else {
        match action {
            Action::Delete { empty_dirs } => if node.kind == EntryKind::Directory && !recursive {
                if !empty_dirs {
                    Err(FsError::UnsupportedOperation)
                } else if node.children@.len() > 0 {
                    Err(FsError::DirectoryNotEmpty)
                } else {
                    Ok(seq![OpSpec::RemoveDir(root)])
                }
            } else {
                Ok(delete_ops(root, node))
            },
            Action::Copy(to) => if node.kind == EntryKind::Directory && !recursive {
                Err(FsError::UnsupportedOperation)
            } else {
                Ok(copy_ops(root, to@, node))
            },
            Action::List { show_hidden } => Ok(list_ops(root, node, show_hidden, recursive)),
        }
    }
}

/// Plans a delete, copy or listing of the tree `node` found at `root`.
pub fn walk(root: &str, node: &Node, recursive: bool, action: &Action) -> (r: Result<
    Vec<Op>,
    FsError,
>)
    ensures
        match r {
            Ok(ops) => walk_spec(root@, *node, recursive, *action) == Ok::<
                Seq<OpSpec>,
                FsError,
            >(ops_view(ops@)),
            Err(e) => walk_spec(root@, *node, recursive, *action) == Err::<Seq<OpSpec>, FsError>(
                e,
            ),
        },
{
    if node.kind == EntryKind::Missing {
        return Err(FsError::NotFound);
    }
    let path = String::from_str(root);
    let mut ops: Vec<Op> = Vec::new();
    assert(ops_view(ops@) =~= Seq::<OpSpec>::empty());
    match action {
        Action::Delete { empty_dirs } => {
            if node.kind == EntryKind::Directory && !recursive {
                if !*empty_dirs {
                    return Err(FsError::UnsupportedOperation);
                } else if node.children.len() > 0 {
                    return Err(FsError::DirectoryNotEmpty);
                }
                push_op(&mut ops, Op::RemoveDir(path));
            } else {
                push_delete(&path, node, &mut ops);
            }
        },
        Action::Copy(to) => {
            if node.kind == EntryKind::Directory && !recursive {
                return Err(FsError::UnsupportedOperation);
            }
            push_copy(&path, to, node, &mut ops);
        },
        Action::List { show_hidden } => {
            push_list(&path, node, *show_hidden, recursive, &mut ops);
        },
    }
    assert(Seq::<OpSpec>::empty() + walk_spec(root@, *node, recursive, *action)->Ok_0
        =~= walk_spec(root@, *node, recursive, *action)->Ok_0);
    Ok(ops)
}

/// Plans the removal of a directory that must be empty, refusing anything
/// else: a missing path, a non-directory, a directory with entries.
pub fn plan_rmdir(path: &str, node: &Node) -> (r: Result<Vec<Op>, FsError>)
    ensures
        match r {
            Ok(ops) => node.kind == EntryKind::Directory && node.children@.len() == 0 && ops_view(
                ops@,
            ) == seq![OpSpec::RemoveDir(path@)],
            Err(e) => {
                &&& !(node.kind == EntryKind::Directory && node.children@.len() == 0)
                &&& e == if node.kind == EntryKind::Missing {
                    FsError::NotFound
                } else if node.kind != EntryKind::Directory {
                    FsError::NotADirectory
                } else {
                    FsError::DirectoryNotEmpty
                }
            },
        },
{
    if node.kind == EntryKind::Missing {
        return Err(FsError::NotFound);
    }
    if node.kind != EntryKind::Directory {
        return Err(FsError::NotADirectory);
    }
    walk(path, node, false, &Action::Delete { empty_dirs: true })
}

/// An address names an entry below a root by the child index taken at each
/// level; the empty address names the root.
pub open spec fn valid_addr(node: Node, addr: Seq<int>) -> bool
    decreases addr.len(),
{
    addr.len() == 0 || (valid_addr(node, addr.drop_last()) && node_at(
        node,
        addr.drop_last(),
    ).kind == EntryKind::Directory && 0 <= addr.last() < node_at(
        node,
        addr.drop_last(),
    ).children@.len())
}

/// The entry at an address.
pub open spec fn node_at(node: Node, addr: Seq<int>) -> Node
    decreases addr.len(),
{
    if addr.len() == 0 {
        node
    } else {
        let parent = node_at(node, addr.drop_last());
        if 0 <= addr.last() < parent.children@.len() {
            parent.children@[addr.last()]
        } else {
            parent
        }
    }
}

/// The path of the entry at an address.
pub open spec fn path_at(root: Seq<char>, node: Node, addr: Seq<int>) -> Seq<char>
    decreases addr.len(),
{
    if addr.len() == 0 {
        root
    } else {
        join_spec(path_at(root, node, addr.drop_last()), node_at(node, addr).name@)
    }
}

/// Where the deletion of the subtree at an address begins in the deletion of
/// the whole tree.
pub open spec fn block_start(root: Seq<char>, node: Node, addr: Seq<int>) -> int
    decreases addr.len(),
{
    if addr.len() == 0 {
        0
    } else {
        let parent = node_at(node, addr.drop_last());
        block_start(root, node, addr.drop_last()) + delete_children(
            path_at(root, node, addr.drop_last()),
            parent.children@.take(addr.last()),
        ).len()
    }
}

/// The index of the operation that removes the entry at an address.
pub open spec fn removal_index(root: Seq<char>, node: Node, addr: Seq<int>) -> int {
    block_start(root, node, addr) + delete_ops(path_at(root, node, addr), node_at(node, addr)).len()
        - 1
}

proof fn lemma_delete_ops_nonempty(path: Seq<char>, node: Node)
    ensures
        delete_ops(path, node).len() >= 1,
{
}

proof fn lemma_delete_children_prefix(path: Seq<char>, cs: Seq<Node>, m: int)
    requires
        0 <= m <= cs.len(),
    ensures
        delete_children(path, cs.take(m)).len() <= delete_children(path, cs).len(),
        delete_children(path, cs).subrange(0, delete_children(path, cs.take(m)).len() as int)
            == delete_children(path, cs.take(m)),
    decreases cs.len() - m,
{
    let d = delete_children(path, cs);
    if m == cs.len() {
        assert(cs.take(m) =~= cs);
        assert(d.subrange(0, d.len() as int) =~= d);
    } else {
        lemma_delete_children_prefix(path, cs, m + 1);
        assert(cs.take(m + 1).drop_last() =~= cs.take(m));
        let a = delete_children(path, cs.take(m));
        let b = delete_children(path, cs.take(m + 1));
        assert(b == a + delete_ops(join_spec(path, cs[m].name@), cs[m]));
        assert(d.subrange(0, a.len() as int) =~= b.subrange(0, a.len() as int));
        assert(b.subrange(0, a.len() as int) =~= a);
    }
}

proof fn lemma_block(root: Seq<char>, node: Node, addr: Seq<int>)
    requires
        valid_addr(node, addr),
    ensures
        0 <= block_start(root, node, addr),
        block_start(root, node, addr) + delete_ops(path_at(root, node, addr), node_at(node, addr)).len()
            <= delete_ops(root, node).len(),
        delete_ops(root, node).subrange(
            block_start(root, node, addr),
            block_start(root, node, addr) + delete_ops(
                path_at(root, node, addr),
                node_at(node, addr),
            ).len(),
        ) == delete_ops(path_at(root, node, addr), node_at(node, addr)),
    decreases addr.len(),
{
    let ops = delete_ops(root, node);
    if addr.len() == 0 {
        assert(ops.subrange(0, ops.len() as int) =~= ops);
    } else {
        let par = addr.drop_last();
        let i = addr.last();
        let p = node_at(node, par);
        let pp = path_at(root, node, par);
        lemma_block(root, node, par);
        let bp = block_start(root, node, par);
        let dp = delete_ops(pp, p);
        let cs = p.children@;
        let child = cs[i];
        let cp = join_spec(pp, child.name@);
        assert(node_at(node, addr) == child);
        assert(path_at(root, node, addr) == cp);
        lemma_delete_children_prefix(pp, cs, i + 1);
        assert(cs.take(i + 1).drop_last() =~= cs.take(i));
        let a = delete_children(pp, cs.take(i));
        let co = delete_ops(cp, child);
        let b = delete_children(pp, cs.take(i + 1));
        assert(b == a + co);
        let dc = delete_children(pp, cs);
        assert(dp == dc + seq![removal(pp, p)]);
        assert(block_start(root, node, addr) == bp + a.len());
        assert(b.len() <= dc.len());
        assert(a.len() + co.len() <= dp.len());
        let x = bp + a.len();
        assert forall|k: int| 0 <= k < co.len() implies #[trigger] ops.subrange(
            x,
            x + co.len(),
        )[k] == co[k] by {
            assert(ops.subrange(x, x + co.len())[k] == ops[x + k]);
            assert(ops.subrange(bp, bp + dp.len())[a.len() + k] == ops[bp + (a.len() + k)]);
            assert(ops.subrange(bp, bp + dp.len())[a.len() + k] == dp[a.len() + k]);
            assert(dp[a.len() + k] == dc[a.len() + k]);
            assert(dc.subrange(0, b.len() as int)[a.len() + k] == b[a.len() + k]);
        }
        assert(ops.subrange(bp + a.len(), bp + a.len() + co.len()) =~= co);
    }
}

/// A recursive delete of a directory is planned in full: its last operation
/// removes the directory itself; the operation at `removal_index` removes
/// the entry at any address below it; and each entry is removed after every
/// entry inside it.
pub proof fn law_recursive_delete_removes_all(
    root: Seq<char>,
    node: Node,
    empty_dirs: bool,
    addr: Seq<int>,
)
    requires
        node.kind == EntryKind::Directory,
        valid_addr(node, addr),
    ensures
        walk_spec(root, node, true, Action::Delete { empty_dirs }) == Ok::<Seq<OpSpec>, FsError>(
            delete_ops(root, node),
        ),
        delete_ops(root, node).last() == OpSpec::RemoveDir(root),
        0 <= removal_index(root, node, addr) < delete_ops(root, node).len(),
        delete_ops(root, node)[removal_index(root, node, addr)] == removal(
            path_at(root, node, addr),
            node_at(node, addr),
        ),
        forall|i: int|
            #![trigger addr.push(i)]
            valid_addr(node, addr.push(i)) ==> removal_index(root, node, addr.push(i))
                < removal_index(root, node, addr),
{
    let ops = delete_ops(root, node);
    lemma_block(root, node, addr);
    let b = block_start(root, node, addr);
    let sub = delete_ops(path_at(root, node, addr), node_at(node, addr));
    lemma_delete_ops_nonempty(path_at(root, node, addr), node_at(node, addr));
    assert(ops.subrange(b, b + sub.len())[sub.len() - 1] == sub[sub.len() - 1]);
    assert forall|i: int|
        #![trigger addr.push(i)]
        valid_addr(node, addr.push(i)) implies removal_index(root, node, addr.push(i))
            < removal_index(root, node, addr) by {
        let ca = addr.push(i);
        assert(ca.drop_last() =~= addr);
        let p = node_at(node, addr);
        let pp = path_at(root, node, addr);
        let cs = p.children@;
        lemma_delete_children_prefix(pp, cs, i + 1);
        assert(cs.take(i + 1).drop_last() =~= cs.take(i));
        assert(node_at(node, ca) == cs[i]);
        assert(path_at(root, node, ca) == join_spec(pp, cs[i].name@));
        lemma_delete_ops_nonempty(path_at(root, node, ca), node_at(node, ca));
    }
}

pub open spec fn has_prefix(p: Seq<char>, root: Seq<char>) -> bool {
    root.len() <= p.len() && p.take(root.len() as int) == root
}

/// The paths an operation removes or writes begin with `root` (copies: the
/// source with `from`, the target with `to`).
pub open spec fn op_within(o: OpSpec, from: Seq<char>, to: Seq<char>) -> bool {
    match o {
        OpSpec::RemoveFile(p) => has_prefix(p, from),
        OpSpec::RemoveDir(p) => has_prefix(p, from),
        OpSpec::CreateDir(p) => has_prefix(p, to),
        OpSpec::CopyFile(a, b) => has_prefix(a, from) && has_prefix(b, to),
        OpSpec::Print(_) => true,
    }
}

pub open spec fn all_within(ops: Seq<OpSpec>, from: Seq<char>, to: Seq<char>) -> bool {
    forall|k: int| 0 <= k < ops.len() ==> op_within(#[trigger] ops[k], from, to)
}

proof fn lemma_join_prefix(dir: Seq<char>, name: Seq<char>, root: Seq<char>)
    requires
        has_prefix(dir, root),
    ensures
        has_prefix(join_spec(dir, name), root),
{
    let j = join_spec(dir, name);
    assert(j.take(dir.len() as int) =~= dir);
    assert(j.take(root.len() as int) =~= dir.take(root.len() as int));
}

proof fn lemma_all_within_concat(a: Seq<OpSpec>, b: Seq<OpSpec>, from: Seq<char>, to: Seq<char>)
    requires
        all_within(a, from, to),
        all_within(b, from, to),
    ensures
        all_within(a + b, from, to),
{
    assert forall|k: int| 0 <= k < (a + b).len() implies op_within(#[trigger] (a + b)[k], from, to) by {
        if k < a.len() {
            assert((a + b)[k] == a[k]);
        } else {
            assert((a + b)[k] == b[k - a.len()]);
        }
    }
}

proof fn lemma_delete_within(path: Seq<char>, node: Node, root: Seq<char>)
    requires
        has_prefix(path, root),
    ensures
        all_within(delete_ops(path, node), root, root),
    decreases node, 1int,
{
    if node.kind == EntryKind::Directory {
        lemma_delete_children_within(path, node.children@, root);
        lemma_all_within_concat(
            delete_children(path, node.children@),
            seq![removal(path, node)],
            root,
            root,
        );
    }
}

proof fn lemma_delete_children_within(path: Seq<char>, cs: Seq<Node>, root: Seq<char>)
    requires
        has_prefix(path, root),
    ensures
        all_within(delete_children(path, cs), root, root),
    decreases cs, 0int,
{
    if cs.len() > 0 {
        lemma_delete_children_within(path, cs.drop_last(), root);
        lemma_join_prefix(path, cs.last().name@, root);
        lemma_delete_within(join_spec(path, cs.last().name@), cs.last(), root);
        lemma_all_within_concat(
            delete_children(path, cs.drop_last()),
            delete_ops(join_spec(path, cs.last().name@), cs.last()),
            root,
            root,
        );
    }
}

proof fn lemma_copy_within(from: Seq<char>, to: Seq<char>, node: Node, src: Seq<char>, dst: Seq<char>)
    requires
        has_prefix(from, src),
        has_prefix(to, dst),
    ensures
        all_within(copy_ops(from, to, node), src, dst),
    decreases node, 1int,
{
    if node.kind == EntryKind::Directory {
        lemma_copy_children_within(from, to, node.children@, src, dst);
        lemma_all_within_concat(
            seq![OpSpec::CreateDir(to)],
            copy_children(from, to, node.children@),
            src,
            dst,
        );
    }
}

proof fn lemma_copy_children_within(
    from: Seq<char>,
    to: Seq<char>,
    cs: Seq<Node>,
    src: Seq<char>,
    dst: Seq<char>,
)
    requires
        has_prefix(from, src),
        has_prefix(to, dst),
    ensures
        all_within(copy_children(from, to, cs), src, dst),
    decreases cs, 0int,
{
    if cs.len() > 0 {
        let n = cs.last().name@;
        lemma_copy_children_within(from, to, cs.drop_last(), src, dst);
        lemma_join_prefix(from, n, src);
        lemma_join_prefix(to, n, dst);
        lemma_copy_within(join_spec(from, n), join_spec(to, n), cs.last(), src, dst);
        lemma_all_within_concat(
            copy_children(from, to, cs.drop_last()),
            copy_ops(join_spec(from, n), join_spec(to, n), cs.last()),
            src,
            dst,
        );
    }
}

/// A delete touches only paths that begin with its root, and a copy reads
/// only paths that begin with its root and writes only paths that begin
/// with its destination.
pub proof fn law_walk_stays_below_roots(
    root: Seq<char>,
    node: Node,
    recursive: bool,
    action: Action,
)
    ensures
        walk_spec(root, node, recursive, action) is Ok ==> match action {
            Action::Delete { .. } => all_within(
                walk_spec(root, node, recursive, action)->Ok_0,
                root,
                root,
            ),
            Action::Copy(to) => all_within(
                walk_spec(root, node, recursive, action)->Ok_0,
                root,
                to@,
            ),
            Action::List { .. } => true,
        },
{
    assert(root.take(root.len() as int) =~= root);
    match action {
        Action::Delete { .. } => {
            lemma_delete_within(root, node, root);
            assert(all_within(seq![OpSpec::RemoveDir(root)], root, root));
        },
        Action::Copy(to) => {
            assert(to@.take(to@.len() as int) =~= to@);
            lemma_copy_within(root, to@, node, root, to@);
        },
        Action::List { .. } => {},
    }
}

/// A delete without recursion of a directory that has entries fails before
/// any operation, so the directory and its contents stay as they were.
pub proof fn law_plain_delete_keeps_directory(root: Seq<char>, node: Node, empty_dirs: bool)
    requires
        node.kind == EntryKind::Directory,
        node.children@.len() > 0,
    ensures
        walk_spec(root, node, false, Action::Delete { empty_dirs }) is Err,
{
}

/// The accumulated result of tree operations: how many operations were
/// meant to run, how many succeeded, and the first failure met.
#[derive(Clone, Copy, Debug, PartialEq, Eq, Structural)]
pub struct TraversalOutcome {
    pub intended: usize,
    pub affected: usize,
    pub first_error: Option<FsError>,
}

impl TraversalOutcome {
    /// Nothing intended, nothing done.
    pub fn empty() -> (r: TraversalOutcome)
        ensures
            r == (TraversalOutcome { intended: 0, affected: 0, first_error: None }),
    {
        TraversalOutcome { intended: 0, affected: 0, first_error: None }
    }

    /// The outcome of a walk before any of its operations ran: each planned
    /// operation is intended, and a walk refused at the root intends the
    /// root and has already failed.
    pub fn start(plan: &Result<Vec<Op>, FsError>) -> (r: TraversalOutcome)
        ensures
            match plan {
                Ok(ops) => r == (TraversalOutcome {
                    intended: ops@.len() as usize,
                    affected: 0,
                    first_error: None,
                }),
                Err(e) => r == (TraversalOutcome { intended: 1, affected: 0, first_error: Some(*e) }),
            },
    {
        match plan {
            Ok(ops) => TraversalOutcome { intended: ops.len(), affected: 0, first_error: None },
            Err(e) => TraversalOutcome { intended: 1, affected: 0, first_error: Some(*e) },
        }
    }

    /// Records the result of one operation: a success counts as affected; a
    /// failure is kept where it is the first.
    pub fn record(&mut self, result: Result<(), FsError>)
        requires
            old(self).affected < usize::MAX,
        ensures
            final(self).intended == old(self).intended,
            match result {
                Ok(()) => final(self).affected == old(self).affected + 1 && final(self).first_error
                    == old(self).first_error,
                Err(e) => final(self).affected == old(self).affected && final(self).first_error
                    == if old(self).first_error is Some {
                    old(self).first_error
                } else {
                    Some(e)
                },
            },
    {
        match result {
            Ok(()) => {
                self.affected = self.affected + 1;
            },
            Err(e) => {
                if self.first_error.is_none() {
                    self.first_error = Some(e);
                }
            },
        }
    }

    /// Two outcomes together: counts add up, and the first failure of the
    /// earlier one wins.
    pub fn merge(&self, later: &TraversalOutcome) -> (r: TraversalOutcome)
        requires
            self.intended + later.intended <= usize::MAX,
            self.affected + later.affected <= usize::MAX,
        ensures
            r.intended == self.intended + later.intended,
            r.affected == self.affected + later.affected,
            r.first_error == if self.first_error is Some {
                self.first_error
            } else {
                later.first_error
            },
    {
        TraversalOutcome {
            intended: self.intended + later.intended,
            affected: self.affected + later.affected,
            first_error: if self.first_error.is_some() {
                self.first_error
            } else {
                later.first_error
            },
        }
    }

    /// Whether everything intended was done without failure. This is how
    /// `rm` decides, with every combination of its options.
    pub fn succeeded(&self) -> (r: bool)
        ensures
            r == (self.first_error is None && self.affected == self.intended),
    {
        self.first_error.is_none() && self.affected == self.intended
    }

    /// The outcome as a result: the first failure, else `Underlying` where
    /// fewer entries were affected than intended.
    pub fn to_result(&self) -> (r: Result<(), FsError>)
        ensures
            match self.first_error {
                Some(e) => r == Err::<(), FsError>(e),
                None => if self.affected == self.intended {
                    r == Ok::<(), FsError>(())
                } else {
                    r == Err::<(), FsError>(FsError::Underlying)
                },
            },
    {
        match self.first_error {
            Some(e) => Err(e),
            None => if self.affected == self.intended {
                Ok(())
            } else {
                Err(FsError::Underlying)
            },
        }
    }
}

} // verus!
