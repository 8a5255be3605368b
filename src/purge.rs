use crate::path::{dir_join, join};
use vstd::prelude::*;

verus! {

broadcast use vstd::seq_lib::group_to_multiset_ensures;

/// The type of a filesystem entry, read without following symlinks.
#[derive(Clone, Copy, Debug, PartialEq, Eq, Structural)]
pub enum EntryKind {
    File,
    Dir,
    Symlink,
    Other,
}

/// What is read of an entry before it is processed.
#[derive(Clone, Copy, Debug, PartialEq, Eq, Structural)]
pub struct EntryAttributes {
    pub kind: EntryKind,
    /// Byte length; meaningful for regular files.
    pub len: u64,
    pub readonly: bool,
    /// Number of names that refer to the same data; 1 where unknown.
    pub hardlinks: u64,
}

/// What to do with one entry, in this order: clear the read-only flag,
/// purge the children, overwrite the content; then erase the entry.
#[derive(Clone, Copy, Debug, PartialEq, Eq, Structural)]
pub struct EntryPlan {
    pub clear_readonly: bool,
    pub descend: bool,
    pub shred: bool,
}

/// Decides how an entry is purged. Only a regular file that is the sole name
/// for its data is overwritten; symlinks are never followed nor overwritten;
/// every entry is erased afterwards.
pub fn plan_entry(attrs: &EntryAttributes) -> (r: EntryPlan)
    ensures
        r.clear_readonly == attrs.readonly,
        r.descend == (attrs.kind == EntryKind::Dir),
        r.shred == (attrs.kind == EntryKind::File && attrs.hardlinks == 1),
{
    EntryPlan {
        clear_readonly: attrs.readonly,
        descend: attrs.kind == EntryKind::Dir,
        shred: attrs.kind == EntryKind::File && attrs.hardlinks == 1,
    }
}

/// Every character of the name is `'0'`.
pub open spec fn all_zero(s: Seq<char>) -> bool {
    forall|i: int| 0 <= i < s.len() ==> s[i] == '0'
}

/// `a` and `b` agree on their first `k` characters.
pub open spec fn common_prefix(a: Seq<char>, b: Seq<char>, k: int) -> bool {
    &&& 0 <= k <= a.len()
    &&& k <= b.len()
    &&& forall|j: int| 0 <= j < k ==> a[j] == b[j]
}

/// `a` and `b` first differ at `k`, where `a` ends or has the smaller character.
pub open spec fn less_at(a: Seq<char>, b: Seq<char>, k: int) -> bool {
    &&& common_prefix(a, b, k)
    &&& k < b.len()
    &&& (k == a.len() || (k < a.len() && (a[k] as u32) < (b[k] as u32)))
}

/// Strict lexicographic order by characters.
pub open spec fn lex_less(a: Seq<char>, b: Seq<char>) -> bool {
    exists|k: int| less_at(a, b, k)
}

/// The order in which the children of a directory are purged: all-zero
/// names before the others, and lexicographic order within each group.
pub open spec fn child_before(a: Seq<char>, b: Seq<char>) -> bool {
    ||| (all_zero(a) && !all_zero(b))
    ||| (all_zero(a) == all_zero(b) && lex_less(a, b))
}

/// No element of `s` comes after a later one in the child order.
pub open spec fn in_child_order(s: Seq<String>) -> bool {
    forall|i: int, j: int| 0 <= i < j < s.len() ==> !child_before(#[trigger] s[j]@, #[trigger] s[i]@)
}

proof fn lemma_lex_less_asymmetric(a: Seq<char>, b: Seq<char>)
    ensures
        !(lex_less(a, b) && lex_less(b, a)),
{
    if lex_less(a, b) && lex_less(b, a) {
        let k1 = choose|k: int| less_at(a, b, k);
        let k2 = choose|k: int| less_at(b, a, k);
        if k1 < k2 {
            assert(a[k1] == b[k1]);
        } else if k2 < k1 {
            assert(a[k2] == b[k2]);
        }
    }
}

proof fn lemma_lex_less_transitive(a: Seq<char>, b: Seq<char>, c: Seq<char>)
    requires
        lex_less(a, b),
        lex_less(b, c),
    ensures
        lex_less(a, c),
{
    let k1 = choose|k: int| less_at(a, b, k);
    let k2 = choose|k: int| less_at(b, c, k);
    if k1 < k2 {
        assert(b[k1] == c[k1]);
        assert(less_at(a, c, k1));
    } else if k2 < k1 {
        assert(a[k2] == b[k2]);
        assert(less_at(a, c, k2));
    } else {
        assert(less_at(a, c, k1));
    }
}

/// The child order is a strict order: never both ways, and transitive.
pub proof fn lemma_child_order_strict(a: Seq<char>, b: Seq<char>, c: Seq<char>)
    ensures
        !(child_before(a, b) && child_before(b, a)),
        child_before(a, b) && child_before(b, c) ==> child_before(a, c),
{
    lemma_lex_less_asymmetric(a, b);
    if child_before(a, b) && child_before(b, c) && lex_less(a, b) && lex_less(b, c) {
        lemma_lex_less_transitive(a, b, c);
    }
}

/// Whether every character of `name` is `'0'`.
fn is_all_zero(name: &str) -> (r: bool)
    ensures
        r == all_zero(name@),
{
    let n = name.unicode_len();
    let mut i: usize = 0;
    while i < n
        invariant
            n == name@.len(),
            i <= n,
            forall|j: int| 0 <= j < i ==> name@[j] == '0',
        decreases n - i,
    {
        if name.get_char(i) != '0' {
            return false;
        }
        i = i + 1;
    }
    true
}

/// Whether `a` comes strictly before `b` in lexicographic order.
fn is_lex_less(a: &str, b: &str) -> (r: bool)
    ensures
        r == lex_less(a@, b@),
{
    let la = a.unicode_len();
    let lb = b.unicode_len();
    let mut i: usize = 0;
    while i < la && i < lb && a.get_char(i) == b.get_char(i)
        invariant
            la == a@.len(),
            lb == b@.len(),
            common_prefix(a@, b@, i as int),
        decreases la - i,
    {
        i = i + 1;
    }
    let r = if i < la && i < lb {
        (a.get_char(i) as u32) < (b.get_char(i) as u32)
    } else {
        i == la && i < lb
    };
    proof {
        if r {
            assert(less_at(a@, b@, i as int));
        } else {
            assert forall|k: int| !less_at(a@, b@, k) by {
                if less_at(a@, b@, k) && k > i {
                    assert(a@[i as int] == b@[i as int]);
                }
            }
        }
    }
    r
}

/// Whether the child `a` is purged before the child `b`.
pub fn precedes(a: &str, b: &str) -> (r: bool)
    ensures
        r == child_before(a@, b@),
{
    let za = is_all_zero(a);
    let zb = is_all_zero(b);
    if za && !zb {
        true
    } else if zb && !za {
        false
    } else {
        is_lex_less(a, b)
    }
}

/// Puts the names of a directory's children in the order they are purged:
/// all-zero names first, left over from an interrupted earlier run, so
/// that they are gone before other entries are renamed to such names.
pub fn order_children(names: Vec<String>) -> (r: Vec<String>)
    ensures
        r@.to_multiset() == names@.to_multiset(),
        in_child_order(r@),
{
    let ghost all = names@;
    let mut rest = names;
    let mut out: Vec<String> = Vec::new();
    while rest.len() > 0
        invariant
            out@.to_multiset().add(rest@.to_multiset()) == all.to_multiset(),
            in_child_order(out@),
        decreases rest@.len(),
    {
        let ghost before = rest@;
        let x = rest.pop().unwrap();
        assert(before =~= rest@.push(x));
        let mut pos: usize = 0;
        while pos < out.len() && !precedes(x.as_str(), out[pos].as_str())
            invariant
                pos <= out@.len(),
                forall|j: int| 0 <= j < pos ==> !child_before(x@, #[trigger] out@[j]@),
            decreases out@.len() - pos,
        {
            pos = pos + 1;
        }
        let ghost old_out = out@;
        out.insert(pos, x);
        proof {
            assert forall|i: int, j: int| 0 <= i < j < out@.len() implies !child_before(
                #[trigger] out@[j]@,
                #[trigger] out@[i]@,
            ) by {
                if i < pos && j == pos {
                } else if i == pos && j > pos {
                    lemma_child_order_strict(old_out[j - 1]@, x@, old_out[pos as int]@);
                    if pos < j - 1 {
                        assert(!child_before(old_out[j - 1]@, old_out[pos as int]@));
                    }
                } else if i < pos && j > pos {
                    assert(!child_before(old_out[j - 1]@, old_out[i]@));
                } else if i > pos {
                    assert(!child_before(old_out[j - 1]@, old_out[i - 1]@));
                } else {
                    assert(!child_before(old_out[j]@, old_out[i]@));
                }
            }
            assert(out@.to_multiset().add(rest@.to_multiset()) =~= all.to_multiset());
        }
    }
    assert(rest@ =~= Seq::<String>::empty());
    out
}

/// An operation on one entry, carried out by the caller.
#[derive(Clone, Copy, Debug, PartialEq, Eq, Structural)]
pub enum TaskKind {
    /// Read the entry's attributes without following symlinks; then call
    /// `Walk::on_attributes`.
    Inspect,
    /// Clear the read-only flag.
    ClearReadonly,
    /// List the directory's children; then call `Walk::on_children`.
    List,
    /// Overwrite the file's content (see `shred::plan_shred`).
    Shred,
    /// Rename the entry down to `"0"` and delete it (see `erase::plan_erase`).
    Erase,
}

/// An operation and the path it applies to.
pub struct Task {
    pub kind: TaskKind,
    pub path: String,
}

/// The order in which the pending tasks of a stack are carried out: the top,
/// which is the last element, first.
pub open spec fn run_order(tasks: Seq<Task>) -> Seq<(TaskKind, Seq<char>)> {
    Seq::new(tasks.len(), |i: int| (tasks[tasks.len() - 1 - i].kind, tasks[tasks.len() - 1 - i].path@))
}

/// The tasks that follow reading an entry's attributes, in order.
pub open spec fn entry_tasks(path: Seq<char>, attrs: EntryAttributes) -> Seq<(TaskKind, Seq<char>)> {
    let plan = EntryPlan {
        clear_readonly: attrs.readonly,
        descend: attrs.kind == EntryKind::Dir,
        shred: attrs.kind == EntryKind::File && attrs.hardlinks == 1,
    };
    (if plan.clear_readonly { seq![(TaskKind::ClearReadonly, path)] } else { seq![] })
        + (if plan.descend { seq![(TaskKind::List, path)] } else { seq![] })
        + (if plan.shred { seq![(TaskKind::Shred, path)] } else { seq![] })
        + seq![(TaskKind::Erase, path)]
}

/// Inspecting each child of `dir`, in the order of `children`.
pub open spec fn child_visits(dir: Seq<char>, children: Seq<String>) -> Seq<(TaskKind, Seq<char>)> {
    Seq::new(children.len(), |i: int| (TaskKind::Inspect, dir_join(Some(dir), children[i]@)))
}

/// A depth-first purge of one path: the stack of tasks still to do.
/// Each entry is inspected, its read-only flag cleared, its children purged
/// one after another in the child order, its content overwritten where
/// that is owed, and then it is erased. The caller stops at the first
/// failing task: the rest of the walk is abandoned.
pub struct Walk {
    pub tasks: Vec<Task>,
}

impl Walk {
    /// A walk that starts by inspecting `path`.
    pub fn new(path: &str) -> (r: Walk)
        ensures
            run_order(r.tasks@) == seq![(TaskKind::Inspect, path@)],
    {
        let mut tasks: Vec<Task> = Vec::new();
        tasks.push(Task { kind: TaskKind::Inspect, path: String::from_str(path) });
        let r = Walk { tasks };
        assert(run_order(r.tasks@) =~= seq![(TaskKind::Inspect, path@)]);
        r
    }

    /// Takes the next task to carry out; `None` when the walk is complete.
    pub fn next_task(&mut self) -> (r: Option<Task>)
        ensures
            old(self).tasks@.len() == 0 ==> r is None && final(self).tasks@.len() == 0,
            old(self).tasks@.len() > 0 ==> (r matches Some(t) && run_order(old(self).tasks@)
                == seq![(t.kind, t.path@)] + run_order(final(self).tasks@)),
    {
        let r = self.tasks.pop();
        proof {
            if old(self).tasks@.len() > 0 {
                let t = r->0;
                assert(run_order(old(self).tasks@) =~= seq![(t.kind, t.path@)] + run_order(
                    final(self).tasks@,
                ));
            }
        }
        r
    }

    fn push_task(&mut self, kind: TaskKind, path: String)
        ensures
            run_order(final(self).tasks@) == seq![(kind, path@)] + run_order(old(self).tasks@),
    {
        self.tasks.push(Task { kind, path });
        assert(run_order(final(self).tasks@) =~= seq![(kind, path@)] + run_order(old(self).tasks@));
    }

    /// Records the attributes read for `path`: the entry's own tasks come next.
    pub fn on_attributes(&mut self, path: &str, attrs: &EntryAttributes)
        ensures
            run_order(final(self).tasks@) == entry_tasks(path@, *attrs) + run_order(old(self).tasks@),
    {
        let plan = plan_entry(attrs);
        let ghost rest = run_order(self.tasks@);
        self.push_task(TaskKind::Erase, String::from_str(path));
        if plan.shred {
            self.push_task(TaskKind::Shred, String::from_str(path));
        }
        if plan.descend {
            self.push_task(TaskKind::List, String::from_str(path));
        }
        if plan.clear_readonly {
            self.push_task(TaskKind::ClearReadonly, String::from_str(path));
        }
        assert(run_order(self.tasks@) =~= entry_tasks(path@, *attrs) + rest);
    }

    /// Records the names of the children of `dir`: each is purged next, one
    /// after another, in the child order.
    pub fn on_children(&mut self, dir: &str, names: Vec<String>)
        ensures
            exists|children: Seq<String>|
                {
                    &&& children.to_multiset() == names@.to_multiset()
                    &&& in_child_order(children)
                    &&& run_order(final(self).tasks@) == child_visits(dir@, children) + run_order(
                        old(self).tasks@,
                    )
                },
    {
        let children = order_children(names);
        let ghost rest = run_order(self.tasks@);
        let parent = Some(String::from_str(dir));
        assert(parent.deep_view() == Some(dir@));
        let mut i: usize = children.len();
        while i > 0
            invariant
                i <= children@.len(),
                parent.deep_view() == Some(dir@),
                run_order(self.tasks@) == child_visits(dir@, children@).subrange(
                    i as int,
                    children@.len() as int,
                ) + rest,
            decreases i,
        {
            i = i - 1;
            let child = join(&parent, children[i].as_str());
            let ghost before = run_order(self.tasks@);
            self.push_task(TaskKind::Inspect, child);
            assert(run_order(self.tasks@) =~= child_visits(dir@, children@).subrange(
                i as int,
                children@.len() as int,
            ) + rest);
        }
        assert(child_visits(dir@, children@).subrange(0, children@.len() as int) =~= child_visits(
            dir@,
            children@,
        ));
    }
}

} // verus!
