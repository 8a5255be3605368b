use crate::error::{Error, ErrorKind};
use crate::path::{byte_len, dir_join, file_name_of, join, parent_of, split, splittable};
use vstd::prelude::*;

verus! {

/// A name of `n` characters `'0'`.
pub open spec fn zeros(n: nat) -> Seq<char> {
    Seq::new(n, |_i: int| '0')
}

/// The all-zero names from `n` characters down to one, longest first.
pub open spec fn shrinking_zeros(n: nat) -> Seq<Seq<char>> {
    Seq::new(n, |i: int| zeros((n - i) as nat))
}

/// The names a leaf is renamed to, in order: an all-zero name of the leaf's
/// byte length (left out when the leaf already is that name), then one
/// character shorter at each step, down to `"0"`.
pub open spec fn rename_chain_of(leaf: Seq<char>) -> Seq<Seq<char>> {
    let n = byte_len(leaf) as nat;
    if zeros(n) == leaf {
        shrinking_zeros(n).drop_first()
    } else {
        shrinking_zeros(n)
    }
}

/// The name an entry has before step `i` of its rename chain.
pub open spec fn name_before_step(leaf: Seq<char>, chain: Seq<Seq<char>>, i: int) -> Seq<char> {
    if i == 0 {
        leaf
    } else {
        chain[i - 1]
    }
}

/// Builds a name of `n` characters `'0'`.
fn zero_name(n: usize) -> (r: String)
    ensures
        r@ == zeros(n as nat),
{
    let mut r = String::new();
    let mut i: usize = 0;
    while i < n
        invariant
            i <= n,
            r@ == zeros(i as nat),
        decreases n - i,
    {
        proof {
            reveal_strlit("0");
        }
        r.append("0");
        i = i + 1;
        assert(r@ =~= zeros(i as nat));
    }
    r
}

/// The names that `leaf` is renamed to before the entry is deleted.
pub fn rename_chain(leaf: &str) -> (r: Vec<String>)
    requires
        byte_len(leaf@) > 0,
    ensures
        r.deep_view() == rename_chain_of(leaf@),
{
    let n = leaf.len();
    let longest = zero_name(n);
    let mut r: Vec<String> = Vec::new();
    let mut k: usize = n;
    while k > 0
        invariant
            k <= n,
            longest@ == zeros(n as nat),
            r@.len() == n - k,
            forall|j: int| 0 <= j < n - k ==> #[trigger] r@[j]@ == zeros((n - j) as nat),
        decreases k,
    {
        let name = String::from_str(longest.as_str().substring_char(0, k));
        assert(name@ =~= zeros(k as nat));
        r.push(name);
        k = k - 1;
    }
    assert(r.deep_view() =~= shrinking_zeros(n as nat));
    let same = longest == String::from_str(leaf);
    if same {
        r.remove(0);
        assert(r.deep_view() =~= shrinking_zeros(n as nat).drop_first());
    }
    r
}

/// One rename of the chain, as full paths.
pub struct Rename {
    pub from: String,
    pub to: String,
}

/// How an entry is erased: the renames in order, then the deletion of `target`.
pub struct ErasePlan {
    pub renames: Vec<Rename>,
    pub target: String,
}

/// The rename plan of the entry at `path`, as full paths in the entry's directory.
pub open spec fn plan_matches(path: Seq<char>, plan: ErasePlan) -> bool {
    let dir = parent_of(path);
    let leaf = file_name_of(path)->0;
    let chain = rename_chain_of(leaf);
    &&& plan.renames@.len() == chain.len()
    &&& forall|i: int|
        0 <= i < chain.len() ==> {
            &&& (#[trigger] plan.renames@[i]).from@ == dir_join(dir, name_before_step(leaf, chain, i))
            &&& plan.renames@[i].to@ == dir_join(dir, chain[i])
        }
    &&& plan.target@ == dir_join(dir, seq!['0'])
}

/// Plans the erasure of the entry at `path`: the renames through the
/// all-zero names, then the deletion of the entry under the name `"0"`.
/// Fails with `PathFormat` when the path has no leaf name.
pub fn plan_erase(path: &str) -> (r: Result<ErasePlan, Error>)
    ensures
        r is Ok <==> splittable(path@),
        r matches Ok(plan) ==> plan_matches(path@, plan),
        r matches Err(e) ==> e.kind == ErrorKind::PathFormat && e.path@ == path@,
{
    let (dir, leaf) = match split(path) {
        Ok(parts) => parts,
        Err(e) => return Err(e),
    };
    let ghost dv = dir.deep_view();
    let chain = rename_chain(leaf.as_str());
    let ghost c = rename_chain_of(leaf@);
    let mut renames: Vec<Rename> = Vec::new();
    let mut current = join(&dir, leaf.as_str());
    let mut i: usize = 0;
    while i < chain.len()
        invariant
            dv == dir.deep_view(),
            chain.deep_view() == c,
            i <= chain@.len(),
            renames@.len() == i,
            current@ == dir_join(dv, name_before_step(leaf@, c, i as int)),
            forall|j: int|
                0 <= j < i ==> {
                    &&& (#[trigger] renames@[j]).from@ == dir_join(dv, name_before_step(leaf@, c, j))
                    &&& renames@[j].to@ == dir_join(dv, c[j])
                },
        decreases chain@.len() - i,
    {
        assert(chain@[i as int]@ == c[i as int]);
        let next = join(&dir, chain[i].as_str());
        renames.push(Rename { from: current, to: next.clone() });
        current = next;
        i = i + 1;
    }
    let last = zero_name(1);
    assert(last@ =~= seq!['0']);
    let target = join(&dir, last.as_str());
    Ok(ErasePlan { renames, target })
}

/// Some destination of the plan's renames is taken.
pub open spec fn any_taken(taken: Seq<bool>) -> bool {
    exists|i: int| 0 <= i < taken.len() && #[trigger] taken[i]
}

/// Refuses a whole plan before its first rename when any of its
/// destinations is taken (`taken[i]` says whether the destination of rename
/// `i` exists), so that a collision anywhere in the chain leaves the entry
/// under the name it has. The error names the first taken destination.
pub fn guard_plan(plan: &ErasePlan, taken: &Vec<bool>) -> (r: Result<(), Error>)
    requires
        taken@.len() == plan.renames@.len(),
    ensures
        r is Err <==> any_taken(taken@),
        r matches Err(e) ==> e.kind == ErrorKind::AlreadyExists && exists|i: int|
            0 <= i < taken@.len() && #[trigger] taken@[i] && e.path@ == plan.renames@[i].to@
                && forall|j: int| 0 <= j < i ==> !#[trigger] taken@[j],
{
    let mut i: usize = 0;
    while i < taken.len()
        invariant
            taken@.len() == plan.renames@.len(),
            i <= taken@.len(),
            forall|j: int| 0 <= j < i ==> !#[trigger] taken@[j],
        decreases taken@.len() - i,
    {
        if taken[i] {
            return Err(Error::new(ErrorKind::AlreadyExists, plan.renames[i].to.as_str()));
        }
        i = i + 1;
    }
    Ok(())
}

/// Refuses a rename whose destination already exists: the entry then keeps
/// the name it had before this step.
pub fn guard_rename(step: &Rename, destination_exists: bool) -> (r: Result<(), Error>)
    ensures
        r is Err <==> destination_exists,
        r matches Err(e) ==> e.kind == ErrorKind::AlreadyExists && e.path@ == step.to@,
{
    if destination_exists {
        Err(Error::new(ErrorKind::AlreadyExists, step.to.as_str()))
    } else {
        Ok(())
    }
}

/// The chain only ever shortens an all-zero name by one trailing `'0'`,
/// and the entry ends up named `"0"`.
pub proof fn lemma_chain_shape(leaf: Seq<char>)
    requires
        byte_len(leaf) > 0,
    ensures
        forall|i: int|
            0 <= i < rename_chain_of(leaf).len() ==> #[trigger] rename_chain_of(leaf)[i]
                == zeros(rename_chain_of(leaf)[i].len()),
        forall|i: int|
            0 < i < rename_chain_of(leaf).len() ==> #[trigger] rename_chain_of(leaf)[i]
                == rename_chain_of(leaf)[i - 1].drop_last(),
        name_before_step(leaf, rename_chain_of(leaf), rename_chain_of(leaf).len() as int)
            == seq!['0'],
{
    let n = byte_len(leaf) as nat;
    let c = rename_chain_of(leaf);
    assert forall|i: int| 0 < i < c.len() implies #[trigger] c[i] == c[i - 1].drop_last() by {
        assert(c[i] =~= c[i - 1].drop_last());
    }
    assert forall|i: int| 0 <= i < c.len() implies #[trigger] c[i] == zeros(c[i].len()) by {
        assert(c[i] =~= zeros(c[i].len()));
    }
    if c.len() == 0 {
        assert(zeros(n) == leaf);
        assert(leaf =~= seq!['0']);
    } else {
        assert(c[c.len() - 1] =~= seq!['0']);
    }
}

/// A leaf of one byte other than `"0"` is renamed once, straight to `"0"`.
pub proof fn lemma_one_byte_leaf(leaf: Seq<char>)
    requires
        byte_len(leaf) == 1,
        leaf != seq!['0'],
    ensures
        rename_chain_of(leaf) == seq![seq!['0']],
{
    assert(zeros(1) =~= seq!['0']);
    assert(rename_chain_of(leaf) =~= seq![seq!['0']]);
}

/// The entries of a directory after the renames `steps` are made in order,
/// each refused (and the rest abandoned) when its destination exists; and
/// whether all of them were made.
pub open spec fn run_renames(entries: Set<Seq<char>>, steps: Seq<(Seq<char>, Seq<char>)>) -> (Set<
    Seq<char>,
>, bool)
    decreases steps.len(),
{
    if steps.len() == 0 {
        (entries, true)
    } else if entries.contains(steps[0].1) {
        (entries, false)
    } else {
        run_renames(entries.remove(steps[0].0).insert(steps[0].1), steps.drop_first())
    }
}

/// The renames of a plan as pairs of paths.
pub open spec fn plan_steps(plan: ErasePlan) -> Seq<(Seq<char>, Seq<char>)> {
    plan.renames@.map_values(|s: Rename| (s.from@, s.to@))
}

/// Without a check of the whole plan beforehand (see `guard_plan`): when the
/// first destination of the chain is taken, erasing fails before anything
/// is renamed, and the entry keeps the name it had.
pub proof fn lemma_collision_keeps_original(path: Seq<char>, plan: ErasePlan, entries: Set<Seq<char>>)
    requires
        splittable(path),
        plan_matches(path, plan),
        plan.renames@.len() > 0,
        entries.contains(plan.renames@[0].to@),
        entries.contains(dir_join(parent_of(path), file_name_of(path)->0)),
    ensures
        run_renames(entries, plan_steps(plan)) == (entries, false),
        plan.renames@[0].from@ == dir_join(parent_of(path), file_name_of(path)->0),
        run_renames(entries, plan_steps(plan)).0.contains(plan.renames@[0].from@),
{
    let r0 = plan.renames@[0];
    assert(plan_steps(plan)[0] == (r0.from@, r0.to@));
}

/// The renames of a plan link up: each starts at the path where the one
/// before left the entry, and the last leaves it at the path that is deleted.
pub proof fn lemma_plan_links(path: Seq<char>, plan: ErasePlan)
    requires
        splittable(path),
        plan_matches(path, plan),
    ensures
        forall|i: int|
            0 < i < plan.renames@.len() ==> (#[trigger] plan.renames@[i]).from@
                == plan.renames@[i - 1].to@,
        plan.renames@.len() > 0 ==> plan.renames@[plan.renames@.len() - 1].to@ == plan.target@,
        plan.renames@.len() == 0 ==> plan.target@ == dir_join(parent_of(path), file_name_of(path)->0),
{
    let leaf = file_name_of(path)->0;
    lemma_chain_shape(leaf);
    let n = plan.renames@.len();
    assert forall|i: int| 0 < i < n implies (#[trigger] plan.renames@[i]).from@
        == plan.renames@[i - 1].to@ by {
        assert(plan.renames@[i - 1].to@ == dir_join(parent_of(path), rename_chain_of(leaf)[i - 1]));
    }
    if n > 0 {
        assert(plan.renames@[n - 1].to@ == dir_join(parent_of(path), rename_chain_of(leaf)[n - 1]));
    }
}

/// Renames that link up: each starts at the path where the one before ended.
pub open spec fn linked(steps: Seq<(Seq<char>, Seq<char>)>) -> bool {
    forall|i: int| 0 < i < steps.len() ==> (#[trigger] steps[i]).0 == steps[i - 1].1
}

/// When a rename of a linked chain is refused, the entry is still in the
/// directory, under the name it had before the refused step.
pub proof fn lemma_refusal_keeps_entry(entries: Set<Seq<char>>, steps: Seq<(Seq<char>, Seq<char>)>)
    requires
        linked(steps),
        steps.len() > 0,
        entries.contains(steps[0].0),
    ensures
        !run_renames(entries, steps).1 ==> exists|i: int|
            0 <= i < steps.len() && run_renames(entries, steps).0.contains(#[trigger] steps[i].0),
    decreases steps.len(),
{
    if !run_renames(entries, steps).1 && !entries.contains(steps[0].1) {
        let next = entries.remove(steps[0].0).insert(steps[0].1);
        let rest = steps.drop_first();
        assert(run_renames(entries, steps) == run_renames(next, rest));
        assert(rest.len() > 0);
        assert(rest[0].0 == steps[0].1);
        lemma_refusal_keeps_entry(next, rest);
        let i = choose|i: int| 0 <= i < rest.len() && run_renames(next, rest).0.contains(#[trigger] rest[i].0);
        assert(steps[i + 1].0 == rest[i].0);
    } else if !run_renames(entries, steps).1 {
        assert(run_renames(entries, steps).0.contains(steps[0].0));
    }
}

/// The renames of a plan, as pairs of paths, link up.
pub proof fn lemma_plan_steps_linked(path: Seq<char>, plan: ErasePlan)
    requires
        splittable(path),
        plan_matches(path, plan),
    ensures
        linked(plan_steps(plan)),
{
    lemma_plan_links(path, plan);
    let st = plan_steps(plan);
    assert forall|i: int| 0 < i < st.len() implies (#[trigger] st[i]).0 == st[i - 1].1 by {
        assert(plan.renames@[i].from@ == plan.renames@[i - 1].to@);
    }
}

/// Which destinations of `steps` are taken among `entries`.
pub open spec fn taken_in(entries: Set<Seq<char>>, steps: Seq<(Seq<char>, Seq<char>)>) -> Seq<bool> {
    Seq::new(steps.len(), |i: int| entries.contains(steps[i].1))
}

/// Erasing as the caller does it: the whole plan is refused when any
/// destination is taken (`guard_plan`), else the renames are made in order.
pub open spec fn guarded_run(entries: Set<Seq<char>>, steps: Seq<(Seq<char>, Seq<char>)>) -> (Set<
    Seq<char>,
>, bool) {
    if any_taken(taken_in(entries, steps)) {
        (entries, false)
    } else {
        run_renames(entries, steps)
    }
}

/// When the destination of any step of the chain is taken, erasing fails,
/// nothing is renamed, and the entry stays under its original path.
pub proof fn lemma_any_collision_keeps_original(path: Seq<char>, plan: ErasePlan, entries: Set<Seq<char>>, i: int)
    requires
        splittable(path),
        plan_matches(path, plan),
        0 <= i < plan.renames@.len(),
        entries.contains(plan.renames@[i].to@),
        entries.contains(dir_join(parent_of(path), file_name_of(path)->0)),
    ensures
        guarded_run(entries, plan_steps(plan)) == (entries, false),
        guarded_run(entries, plan_steps(plan)).0.contains(dir_join(parent_of(path), file_name_of(path)->0)),
{
    let t = taken_in(entries, plan_steps(plan));
    assert(plan_steps(plan)[i] == (plan.renames@[i].from@, plan.renames@[i].to@));
    assert(t[i]);
}

} // verus!
