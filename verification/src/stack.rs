use vstd::prelude::*;

use crate::error::EzError;
use crate::names::NameMap;
use crate::order::{char_seq_le, lemma_le_antisymmetric, sort_strings, sorted};
use crate::text::{contains_str, lemma_distinct_within, str_eq, views};

verus! {

broadcast use crate::names::NameMap::lemma_wf, crate::names::NameMap::lemma_dom, crate::text::lemma_push_contains;

/// What the stack records of one branch.
#[derive(Debug, Clone)]
pub struct BranchMeta {
    pub name: String,
    pub parent: String,
    pub parent_head: String,
    pub pr_number: Option<u64>,
}

/// The names of the branches in `metas` whose parent is `parent`, in order.
pub open spec fn names_with_parent(metas: Seq<BranchMeta>, parent: Seq<char>) -> Seq<Seq<char>>
    decreases metas.len(),
{
    if metas.len() == 0 {
        Seq::empty()
    } else {
        let rest = names_with_parent(metas.drop_last(), parent);
        if metas.last().parent@ == parent {
            rest.push(metas.last().name@)
        } else {
            rest
        }
    }
}

pub proof fn lemma_names_with_parent_member(metas: Seq<BranchMeta>, parent: Seq<char>, c: Seq<char>)
    requires
        names_with_parent(metas, parent).contains(c),
    ensures
        exists|i: int| 0 <= i < metas.len() && (#[trigger] metas[i]).name@ == c && metas[i].parent@ == parent,
    decreases metas.len(),
{
    let rest = names_with_parent(metas.drop_last(), parent);
    if rest.contains(c) {
        lemma_names_with_parent_member(metas.drop_last(), parent, c);
        let i = choose|i: int| 0 <= i < metas.drop_last().len() && (#[trigger] metas.drop_last()[i]).name@ == c
            && metas.drop_last()[i].parent@ == parent;
        assert(metas[i] == metas.drop_last()[i]);
    } else {
        assert(metas[metas.len() - 1] == metas.last());
    }
}

pub proof fn lemma_names_with_parent_includes(metas: Seq<BranchMeta>, parent: Seq<char>, i: int)
    requires
        0 <= i < metas.len(),
        metas[i].parent@ == parent,
    ensures
        names_with_parent(metas, parent).contains(metas[i].name@),
    decreases metas.len(),
{
    let rest = names_with_parent(metas.drop_last(), parent);
    if i == metas.len() - 1 {
        assert(names_with_parent(metas, parent) == rest.push(metas.last().name@));
        assert(rest.push(metas.last().name@)[rest.len() as int] == metas[i].name@);
    } else {
        assert(metas.drop_last()[i] == metas[i]);
        lemma_names_with_parent_includes(metas.drop_last(), parent, i);
        let j = rest.index_of(metas[i].name@);
        if metas.last().parent@ == parent {
            assert(rest.push(metas.last().name@)[j] == metas[i].name@);
        }
    }
}

/// The stack: its trunk, its remote, and the branches stacked on the trunk,
/// each under its name.
pub struct StackState {
    pub trunk: String,
    pub remote: String,
    pub branches: NameMap<BranchMeta>,
}

impl StackState {
    pub open spec fn managed(self, n: Seq<char>) -> bool {
        self.branches.as_map().contains_key(n)
    }

    pub open spec fn meta(self, n: Seq<char>) -> BranchMeta {
        self.branches.as_map()[n]
    }

    pub open spec fn parent_of(self, n: Seq<char>) -> Seq<char> {
        self.meta(n).parent@
    }

    pub open spec fn trunk_is(self, n: Seq<char>) -> bool {
        n == self.trunk@
    }

    /// `path` walks from `branch` towards the trunk: each step goes from a
    /// recorded branch other than the trunk to its parent, no branch occurs
    /// twice, and the walk ends at the trunk, at a branch that is not
    /// recorded, or where the next step would revisit a branch.
    pub open spec fn is_trunk_path(self, branch: Seq<char>, path: Seq<Seq<char>>) -> bool {
        &&& path.len() >= 1
        &&& path[0] == branch
        &&& path.no_duplicates()
        &&& forall|i: int|
            #![trigger path[i]]
            0 <= i < path.len() - 1 ==> self.managed(path[i]) && !self.trunk_is(path[i])
                && path[i + 1] == self.parent_of(path[i])
        &&& {
            let last = path.last();
            self.trunk_is(last) || !self.managed(last) || path.contains(self.parent_of(last))
        }
    }

    /// The walk from `branch` to the trunk.
    pub open spec fn trunk_path(self, branch: Seq<char>) -> Seq<Seq<char>> {
        choose|p: Seq<Seq<char>>| self.is_trunk_path(branch, p)
    }

    proof fn lemma_trunk_path_prefix(self, branch: Seq<char>, p1: Seq<Seq<char>>, p2: Seq<Seq<char>>, k: int)
        requires
            self.is_trunk_path(branch, p1),
            self.is_trunk_path(branch, p2),
            0 <= k < p1.len(),
            k < p2.len(),
        ensures
            forall|i: int| 0 <= i <= k ==> p1[i] == p2[i],
        decreases k,
    {
        if k > 0 {
            self.lemma_trunk_path_prefix(branch, p1, p2, k - 1);
            assert(p1[k - 1] == p2[k - 1]);
        }
    }

    proof fn lemma_trunk_path_longer(self, branch: Seq<char>, p1: Seq<Seq<char>>, p2: Seq<Seq<char>>)
        requires
            self.is_trunk_path(branch, p1),
            self.is_trunk_path(branch, p2),
        ensures
            p1.len() >= p2.len(),
    {
        if p1.len() < p2.len() {
            let n = p1.len() - 1;
            self.lemma_trunk_path_prefix(branch, p1, p2, n);
            let last = p1.last();
            assert(p2[n] == last);
            assert(self.managed(p2[n]) && !self.trunk_is(p2[n]) && p2[n + 1] == self.parent_of(p2[n]));
            let j = p1.index_of(self.parent_of(last));
            assert(p1[j] == p2[j]);
            assert(p2[j] == p2[n + 1]);
        }
    }

    /// There is only one walk from a branch to the trunk.
    pub proof fn lemma_trunk_path_unique(self, branch: Seq<char>, p1: Seq<Seq<char>>, p2: Seq<Seq<char>>)
        requires
            self.is_trunk_path(branch, p1),
            self.is_trunk_path(branch, p2),
        ensures
            p1 == p2,
    {
        self.lemma_trunk_path_longer(branch, p1, p2);
        self.lemma_trunk_path_longer(branch, p2, p1);
        self.lemma_trunk_path_prefix(branch, p1, p2, p1.len() - 1);
        assert(p1 =~= p2);
    }

    /// Each recorded branch records its own name.
    pub open spec fn names_match(self) -> bool {
        forall|k: Seq<char>| #[trigger] self.managed(k) ==> self.meta(k).name@ == k
    }

    /// Under matching names, a child of `p` is a recorded branch whose parent is `p`, and
    /// every such branch is a child of `p`.
    pub proof fn lemma_child_names(self, p: Seq<char>, c: Seq<char>)
        requires
            self.branches.wf(),
            self.names_match(),
        ensures
            self.child_names(p).contains(c) <==> (self.managed(c) && self.parent_of(c) == p),
    {
        let vs = self.branches.value_seq();
        let ks = self.branches.key_seq();
        if self.child_names(p).contains(c) {
            lemma_names_with_parent_member(vs, p, c);
            let i = choose|i: int| 0 <= i < vs.len() && (#[trigger] vs[i]).name@ == c && vs[i].parent@ == p;
            assert(self.branches.as_map()[ks[i]] == vs[i]);
            assert(self.managed(ks[i]));
            assert(ks[i] == c);
        }
        if self.managed(c) && self.parent_of(c) == p {
            let i = ks.index_of(c);
            assert(ks[i] == c);
            assert(self.branches.as_map()[ks[i]] == vs[i]);
            lemma_names_with_parent_includes(vs, p, i);
        }
    }

    /// `x` reaches `y` in `n` steps, each from a recorded branch other than
    /// the trunk to its parent.
    pub open spec fn reaches(self, x: Seq<char>, y: Seq<char>, n: nat) -> bool
        decreases n,
    {
        if n == 0 {
            x == y
        } else {
            self.managed(x) && !self.trunk_is(x) && self.reaches(self.parent_of(x), y, (n - 1) as nat)
        }
    }

    /// Following parents from `x` leads back to `x`.
    pub open spec fn on_cycle(self, x: Seq<char>) -> bool {
        exists|n: nat| n >= 1 && #[trigger] self.reaches(x, x, n)
    }

    /// No branch is its own ancestor.
    pub open spec fn acyclic(self) -> bool {
        forall|x: Seq<char>| !#[trigger] self.on_cycle(x)
    }

    pub proof fn lemma_reaches_compose(self, a: Seq<char>, b: Seq<char>, c: Seq<char>, n: nat, m: nat)
        requires
            self.reaches(a, b, n),
            self.reaches(b, c, m),
        ensures
            self.reaches(a, c, n + m),
        decreases n,
    {
        if n > 0 {
            self.lemma_reaches_compose(self.parent_of(a), b, c, (n - 1) as nat, m);
        }
    }

    /// The names the walk over the stack can meet: the recorded branches and their parents.
    pub open spec fn universe(self) -> Seq<Seq<char>> {
        self.branches.key_seq() + self.branches.key_seq().map_values(|k: Seq<char>| self.parent_of(k))
    }

    /// `order` lists the recorded branches other than the trunk, each once
    /// and nothing else, and every branch whose parent is a recorded branch
    /// comes after that parent unless it lies on a cycle.
    pub open spec fn is_topo_order(self, order: Seq<Seq<char>>) -> bool {
        &&& order.no_duplicates()
        &&& forall|i: int| 0 <= i < order.len() ==> self.managed(#[trigger] order[i]) && !self.trunk_is(order[i])
        &&& forall|k: Seq<char>|
            #[trigger] self.branches.key_seq().contains(k) && !self.trunk_is(k) ==> order.contains(k)
        &&& forall|i: int|
            0 <= i < order.len() && self.managed(self.parent_of(#[trigger] order[i])) && !self.trunk_is(
                self.parent_of(order[i]),
            ) ==> order.subrange(0, i).contains(self.parent_of(order[i])) || self.on_cycle(order[i])
    }

    spec fn dfs_inv(self, visited: Seq<Seq<char>>, result: Seq<Seq<char>>, stack: Seq<Seq<char>>) -> bool {
        &&& visited.no_duplicates()
        &&& result.no_duplicates()
        &&& forall|i: int| 0 <= i < visited.len() ==> self.universe().contains(#[trigger] visited[i])
        &&& forall|i: int| 0 <= i < result.len() ==> visited.contains(#[trigger] result[i])
        &&& forall|i: int| 0 <= i < result.len() ==> self.managed(#[trigger] result[i]) && !self.trunk_is(result[i])
        &&& forall|x: Seq<char>| #[trigger] visited.contains(x) && self.managed(x) ==> result.contains(x) || stack.contains(x)
        &&& forall|i: int|
            0 <= i < stack.len() ==> self.managed(#[trigger] stack[i]) && !self.trunk_is(stack[i])
                && visited.contains(stack[i]) && !result.contains(stack[i])
        &&& forall|i: int|
            0 <= i < stack.len() - 1 ==> #[trigger] stack[i + 1] == self.parent_of(stack[i])
        &&& forall|i: int|
            0 <= i < result.len() && self.managed(#[trigger] result[i]) && !self.trunk_is(self.parent_of(result[i]))
                ==> visited.contains(self.parent_of(result[i]))
        &&& forall|i: int|
            0 <= i < result.len() && self.managed(self.parent_of(#[trigger] result[i])) && !self.trunk_is(
                self.parent_of(result[i]),
            ) ==> result.subrange(0, i).contains(self.parent_of(result[i])) || self.on_cycle(result[i])
    }

    pub proof fn lemma_stack_reaches(self, stack: Seq<Seq<char>>, a: int, b: int)
        requires
            0 <= a <= b < stack.len(),
            forall|i: int| 0 <= i < stack.len() ==> self.managed(#[trigger] stack[i]) && !self.trunk_is(stack[i]),
            forall|i: int| 0 <= i < stack.len() - 1 ==> #[trigger] stack[i + 1] == self.parent_of(stack[i]),
        ensures
            self.reaches(stack[a], stack[b], (b - a) as nat),
        decreases b - a,
    {
        if a < b {
            self.lemma_stack_reaches(stack, a + 1, b);
            assert(stack[a + 1] == self.parent_of(stack[a]));
        }
    }

    fn visit(
        &self,
        name: &str,
        visited: &mut Vec<String>,
        result: &mut Vec<String>,
        Ghost(stack): Ghost<Seq<Seq<char>>>,
    )
        requires
            self.dfs_inv(views(old(visited)@), views(old(result)@), stack),
            self.universe().contains(name@),
            stack.len() == 0 ==> self.managed(name@),
            stack.len() > 0 ==> name@ == self.parent_of(stack.last()),
        ensures
            self.dfs_inv(views(final(visited)@), views(final(result)@), stack),
            views(old(result)@).is_prefix_of(views(final(result)@)),
            forall|x: Seq<char>| views(old(visited)@).contains(x) ==> #[trigger] views(final(visited)@).contains(x),
            !self.trunk_is(name@) ==> views(final(visited)@).contains(name@),
        decreases self.universe().len() - views(old(visited)@).len(),
    {
        if contains_str(visited, name) || self.is_trunk(name) {
            return;
        }
        let ghost v0 = views(visited@);
        let ghost r0 = views(result@);
        proof {
            lemma_distinct_within(v0.push(name@), self.universe());
        }
        visited.push(name.to_string());
        let ghost v1 = views(visited@);
        proof {
            assert(v1 =~= v0.push(name@));
            assert(forall|x: Seq<char>| v0.contains(x) ==> #[trigger] v1.contains(x));
        }
        match self.branches.get(name) {
            Some(meta) => {
                let ghost stack1 = stack.push(name@);
                let ghost par = meta.parent@;
                proof {
                    assert(!stack.contains(name@)) by {
                        if stack.contains(name@) {
                            let k = stack.index_of(name@);
                            assert(v0.contains(stack[k]));
                        }
                    }
                    self.lemma_enter(v0, r0, stack, name@);
                    let i = self.branches.key_seq().index_of(name@);
                    let ks = self.branches.key_seq();
                    assert(ks[i] == name@);
                    assert(self.universe()[ks.len() + i] == par);
                    lemma_distinct_within(v1, self.universe());
                }
                self.visit(meta.parent.as_str(), visited, result, Ghost(stack1));
                let ghost v2 = views(visited@);
                let ghost r2 = views(result@);
                result.push(name.to_string());
                proof {
                    assert(views(result@) =~= r2.push(name@));
                    self.lemma_leave_managed(v1, r0, v2, r2, stack, name@);
                }
            },
            None => {
                proof {
                    self.lemma_leave_unmanaged(v0, r0, stack, name@);
                    assert(r0.is_prefix_of(views(result@)));
                }
            },
        }
    }

    proof fn lemma_dfs_done(self, v: Seq<Seq<char>>, r: Seq<Seq<char>>)
        requires
            self.dfs_inv(v, r, Seq::empty()),
            forall|k: Seq<char>| #[trigger] self.branches.key_seq().contains(k) && !self.trunk_is(k) ==> v.contains(k),
        ensures
            self.is_topo_order(r),
    {
        assert forall|k: Seq<char>| #[trigger] self.branches.key_seq().contains(k) && !self.trunk_is(k) implies r.contains(k) by {
            assert(v.contains(k));
            assert(self.managed(k));
        }
    }

    /// Returns branches in topological order (parents before children).
    pub fn topo_order(&self) -> (order: Vec<String>)
        ensures
            self.is_topo_order(views(order@)),
    {
        let mut result: Vec<String> = Vec::new();
        let mut visited: Vec<String> = Vec::new();
        let n = self.branches.len();
        proof {
            assert(views(result@) =~= Seq::<Seq<char>>::empty());
            assert(views(visited@) =~= Seq::<Seq<char>>::empty());
        }
        for i in 0..n
            invariant
                n == self.branches.key_seq().len(),
                self.dfs_inv(views(visited@), views(result@), Seq::empty()),
                forall|j: int|
                    0 <= j < i && !self.trunk_is(self.branches.key_seq()[j])
                        ==> views(visited@).contains(#[trigger] self.branches.key_seq()[j]),
        {
            let name = self.branches.key_at(i);
            let ghost v0 = views(visited@);
            proof {
                assert(self.universe()[i as int] == name@);
            }
            self.visit(name.as_str(), &mut visited, &mut result, Ghost(Seq::empty()));
            proof {
                assert forall|j: int|
                    0 <= j < i + 1 && !self.trunk_is(self.branches.key_seq()[j])
                    implies views(visited@).contains(#[trigger] self.branches.key_seq()[j]) by {
                    if j < i {
                        assert(v0.contains(self.branches.key_seq()[j]));
                    }
                }
            }
        }
        proof {
            assert forall|k: Seq<char>| #[trigger] self.branches.key_seq().contains(k) && !self.trunk_is(k)
                implies views(visited@).contains(k) by {
                let j = self.branches.key_seq().index_of(k);
                assert(self.branches.key_seq()[j] == k);
            }
            self.lemma_dfs_done(views(visited@), views(result@));
        }
        result
    }

    proof fn lemma_enter(self, v0: Seq<Seq<char>>, r0: Seq<Seq<char>>, stack: Seq<Seq<char>>, name: Seq<char>)
        requires
            self.dfs_inv(v0, r0, stack),
            !v0.contains(name),
            self.universe().contains(name),
            self.managed(name),
            !self.trunk_is(name),
            stack.len() > 0 ==> name == self.parent_of(stack.last()),
        ensures
            self.dfs_inv(v0.push(name), r0, stack.push(name)),
    {
        let v1 = v0.push(name);
        let s1 = stack.push(name);
        assert forall|x: Seq<char>| #[trigger] v1.contains(x) && self.managed(x) implies r0.contains(x) || s1.contains(x) by {
            if x == name {
                assert(s1[s1.len() - 1] == name);
            } else {
                let j = v1.index_of(x);
                assert(v0[j] == x);
                if stack.contains(x) {
                    let k = stack.index_of(x);
                    assert(s1[k] == x);
                }
            }
        }
        assert forall|i: int| 0 <= i < s1.len() implies self.managed(#[trigger] s1[i]) && !self.trunk_is(s1[i])
            && v1.contains(s1[i]) && !r0.contains(s1[i]) by {
            if i < stack.len() {
                assert(s1[i] == stack[i]);
                let j = v0.index_of(stack[i]);
                assert(v1[j] == stack[i]);
            } else {
                assert(v1[v0.len() as int] == name);
            }
        }
        assert forall|i: int| 0 <= i < s1.len() - 1 implies #[trigger] s1[i + 1] == self.parent_of(s1[i]) by {
            if i < stack.len() - 1 {
                assert(s1[i + 1] == stack[i + 1] && s1[i] == stack[i]);
            }
        }
        assert forall|i: int| 0 <= i < v1.len() implies self.universe().contains(#[trigger] v1[i]) by {
            if i < v0.len() {
                assert(v1[i] == v0[i]);
            }
        }
        assert forall|i: int| 0 <= i < r0.len() implies v1.contains(#[trigger] r0[i]) by {
            let j = v0.index_of(r0[i]);
            assert(v1[j] == r0[i]);
        }
        assert forall|i: int|
            0 <= i < r0.len() && self.managed(#[trigger] r0[i]) && !self.trunk_is(self.parent_of(r0[i]))
            implies v1.contains(self.parent_of(r0[i])) by {
            let j = v0.index_of(self.parent_of(r0[i]));
            assert(v1[j] == self.parent_of(r0[i]));
        }
    }

    proof fn lemma_leave_managed(
        self,
        v1: Seq<Seq<char>>,
        r0: Seq<Seq<char>>,
        v2: Seq<Seq<char>>,
        r2: Seq<Seq<char>>,
        stack: Seq<Seq<char>>,
        name: Seq<char>,
    )
        requires
            v1.contains(name),
            !stack.contains(name),
            self.dfs_inv(v2, r2, stack.push(name)),
            r0.is_prefix_of(r2),
            forall|x: Seq<char>| v1.contains(x) ==> #[trigger] v2.contains(x),
            self.managed(name),
            !self.trunk_is(name),
            !self.trunk_is(self.parent_of(name)) ==> v2.contains(self.parent_of(name)),
        ensures
            self.dfs_inv(v2, r2.push(name), stack),
            r0.is_prefix_of(r2.push(name)),
    {
        let s1 = stack.push(name);
        let r3 = r2.push(name);
        let n = r2.len() as int;
        assert(s1[s1.len() - 1] == name);
        assert(!r2.contains(name));
        assert(v2.contains(name));
        assert forall|a: int, b: int| 0 <= a < b < r3.len() implies r3[a] != r3[b] by {
            if b == n {
                assert(r2.contains(r2[a]));
            } else {
                assert(r3[a] == r2[a] && r3[b] == r2[b]);
            }
        }
        assert forall|i: int| 0 <= i < r3.len() implies v2.contains(#[trigger] r3[i]) by {
            if i < n { assert(r3[i] == r2[i]); }
        }
        assert forall|i: int| 0 <= i < r3.len() implies self.managed(#[trigger] r3[i]) && !self.trunk_is(r3[i]) by {
            if i < n { assert(r3[i] == r2[i]); }
        }
        assert forall|x: Seq<char>| #[trigger] v2.contains(x) && self.managed(x) implies r3.contains(x) || stack.contains(x) by {
            if x == name {
                assert(r3[n] == name);
            } else if r2.contains(x) {
                let j = r2.index_of(x);
                assert(r3[j] == x);
            } else {
                let k = s1.index_of(x);
                assert(k < stack.len());
                assert(stack[k] == x);
            }
        }
        assert forall|i: int| 0 <= i < stack.len() implies self.managed(#[trigger] stack[i]) && !self.trunk_is(stack[i])
            && v2.contains(stack[i]) && !r3.contains(stack[i]) by {
            assert(s1[i] == stack[i]);
            if r3.contains(stack[i]) {
                let j = r3.index_of(stack[i]);
                if j < n { assert(r2[j] == stack[i]); } else { assert(stack.contains(name)); }
            }
        }
        assert forall|i: int| 0 <= i < stack.len() - 1 implies #[trigger] stack[i + 1] == self.parent_of(stack[i]) by {
            assert(s1[i + 1] == stack[i + 1] && s1[i] == stack[i]);
        }
        assert forall|i: int|
            0 <= i < r3.len() && self.managed(#[trigger] r3[i]) && !self.trunk_is(self.parent_of(r3[i]))
            implies v2.contains(self.parent_of(r3[i])) by {
            if i < n { assert(r3[i] == r2[i]); }
        }
        assert forall|i: int|
            0 <= i < r3.len() && self.managed(self.parent_of(#[trigger] r3[i])) && !self.trunk_is(self.parent_of(r3[i]))
            implies r3.subrange(0, i).contains(self.parent_of(r3[i])) || self.on_cycle(r3[i]) by {
            if i < n {
                assert(r3[i] == r2[i]);
                assert(r3.subrange(0, i) =~= r2.subrange(0, i));
            } else {
                let p = self.parent_of(name);
                assert(r3.subrange(0, i) =~= r2);
                if !r2.contains(p) {
                    assert(s1.contains(p));
                    let m = s1.index_of(p);
                    let last = s1.len() - 1;
                    self.lemma_stack_reaches(s1, m, last);
                    assert(self.reaches(name, p, 1)) by {
                        assert(self.reaches(p, p, 0));
                    }
                    self.lemma_reaches_compose(name, p, name, 1, (last - m) as nat);
                    assert(self.reaches(name, name, (1 + last - m) as nat));
                }
            }
        }
        assert(r0.is_prefix_of(r3)) by {
            assert forall|i: int| 0 <= i < r0.len() implies r0[i] == r3[i] by {
                assert(r0[i] == r2[i]);
            }
        }
    }

    proof fn lemma_leave_unmanaged(self, v0: Seq<Seq<char>>, r0: Seq<Seq<char>>, stack: Seq<Seq<char>>, name: Seq<char>)
        requires
            self.dfs_inv(v0, r0, stack),
            !v0.contains(name),
            self.universe().contains(name),
            !self.managed(name),
        ensures
            self.dfs_inv(v0.push(name), r0, stack),
    {
        let v1 = v0.push(name);
        assert forall|a: int, b: int| 0 <= a < b < v1.len() implies v1[a] != v1[b] by {
            if b == v0.len() { assert(v0.contains(v0[a])); } else { assert(v1[a] == v0[a] && v1[b] == v0[b]); }
        }
        assert forall|i: int| 0 <= i < v1.len() implies self.universe().contains(#[trigger] v1[i]) by {
            if i < v0.len() { assert(v1[i] == v0[i]); }
        }
        assert forall|i: int| 0 <= i < r0.len() implies v1.contains(#[trigger] r0[i]) by {
            let j = v0.index_of(r0[i]);
            assert(v1[j] == r0[i]);
        }
        assert forall|x: Seq<char>| #[trigger] v1.contains(x) && self.managed(x) implies r0.contains(x) || stack.contains(x) by {
            let j = v1.index_of(x);
            assert(v0[j] == x);
        }
        assert forall|i: int| 0 <= i < stack.len() implies self.managed(#[trigger] stack[i]) && !self.trunk_is(stack[i])
            && v1.contains(stack[i]) && !r0.contains(stack[i]) by {
            let j = v0.index_of(stack[i]);
            assert(v1[j] == stack[i]);
        }
        assert forall|i: int|
            0 <= i < r0.len() && self.managed(#[trigger] r0[i]) && !self.trunk_is(self.parent_of(r0[i]))
            implies v1.contains(self.parent_of(r0[i])) by {
            let j = v0.index_of(self.parent_of(r0[i]));
            assert(v1[j] == self.parent_of(r0[i]));
        }
    }

    /// The names of the recorded branches whose parent is `parent`, in
    /// the order in which the branches are kept.
    pub open spec fn child_names(self, parent: Seq<char>) -> Seq<Seq<char>> {
        names_with_parent(self.branches.value_seq(), parent)
    }

    /// The children of `parent` in dictionary order.
    pub open spec fn sorted_children(self, parent: Seq<char>) -> Seq<Seq<char>> {
        choose|s: Seq<Seq<char>>| sorted(s) && s.to_multiset() == self.child_names(parent).to_multiset()
    }

    /// The child of `n` that comes first in dictionary order.
    pub open spec fn first_child(self, n: Seq<char>) -> Seq<char> {
        choose|c: Seq<char>|
            self.child_names(n).contains(c) && forall|d: Seq<char>|
                #[trigger] self.child_names(n).contains(d) ==> char_seq_le(c, d)
    }

    /// `walk` starts at `branch`, steps each time to the first child, never
    /// repeats a branch, and ends at a branch without children or where the
    /// next step would repeat.
    pub open spec fn is_top_walk(self, branch: Seq<char>, walk: Seq<Seq<char>>) -> bool {
        &&& walk.len() >= 1
        &&& walk[0] == branch
        &&& walk.no_duplicates()
        &&& forall|i: int|
            #![trigger walk[i]]
            0 <= i < walk.len() - 1 ==> self.child_names(walk[i]).len() > 0 && walk[i + 1] == self.first_child(walk[i])
        &&& {
            let last = walk.last();
            self.child_names(last).len() == 0 || walk.contains(self.first_child(last))
        }
    }

    /// The walk from `branch` to the top of its stack.
    pub open spec fn top_walk(self, branch: Seq<char>) -> Seq<Seq<char>> {
        choose|w: Seq<Seq<char>>| self.is_top_walk(branch, w)
    }

    proof fn lemma_top_walk_prefix(self, branch: Seq<char>, w1: Seq<Seq<char>>, w2: Seq<Seq<char>>, k: int)
        requires
            self.is_top_walk(branch, w1),
            self.is_top_walk(branch, w2),
            0 <= k < w1.len(),
            k < w2.len(),
        ensures
            forall|i: int| 0 <= i <= k ==> w1[i] == w2[i],
        decreases k,
    {
        if k > 0 {
            self.lemma_top_walk_prefix(branch, w1, w2, k - 1);
            assert(w1[k - 1] == w2[k - 1]);
        }
    }

    proof fn lemma_top_walk_longer(self, branch: Seq<char>, w1: Seq<Seq<char>>, w2: Seq<Seq<char>>)
        requires
            self.is_top_walk(branch, w1),
            self.is_top_walk(branch, w2),
        ensures
            w1.len() >= w2.len(),
    {
        if w1.len() < w2.len() {
            let n = w1.len() - 1;
            self.lemma_top_walk_prefix(branch, w1, w2, n);
            let last = w1.last();
            assert(w2[n] == last);
            assert(self.child_names(w2[n]).len() > 0 && w2[n + 1] == self.first_child(w2[n]));
            let j = w1.index_of(self.first_child(last));
            assert(w1[j] == w2[j]);
            assert(w2[j] == w2[n + 1]);
        }
    }

    /// There is only one walk from a branch to the top of its stack.
    pub proof fn lemma_top_walk_unique(self, branch: Seq<char>, w1: Seq<Seq<char>>, w2: Seq<Seq<char>>)
        requires
            self.is_top_walk(branch, w1),
            self.is_top_walk(branch, w2),
        ensures
            w1 == w2,
    {
        self.lemma_top_walk_longer(branch, w1, w2);
        self.lemma_top_walk_longer(branch, w2, w1);
        self.lemma_top_walk_prefix(branch, w1, w2, w1.len() - 1);
        assert(w1 =~= w2);
    }

    /// The children of `parent`, in dictionary order.
    pub fn children_of(&self, parent: &str) -> (children: Vec<String>)
        ensures
            sorted(views(children@)),
            views(children@).to_multiset() == self.child_names(parent@).to_multiset(),
            views(children@) == self.sorted_children(parent@),
    {
        let mut found: Vec<String> = Vec::new();
        let n = self.branches.len();
        proof {
            use_type_invariant(&self.branches);
            assert(views(found@) =~= self.child_names_upto(parent@, 0));
        }
        for i in 0..n
            invariant
                n == self.branches.key_seq().len(),
                n == self.branches.value_seq().len(),
                views(found@) == self.child_names_upto(parent@, i as int),
        {
            let meta = self.branches.value_at(i);
            proof {
                let vs = self.branches.value_seq();
                assert(vs.take(i + 1).drop_last() =~= vs.take(i as int));
                assert(vs.take(i + 1).last() == vs[i as int]);
            }
            if str_eq(meta.parent.as_str(), parent) {
                found.push(meta.name.clone());
                proof {
                    assert(views(found@) =~= self.child_names_upto(parent@, i as int).push(meta.name@));
                }
            }
        }
        proof {
            assert(self.branches.value_seq().take(n as int) =~= self.branches.value_seq());
        }
        let kids = sort_strings(found);
        proof {
            let c = self.sorted_children(parent@);
            crate::order::lemma_sorted_unique(c, views(kids@));
        }
        kids
    }

    proof fn lemma_first_child(self, n: Seq<char>, kids: Seq<Seq<char>>)
        requires
            sorted(kids),
            kids.to_multiset() == self.child_names(n).to_multiset(),
        ensures
            kids.len() == self.child_names(n).len(),
            kids.len() > 0 ==> self.child_names(n).contains(kids[0]) && self.first_child(n) == kids[0],
    {
        broadcast use vstd::seq_lib::group_to_multiset_ensures;

        let names = self.child_names(n);
        assert(kids.to_multiset().len() == kids.len());
        assert(names.to_multiset().len() == names.len());
        if kids.len() > 0 {
            assert(kids.to_multiset().count(kids[0]) > 0);
            assert(names.contains(kids[0]));
            assert forall|d: Seq<char>| #[trigger] names.contains(d) implies char_seq_le(kids[0], d) by {
                assert(names.to_multiset().count(d) > 0);
                assert(kids.contains(d));
                let k = kids.index_of(d);
                if k == 0 {
                    crate::order::lemma_le_reflexive(d);
                } else {
                    assert(char_seq_le(kids[0], kids[k]));
                }
            }
            let c = self.first_child(n);
            assert(names.contains(c) && forall|d: Seq<char>| #[trigger] names.contains(d) ==> char_seq_le(c, d));
            lemma_le_antisymmetric(c, kids[0]);
        }
    }

    /// Finds the top branch (furthest from trunk) by following the first child repeatedly.
    pub fn stack_top(&self, branch: &str) -> (top: String)
        ensures
            self.is_top_walk(branch@, self.top_walk(branch@)),
            top@ == self.top_walk(branch@).last(),
    {
        let mut current = branch.to_string();
        let mut visited: Vec<String> = Vec::new();
        visited.push(branch.to_string());
        let ghost all_names = self.branches.value_seq().map_values(|m: BranchMeta| m.name@);
        proof {
            assert(views(visited@) =~= seq![branch@]);
        }
        loop
            invariant_except_break
                views(visited@).len() >= 1,
                views(visited@)[0] == branch@,
                views(visited@).no_duplicates(),
                forall|i: int|
                    #![trigger views(visited@)[i]]
                    0 <= i < views(visited@).len() - 1 ==> self.child_names(views(visited@)[i]).len() > 0
                        && views(visited@)[i + 1] == self.first_child(views(visited@)[i]),
                forall|i: int| 1 <= i < views(visited@).len() ==> all_names.contains(#[trigger] views(visited@)[i]),
                current@ == views(visited@).last(),
                all_names == self.branches.value_seq().map_values(|m: BranchMeta| m.name@),
            ensures
                self.is_top_walk(branch@, views(visited@)),
                current@ == views(visited@).last(),
            decreases self.branches.value_seq().len() + 1 - visited@.len(),
        {
            let ghost w = views(visited@);
            let children = self.children_of(current.as_str());
            proof {
                self.lemma_first_child(current@, views(children@));
            }
            if children.len() == 0 {
                break;
            }
            let next = children[0].clone();
            if contains_str(&visited, next.as_str()) {
                break;
            }
            proof {
                let vs = self.branches.value_seq();
                lemma_names_with_parent_member(vs, current@, next@);
                let k = choose|k: int| 0 <= k < vs.len() && (#[trigger] vs[k]).name@ == next@ && vs[k].parent@ == current@;
                assert(all_names[k] == next@);
                let w2 = w.push(next@);
                assert forall|a: int, b: int| 0 <= a < b < w2.len() implies w2[a] != w2[b] by {
                    if b == w.len() {
                        assert(w.contains(w[a]));
                    } else {
                        assert(w2[a] == w[a] && w2[b] == w[b]);
                    }
                }
                assert forall|i: int| 0 <= i < w2.drop_first().len() implies all_names.contains(#[trigger] w2.drop_first()[i]) by {
                    assert(w2.drop_first()[i] == w2[i + 1]);
                    if i + 1 < w.len() {
                        assert(w2[i + 1] == w[i + 1]);
                    }
                }
                assert(w2.drop_first().no_duplicates()) by {
                    assert forall|a: int, b: int| 0 <= a < b < w2.drop_first().len() implies w2.drop_first()[a] != w2.drop_first()[b] by {
                        assert(w2[a + 1] != w2[b + 1]);
                    }
                }
                lemma_distinct_within(w2.drop_first(), all_names);
            }
            visited.push(next.clone());
            current = next;
            proof {
                let w2 = views(visited@);
                assert(w2 =~= w.push(current@));
                assert forall|a: int, b: int| 0 <= a < b < w2.len() implies w2[a] != w2[b] by {
                    if b == w.len() {
                        assert(w.contains(w[a]));
                    } else {
                        assert(w2[a] == w[a] && w2[b] == w[b]);
                    }
                }
                assert forall|i: int| 0 <= i < w2.len() - 1 implies #[trigger] self.child_names(w2[i]).len() > 0
                    && w2[i + 1] == self.first_child(w2[i]) by {
                    if i < w.len() - 1 {
                        assert(w2[i] == w[i] && w2[i + 1] == w[i + 1]);
                    }
                }
                assert forall|i: int| 1 <= i < w2.len() implies all_names.contains(#[trigger] w2[i]) by {
                    if i < w.len() {
                        assert(w2[i] == w[i]);
                    }
                }
            }
        }
        proof {
            self.lemma_top_walk_unique(branch@, self.top_walk(branch@), views(visited@));
        }
        current
    }

    /// Finds the bottom branch (closest to trunk) in the stack containing `branch`.
    pub fn stack_bottom(&self, branch: &str) -> (bottom: String)
        ensures
            self.trunk_path(branch@).len() >= 2 ==> bottom@ == self.trunk_path(branch@)[self.trunk_path(
                branch@,
            ).len() - 2],
            self.trunk_path(branch@).len() < 2 ==> bottom@ == branch@,
    {
        let path = self.path_to_trunk(branch);
        if path.len() >= 2 {
            proof {
                assert(views(path@)[path@.len() - 2] == path@[path@.len() - 2]@);
            }
            path[path.len() - 2].clone()
        } else {
            branch.to_string()
        }
    }

    spec fn child_names_upto(self, parent: Seq<char>, i: int) -> Seq<Seq<char>> {
        names_with_parent(self.branches.value_seq().take(i), parent)
    }

    pub fn new(trunk: String) -> (s: Self)
        ensures
            s.trunk == trunk,
            s.remote@ == "origin"@,
            s.branches.key_seq().len() == 0,
            s.branches.as_map() == Map::<Seq<char>, BranchMeta>::empty(),
    {
        let s = StackState { trunk, remote: "origin".to_string(), branches: NameMap::new() };
        proof {
            use_type_invariant(&s.branches);
            assert(s.branches.as_map() =~= Map::<Seq<char>, BranchMeta>::empty());
        }
        s
    }

    /// Records `name` on top of `parent`; a branch already recorded under
    /// that name is replaced.
    pub fn add_branch(&mut self, name: &str, parent: &str, parent_head: &str)
        ensures
            final(self).trunk == old(self).trunk,
            final(self).remote == old(self).remote,
            final(self).managed(name@),
            final(self).meta(name@).name@ == name@,
            final(self).meta(name@).parent@ == parent@,
            final(self).meta(name@).parent_head@ == parent_head@,
            final(self).meta(name@).pr_number is None,
            forall|n: Seq<char>| n != name@ ==> (#[trigger] final(self).managed(n) == old(self).managed(n)),
            forall|n: Seq<char>| n != name@ && old(self).managed(n) ==> #[trigger] final(self).meta(n) == old(self).meta(n),
            old(self).managed(name@) ==> final(self).branches.key_seq() == old(self).branches.key_seq(),
            !old(self).managed(name@) ==> final(self).branches.key_seq() == old(self).branches.key_seq().push(name@),
    {
        let meta = BranchMeta {
            name: name.to_string(),
            parent: parent.to_string(),
            parent_head: parent_head.to_string(),
            pr_number: None,
        };
        self.branches.insert(name.to_string(), meta);
    }

    /// Forgets `name`; the other branches are untouched.
    pub fn remove_branch(&mut self, name: &str)
        ensures
            final(self).trunk == old(self).trunk,
            final(self).remote == old(self).remote,
            final(self).branches.as_map() == old(self).branches.as_map().remove(name@),
    {
        self.branches.remove(name);
    }

    pub fn get_branch(&self, name: &str) -> (r: Result<&BranchMeta, EzError>)
        ensures
            match r {
                Ok(m) => self.managed(name@) && *m == self.meta(name@),
                Err(e) => !self.managed(name@) && (e matches EzError::BranchNotInStack(n) && n@ == name@),
            },
    {
        match self.branches.get(name) {
            Some(m) => Ok(m),
            None => Err(EzError::BranchNotInStack(name.to_string())),
        }
    }

    pub fn get_branch_mut(&mut self, name: &str) -> (r: Result<&mut BranchMeta, EzError>)
        ensures
            match r {
                Ok(m) => old(self).managed(name@) && *m == old(self).meta(name@)
                    && final(self).trunk == old(self).trunk
                    && final(self).remote == old(self).remote
                    && final(self).branches.key_seq() == old(self).branches.key_seq()
                    && final(self).branches.as_map() == old(self).branches.as_map().insert(name@, *final(m)),
                Err(e) => !old(self).managed(name@) && *final(self) == *old(self)
                    && (e matches EzError::BranchNotInStack(n) && n@ == name@),
            },
    {
        match self.branches.get_mut(name) {
            Some(m) => Ok(m),
            None => Err(EzError::BranchNotInStack(name.to_string())),
        }
    }

    /// Walks up from a branch to trunk, returning the path (branch first, trunk last).
    pub fn path_to_trunk(&self, branch: &str) -> (path: Vec<String>)
        ensures
            self.is_trunk_path(branch@, views(path@)),
            views(path@) == self.trunk_path(branch@),
    {
        let mut path: Vec<String> = Vec::new();
        path.push(branch.to_string());
        let mut current = branch.to_string();
        proof {
            assert(views(path@) =~= seq![branch@]);
        }
        loop
            invariant_except_break
                views(path@).len() >= 1,
                views(path@)[0] == branch@,
                views(path@).no_duplicates(),
                forall|i: int|
                    #![trigger views(path@)[i]]
                    0 <= i < views(path@).len() - 1 ==> self.managed(views(path@)[i]) && !self.trunk_is(views(path@)[i])
                        && views(path@)[i + 1] == self.parent_of(views(path@)[i]),
                current@ == views(path@).last(),
            ensures
                self.is_trunk_path(branch@, views(path@)),
            decreases self.branches.key_seq().len() + 1 - path@.len(),
        {
            let ghost pv = views(path@);
            if self.is_trunk(current.as_str()) {
                break;
            }
            match self.branches.get(current.as_str()) {
                Some(meta) => {
                    if contains_str(&path, meta.parent.as_str()) {
                        break;
                    }
                    proof {
                        assert forall|i: int| 0 <= i < pv.len() implies self.branches.key_seq().contains(#[trigger] pv[i]) by {
                            if i < pv.len() - 1 {
                                assert(self.managed(pv[i]));
                            }
                        }
                        lemma_distinct_within(pv, self.branches.key_seq());
                    }
                    path.push(meta.parent.clone());
                    current = meta.parent.clone();
                    proof {
                        let nv = views(path@);
                        assert(nv =~= pv.push(meta.parent@));
                        assert forall|a: int, b: int| 0 <= a < b < nv.len() implies nv[a] != nv[b] by {
                            if b == nv.len() - 1 {
                                assert(nv[a] == pv[a]);
                            } else {
                                assert(nv[a] == pv[a] && nv[b] == pv[b]);
                            }
                        }
                        assert forall|i: int| 0 <= i < nv.len() - 1 implies #[trigger] self.managed(nv[i])
                            && !self.trunk_is(nv[i]) && nv[i + 1] == self.parent_of(nv[i]) by {
                            if i < pv.len() - 1 {
                                assert(nv[i] == pv[i] && nv[i + 1] == pv[i + 1]);
                            }
                        }
                    }
                },
                None => {
                    break;
                },
            }
        }
        proof {
            let p = self.trunk_path(branch@);
            self.lemma_trunk_path_unique(branch@, p, views(path@));
        }
        path
    }

    pub fn is_trunk(&self, branch: &str) -> (b: bool)
        ensures
            b == self.trunk_is(branch@),
    {
        str_eq(branch, self.trunk.as_str())
    }

    pub fn is_managed(&self, branch: &str) -> (b: bool)
        ensures
            b == self.managed(branch@),
    {
        self.branches.contains_key(branch)
    }
}

} // verus!
