use vstd::prelude::*;

use crate::cmd::delete::reparented;
use crate::stack::{BranchMeta, StackState};
use crate::text::views;

verus! {

broadcast use crate::names::NameMap::lemma_dom, crate::names::NameMap::lemma_wf;

/// In the topological order a branch comes after its parent whenever the
/// parent is a recorded branch other than the trunk, as long as no branch is
/// its own ancestor.
pub proof fn law_topo_parents_first(state: StackState, order: Seq<Seq<char>>)
    requires
        state.is_topo_order(order),
        state.acyclic(),
    ensures
        forall|i: int|
            0 <= i < order.len() && state.managed(state.parent_of(#[trigger] order[i])) && !state.trunk_is(
                state.parent_of(order[i]),
            ) ==> order.subrange(0, i).contains(state.parent_of(order[i])),
{
    assert forall|i: int|
        0 <= i < order.len() && state.managed(state.parent_of(#[trigger] order[i])) && !state.trunk_is(
            state.parent_of(order[i]),
        ) implies order.subrange(0, i).contains(state.parent_of(order[i])) by {
        assert(!state.on_cycle(order[i]));
    }
}

/// Walking up from a branch ends at the trunk or at a branch the stack does
/// not record, as long as no branch is its own ancestor.
pub proof fn law_walk_up_ends_at_trunk(state: StackState, branch: Seq<char>)
    requires
        state.acyclic(),
    ensures
        state.is_trunk_path(branch, state.trunk_path(branch)) ==> ({
            let p = state.trunk_path(branch);
            state.trunk_is(p.last()) || !state.managed(p.last())
        }),
{
    let p = state.trunk_path(branch);
    if state.is_trunk_path(branch, p) {
        let last = p.last();
        if !state.trunk_is(last) && state.managed(last) {
            let par = state.parent_of(last);
            let j = p.index_of(par);
            let n = p.len() - 1;
            assert forall|i: int| 0 <= i < p.len() implies state.managed(#[trigger] p[i]) && !state.trunk_is(p[i]) by {
                if i < n {
                    assert(state.managed(p[i]) && !state.trunk_is(p[i]));
                }
            }
            assert forall|i: int| 0 <= i < p.len() - 1 implies #[trigger] p[i + 1] == state.parent_of(p[i]) by {
                assert(state.managed(p[i]));
            }
            state.lemma_stack_reaches(p, j, n);
            assert(state.reaches(last, par, 1)) by {
                assert(state.reaches(par, par, 0));
            }
            state.lemma_reaches_compose(last, par, last, 1, (n - j) as nat);
            assert(state.reaches(last, last, (1 + n - j) as nat));
            assert(state.on_cycle(last));
        }
    }
}

proof fn lemma_walk_down_reaches(state: StackState, w: Seq<Seq<char>>, j: int, k: int)
    requires
        0 <= j <= k < w.len(),
        forall|i: int|
            1 <= i < w.len() ==> state.managed(#[trigger] w[i]) && !state.trunk_is(w[i]) && state.parent_of(w[i])
                == w[i - 1],
    ensures
        state.reaches(w[k], w[j], (k - j) as nat),
    decreases k - j,
{
    if j < k {
        lemma_walk_down_reaches(state, w, j, k - 1);
        assert(state.parent_of(w[k]) == w[k - 1]);
    }
}

proof fn lemma_first_child_member(state: StackState, x: Seq<char>)
    requires
        state.child_names(x).len() > 0,
    ensures
        state.child_names(x).contains(state.first_child(x)),
{
    crate::order::lemma_min_exists(state.child_names(x));
}

proof fn lemma_walk_down_links(state: StackState, branch: Seq<char>, w: Seq<Seq<char>>)
    requires
        state.branches.wf(),
        state.names_match(),
        !state.managed(state.trunk@),
        state.is_top_walk(branch, w),
    ensures
        forall|i: int|
            1 <= i < w.len() ==> state.managed(#[trigger] w[i]) && !state.trunk_is(w[i]) && state.parent_of(w[i])
                == w[i - 1],
{
    assert forall|i: int|
        1 <= i < w.len() implies state.managed(#[trigger] w[i]) && !state.trunk_is(w[i]) && state.parent_of(w[i])
            == w[i - 1] by {
        assert(state.child_names(w[i - 1]).len() > 0 && w[i] == state.first_child(w[i - 1]));
        lemma_first_child_member(state, w[i - 1]);
        state.lemma_child_names(w[i - 1], w[i]);
    }
}

proof fn lemma_walk_up_retraces(state: StackState, branch: Seq<char>, w: Seq<Seq<char>>, p: Seq<Seq<char>>, i: int)
    requires
        state.branches.wf(),
        state.names_match(),
        !state.managed(state.trunk@),
        state.is_top_walk(branch, w),
        state.is_trunk_path(w.last(), p),
        0 <= i < w.len(),
    ensures
        p.len() > i,
        forall|k: int| 0 <= k <= i ==> p[k] == w[w.len() - 1 - k],
    decreases i,
{
    let n = w.len() - 1;
    if i > 0 {
        lemma_walk_up_retraces(state, branch, w, p, i - 1);
        lemma_walk_down_links(state, branch, w);
        let cur = w[n - (i - 1)];
        assert(p[i - 1] == cur);
        assert(state.managed(cur) && !state.trunk_is(cur) && state.parent_of(cur) == w[n - i]);
        if p.len() == i {
            assert(p.last() == cur);
            let j = p.index_of(w[n - i]);
            assert(p[j] == w[n - j]);
            assert(w[n - j] == w[n - i]);
        }
        assert(p[i] == state.parent_of(p[i - 1]));
    }
}

/// Following first children from a branch ends at a branch without
/// children, and walking up from that top leads back through the branch,
/// as long as no branch met on the way down lies on a cycle (with each
/// branch recording its own name and the trunk not recorded as a branch).
pub proof fn law_stack_top_is_top(state: StackState, branch: Seq<char>, w: Seq<Seq<char>>, p: Seq<Seq<char>>)
    requires
        state.branches.wf(),
        state.names_match(),
        !state.managed(state.trunk@),
        state.is_top_walk(branch, w),
        forall|i: int| 0 <= i < w.len() ==> !state.on_cycle(#[trigger] w[i]),
        state.is_trunk_path(w.last(), p),
    ensures
        state.child_names(w.last()).len() == 0,
        p.len() >= w.len(),
        p.take(w.len() as int) == w.reverse(),
        p.contains(branch),
{
    let n = w.len() - 1;
    lemma_walk_down_links(state, branch, w);
    if state.child_names(w.last()).len() > 0 {
        let last = w.last();
        let c = state.first_child(last);
        lemma_first_child_member(state, last);
        state.lemma_child_names(last, c);
        let j = w.index_of(c);
        lemma_walk_down_reaches(state, w, j, n);
        assert(state.reaches(w[j], last, 1)) by {
            assert(state.reaches(last, last, 0));
        }
        state.lemma_reaches_compose(w[j], last, w[j], 1, (n - j) as nat);
        assert(state.reaches(w[j], w[j], (1 + n - j) as nat));
        assert(state.on_cycle(w[j]));
    }
    lemma_walk_up_retraces(state, branch, w, p, n);
    assert(p.take(w.len() as int) =~= w.reverse());
    assert(p[n] == branch);
}

/// Deleting a branch leaves no branch on it: once its children are moved
/// onto its parent and it is forgotten, no recorded branch has it as parent
/// (as long as each branch records its own name and the deleted branch is
/// not its own parent).
pub proof fn law_delete_leaves_no_child(
    state: StackState,
    target: Seq<char>,
    kids: Seq<Seq<char>>,
    parent: String,
    head: String,
)
    requires
        state.branches.wf(),
        state.names_match(),
        state.managed(target),
        parent == state.meta(target).parent,
        state.parent_of(target) != target,
        kids.to_multiset() == state.child_names(target).to_multiset(),
    ensures
        ({
            let after = reparented(state.branches.as_map(), kids, parent, head).remove(target);
            forall|k: Seq<char>| #[trigger] after.contains_key(k) ==> after[k].parent@ != target
        }),
{
    broadcast use vstd::seq_lib::group_to_multiset_ensures;

    let after = reparented(state.branches.as_map(), kids, parent, head).remove(target);
    assert forall|k: Seq<char>| #[trigger] after.contains_key(k) implies after[k].parent@ != target by {
        if !kids.contains(k) && state.meta(k).parent@ == target {
            state.lemma_child_names(target, k);
            assert(state.child_names(target).to_multiset().count(k) > 0);
        }
    }
}

/// `chain` goes down from `b`: it starts at `b`, and each later branch is
/// recorded with the one before it as parent.
pub open spec fn is_down_chain(state: StackState, b: Seq<char>, chain: Seq<Seq<char>>) -> bool {
    &&& chain.len() >= 1
    &&& chain[0] == b
    &&& forall|i: int|
        #![trigger chain[i]]
        1 <= i < chain.len() ==> state.managed(chain[i]) && state.parent_of(chain[i]) == chain[i - 1]
}

/// Some chain goes `n` levels down from `b`.
pub open spec fn goes_down(state: StackState, b: Seq<char>, n: nat) -> bool {
    exists|chain: Seq<Seq<char>>| #[trigger] is_down_chain(state, b, chain) && chain.len() == n + 1
}

proof fn lemma_kid_is_child(state: StackState, b: Seq<char>, c: Seq<char>)
    requires
        state.branches.wf(),
        state.names_match(),
        state.sorted_children(b).contains(c),
    ensures
        state.managed(c),
        state.parent_of(c) == b,
{
    broadcast use vstd::seq_lib::group_to_multiset_ensures;

    crate::order::lemma_sorted_exists(state.child_names(b));
    assert(state.sorted_children(b).to_multiset().count(c) > 0);
    assert(state.child_names(b).contains(c));
    state.lemma_child_names(b, c);
}

/// One more level of depth adds nothing below `b` when no chain goes `f`
/// levels down from it.
proof fn lemma_tree_stable(state: StackState, b: Seq<char>, depth: nat, is_last: bool, anc: Seq<bool>, f: nat)
    requires
        state.branches.wf(),
        state.names_match(),
        !goes_down(state, b, f),
    ensures
        state.tree_from(b, depth, is_last, anc, f) == state.tree_from(b, depth, is_last, anc, f + 1),
    decreases f, 0nat,
{
    assert(is_down_chain(state, b, seq![b]));
    let kids = state.sorted_children(b);
    assert forall|i: int| 0 <= i < kids.len() implies !goes_down(state, #[trigger] kids[i], (f - 1) as nat) by {
        lemma_kid_is_child(state, b, kids[i]);
        if goes_down(state, kids[i], (f - 1) as nat) {
            let chain = choose|chain: Seq<Seq<char>>|
                #[trigger] is_down_chain(state, kids[i], chain) && chain.len() == (f - 1) as nat + 1;
            let longer = seq![b] + chain;
            assert forall|j: int| 1 <= j < longer.len() implies state.managed(#[trigger] longer[j])
                && state.parent_of(longer[j]) == longer[j - 1] by {
                assert(longer[j] == chain[j - 1]);
                if j >= 2 {
                    assert(longer[j - 1] == chain[j - 2]);
                }
            }
            assert(is_down_chain(state, b, longer));
        }
    }
    lemma_trees_stable(state, kids, kids.len(), depth + 1, anc.push(is_last), (f - 1) as nat);
}

proof fn lemma_trees_stable(state: StackState, kids: Seq<Seq<char>>, n: nat, depth: nat, anc: Seq<bool>, g: nat)
    requires
        state.branches.wf(),
        state.names_match(),
        n <= kids.len(),
        forall|i: int| 0 <= i < n ==> !goes_down(state, #[trigger] kids[i], g),
    ensures
        state.trees_of(kids, n, depth, anc, g) == state.trees_of(kids, n, depth, anc, g + 1),
    decreases g, n,
{
    if n > 0 {
        lemma_trees_stable(state, kids, (n - 1) as nat, depth, anc, g);
        lemma_tree_stable(state, kids[n - 1], depth, n - 1 == kids.len() - 1, anc, g);
    }
}

/// A chain down from a recorded branch holds no more branches than the
/// stack records, when no branch is its own ancestor.
proof fn lemma_chain_short(state: StackState, b: Seq<char>, chain: Seq<Seq<char>>)
    requires
        state.branches.wf(),
        !state.managed(state.trunk@),
        state.acyclic(),
        state.managed(b),
        is_down_chain(state, b, chain),
    ensures
        chain.len() <= state.branches.key_seq().len(),
{
    let keys = state.branches.key_seq();
    assert forall|i: int| 0 <= i < chain.len() implies state.managed(#[trigger] chain[i]) && !state.trunk_is(chain[i]) by {
        if i >= 1 {
            assert(state.managed(chain[i]));
        }
    }
    if chain.no_duplicates() {
        assert(chain.to_set().subset_of(keys.to_set())) by {
            assert forall|x: Seq<char>| chain.to_set().contains(x) implies keys.to_set().contains(x) by {
                let i = chain.index_of(x);
                assert(state.managed(chain[i]));
            }
        }
        chain.unique_seq_to_set();
        keys.unique_seq_to_set();
        vstd::set_lib::lemma_len_subset(chain.to_set(), keys.to_set());
    } else {
        let (i, j) = choose|i: int, j: int| 0 <= i < chain.len() && 0 <= j < chain.len() && i != j && chain[i] == chain[j];
        let (lo, hi) = if i < j { (i, j) } else { (j, i) };
        assert forall|k: int|
            1 <= k < chain.len() implies state.managed(#[trigger] chain[k]) && !state.trunk_is(chain[k])
                && state.parent_of(chain[k]) == chain[k - 1] by {
            assert(state.managed(chain[k]));
        }
        lemma_walk_down_reaches(state, chain, lo, hi);
        assert(state.reaches(chain[hi], chain[hi], (hi - lo) as nat));
        assert(state.on_cycle(chain[hi]));
    }
}

proof fn lemma_goes_down_less(state: StackState, b: Seq<char>, f: nat, m: nat)
    requires
        goes_down(state, b, m),
        f <= m,
    ensures
        goes_down(state, b, f),
{
    let chain = choose|chain: Seq<Seq<char>>| #[trigger] is_down_chain(state, b, chain) && chain.len() == m + 1;
    let short = chain.subrange(0, f as int + 1);
    assert forall|i: int| 1 <= i < short.len() implies state.managed(#[trigger] short[i]) && state.parent_of(short[i])
        == short[i - 1] by {
        assert(short[i] == chain[i]);
        assert(state.managed(chain[i]));
    }
    assert(is_down_chain(state, b, short));
}

/// `ez log` shows every branch of an acyclic stack: going deeper than the
/// number of recorded branches adds no line to the tree under the trunk (as
/// long as each branch records its own name and the trunk is not recorded).
pub proof fn law_log_tree_complete(state: StackState, m: nat)
    requires
        state.branches.wf(),
        state.names_match(),
        !state.managed(state.trunk@),
        state.acyclic(),
        state.branches.key_seq().len() <= m,
    ensures
        ({
            let kids = state.sorted_children(state.trunk@);
            let k = state.branches.key_seq().len();
            state.trees_of(kids, kids.len(), 1, Seq::empty(), k) == state.trees_of(kids, kids.len(), 1, Seq::empty(), m)
        }),
    decreases m,
{
    let kids = state.sorted_children(state.trunk@);
    let k = state.branches.key_seq().len();
    if m > k {
        law_log_tree_complete(state, (m - 1) as nat);
        assert forall|i: int| 0 <= i < kids.len() implies !goes_down(state, #[trigger] kids[i], (m - 1) as nat) by {
            lemma_kid_is_child(state, state.trunk@, kids[i]);
            if goes_down(state, kids[i], (m - 1) as nat) {
                lemma_goes_down_less(state, kids[i], k, (m - 1) as nat);
                let chain = choose|chain: Seq<Seq<char>>|
                    #[trigger] is_down_chain(state, kids[i], chain) && chain.len() == k + 1;
                lemma_chain_short(state, kids[i], chain);
            }
        }
        lemma_trees_stable(state, kids, kids.len(), 1, Seq::empty(), (m - 1) as nat);
    }
}

/// The recorded parent head of each branch of the stack.
pub open spec fn parent_heads(state: StackState) -> Map<Seq<char>, Seq<char>> {
    state.branches.as_map().map_values(|m: BranchMeta| m.parent_head@)
}

/// The parent heads and branch tips after restacking the branches of
/// `order` in turn with every rebase succeeding, as `Restack::parent_tip`
/// and `Restack::rebased` take the steps: a branch whose recorded parent
/// head is its parent's tip stays where it is; any other is recorded on that
/// tip, and the rebase gives it a new tip of its own, `moved(i)` for the
/// branch at position `i`. A rebase moves no other branch.
pub open spec fn restack_run(
    state: StackState,
    order: Seq<Seq<char>>,
    heads: Map<Seq<char>, Seq<char>>,
    tips: Map<Seq<char>, Seq<char>>,
    moved: spec_fn(int) -> Seq<char>,
) -> (Map<Seq<char>, Seq<char>>, Map<Seq<char>, Seq<char>>)
    decreases order.len(),
{
    if order.len() == 0 {
        (heads, tips)
    } else {
        let (h, t) = restack_run(state, order.drop_last(), heads, tips, moved);
        let b = order.last();
        let tip = t[state.parent_of(b)];
        if h[b] == tip {
            (h, t)
        } else {
            (h.insert(b, tip), t.insert(b, moved(order.len() - 1)))
        }
    }
}

proof fn lemma_restack_settles(
    state: StackState,
    order: Seq<Seq<char>>,
    heads: Map<Seq<char>, Seq<char>>,
    tips: Map<Seq<char>, Seq<char>>,
    moved: spec_fn(int) -> Seq<char>,
    k: int,
)
    requires
        state.is_topo_order(order),
        state.acyclic(),
        0 <= k <= order.len(),
    ensures
        ({
            let (h, t) = restack_run(state, order.take(k), heads, tips, moved);
            forall|j: int| 0 <= j < k ==> h[#[trigger] order[j]] == t[state.parent_of(order[j])]
        }),
    decreases k,
{
    if k > 0 {
        lemma_restack_settles(state, order, heads, tips, moved, k - 1);
        assert(order.take(k).drop_last() =~= order.take(k - 1));
        let (h, t) = restack_run(state, order.take(k - 1), heads, tips, moved);
        let b = order[k - 1];
        let p = state.parent_of(b);
        assert(order.take(k).last() == b);
        assert(state.managed(b) && !state.trunk_is(b));
        assert(p != b) by {
            if p == b {
                assert(state.reaches(p, b, 0));
                assert(state.reaches(b, b, 1));
                assert(state.on_cycle(b));
            }
        }
        let (h2, t2) = restack_run(state, order.take(k), heads, tips, moved);
        assert forall|j: int| 0 <= j < k implies h2[#[trigger] order[j]] == t2[state.parent_of(order[j])] by {
            if j < k - 1 && h[b] != t[p] {
                assert(order[j] != b);
                let q = state.parent_of(order[j]);
                if q == b {
                    assert(state.managed(q) && !state.trunk_is(q));
                    assert(!state.on_cycle(order[j]));
                    assert(order.subrange(0, j).contains(q));
                    let m = order.subrange(0, j).index_of(q);
                    assert(order[m] == order[k - 1]);
                }
            }
        }
    }
}

proof fn lemma_restack_idle(
    state: StackState,
    order: Seq<Seq<char>>,
    heads: Map<Seq<char>, Seq<char>>,
    tips: Map<Seq<char>, Seq<char>>,
    moved: spec_fn(int) -> Seq<char>,
    k: int,
)
    requires
        0 <= k <= order.len(),
        forall|j: int| 0 <= j < order.len() ==> heads[#[trigger] order[j]] == tips[state.parent_of(order[j])],
    ensures
        restack_run(state, order.take(k), heads, tips, moved) == (heads, tips),
    decreases k,
{
    if k > 0 {
        lemma_restack_idle(state, order, heads, tips, moved, k - 1);
        assert(order.take(k).drop_last() =~= order.take(k - 1));
        assert(order.take(k).last() == order[k - 1]);
    }
}

/// Restacking twice moves nothing the second time: after a restack of the
/// whole stack in which every rebase succeeded, each branch is recorded on
/// its parent's tip, so a second restack with the repository unchanged finds
/// every branch in place and rebases none (as long as no branch is its own
/// ancestor).
pub proof fn law_second_restack_moves_nothing(
    state: StackState,
    order: Seq<Seq<char>>,
    tips: Map<Seq<char>, Seq<char>>,
    moved: spec_fn(int) -> Seq<char>,
    moved_again: spec_fn(int) -> Seq<char>,
)
    requires
        state.is_topo_order(order),
        state.acyclic(),
    ensures
        ({
            let (h, t) = restack_run(state, order, parent_heads(state), tips, moved);
            &&& forall|j: int| 0 <= j < order.len() ==> h[#[trigger] order[j]] == t[state.parent_of(order[j])]
            &&& restack_run(state, order, h, t, moved_again) == (h, t)
        }),
{
    let heads = parent_heads(state);
    lemma_restack_settles(state, order, heads, tips, moved, order.len() as int);
    assert(order.take(order.len() as int) =~= order);
    let (h, t) = restack_run(state, order, heads, tips, moved);
    lemma_restack_idle(state, order, h, t, moved_again, order.len() as int);
}

/// `line` is the line of a branch recorded on the trunk: two spaces and its name.
pub open spec fn is_trunk_child_line(state: StackState, line: Seq<char>) -> bool {
    exists|c: Seq<char>| #[trigger] state.managed(c) && state.parent_of(c) == state.trunk@ && line == "  "@ + c
}

/// On the trunk, `ez status` prints the trunk, the number of branches
/// stacked directly on it, and then one line for each of them: every
/// recorded branch whose parent is the trunk has its line, and every line
/// after the count names such a branch (on a stack whose branches record
/// their own names).
pub proof fn law_status_on_trunk_lists_children(state: StackState)
    requires
        state.branches.wf(),
        state.names_match(),
    ensures
        ({
            let (lines, more) = crate::cmd::status::status_intro_text(state, state.trunk@);
            let n = state.child_names(state.trunk@).len();
            &&& !more
            &&& n == 0 ==> lines.len() == 3
            &&& n > 0 ==> lines.len() == 2 + n
            &&& n > 0 ==> lines[1] == crate::ui::info_text(crate::text::decimal(n) + " stacked branch(es):"@)
            &&& n > 0 ==> forall|c: Seq<char>|
                #[trigger] state.managed(c) && state.parent_of(c) == state.trunk@ ==> lines.contains("  "@ + c)
            &&& n > 0 ==> forall|i: int| 2 <= i < lines.len() ==> is_trunk_child_line(state, #[trigger] lines[i])
        }),
{
    broadcast use vstd::seq_lib::group_to_multiset_ensures;

    let t = state.trunk@;
    let kids = state.sorted_children(t);
    crate::order::lemma_sorted_exists(state.child_names(t));
    assert(kids.len() == state.child_names(t).len()) by {
        assert(kids.len() == kids.to_multiset().len());
        assert(state.child_names(t).len() == state.child_names(t).to_multiset().len());
    }
    let (lines, more) = crate::cmd::status::status_intro_text(state, t);
    assert(!more);
    if kids.len() == 0 {
        assert(lines.len() == 3);
    }
    if kids.len() > 0 {
        assert(lines.len() == 2 + kids.len());
        assert(lines[1] == crate::ui::info_text(crate::text::decimal(kids.len()) + " stacked branch(es):"@));
        assert forall|c: Seq<char>| #[trigger] state.managed(c) && state.parent_of(c) == t implies lines.contains(
            "  "@ + c,
        ) by {
            state.lemma_child_names(t, c);
            assert(state.child_names(t).to_multiset().count(c) > 0);
            assert(kids.contains(c));
            let j = kids.index_of(c);
            assert(lines[2 + j] == "  "@ + kids[j]);
        }
        assert forall|i: int| 2 <= i < lines.len() implies is_trunk_child_line(state, #[trigger] lines[i]) by {
            let c = kids[i - 2];
            assert(lines[i] == "  "@ + c);
            lemma_kid_is_child(state, t, c);
        }
    }
}

proof fn lemma_contains_in_concat(a: Seq<char>, b: Seq<char>, pat: Seq<char>)
    ensures
        crate::text::contains_seq(b, pat) ==> crate::text::contains_seq(a + b, pat),
        crate::text::contains_seq(a, pat) ==> crate::text::contains_seq(a + b, pat),
{
    if crate::text::contains_seq(b, pat) {
        let i = choose|i: int| 0 <= i && i + pat.len() <= b.len() && #[trigger] b.subrange(i, i + pat.len()) == pat;
        assert((a + b).subrange(a.len() + i, a.len() + i + pat.len()) =~= b.subrange(i, i + pat.len()));
    }
    if crate::text::contains_seq(a, pat) {
        let i = choose|i: int| 0 <= i && i + pat.len() <= a.len() && #[trigger] a.subrange(i, i + pat.len()) == pat;
        assert((a + b).subrange(i, i + pat.len()) =~= a.subrange(i, i + pat.len()));
    }
}

proof fn lemma_join_contains(pieces: Seq<Seq<char>>, sep: Seq<char>, k: int)
    requires
        0 <= k < pieces.len(),
    ensures
        crate::text::contains_seq(crate::text::join(pieces, sep), pieces[k]),
    decreases pieces.len(),
{
    let p = pieces[k];
    if pieces.len() == 1 {
        let j = crate::text::join(pieces, sep);
        assert(j == p);
        assert(j.subrange(0, 0 + p.len() as int) =~= p);
        assert(crate::text::contains_seq(j, p));
    } else if k == pieces.len() - 1 {
        assert(p.subrange(0, 0 + p.len() as int) =~= p);
        assert(crate::text::contains_seq(p, p));
        lemma_contains_in_concat(crate::text::join(pieces.drop_last(), sep) + sep, p, p);
    } else {
        lemma_join_contains(pieces.drop_last(), sep, k);
        assert(pieces.drop_last()[k] == p);
        lemma_contains_in_concat(crate::text::join(pieces.drop_last(), sep), sep + pieces.last(), p);
        assert(crate::text::join(pieces.drop_last(), sep) + sep + pieces.last() =~= crate::text::join(
            pieces.drop_last(),
            sep,
        ) + (sep + pieces.last()));
    }
}

/// Off the trunk, `ez status` either warns that the current branch is not
/// tracked (and stops there), or, for a branch of the stack, names the
/// branch, its parent, and every branch stacked directly on it (on a stack
/// whose branches record their own names).
pub proof fn law_status_on_branch(state: StackState, current: Seq<char>)
    requires
        state.branches.wf(),
        state.names_match(),
        !state.trunk_is(current),
    ensures
        ({
            let (lines, more) = crate::cmd::status::status_intro_text(state, current);
            &&& !state.managed(current) ==> !more && lines.len() == 2 && lines[0] == "! Branch `"@ + current
                + "` is not tracked by ez."@
            &&& state.managed(current) ==> more && lines.len() == 3
            &&& state.managed(current) ==> lines[0] == "Branch: \x1b[1m"@ + current + "\x1b[0m"@
            &&& state.managed(current) ==> lines[1] == "  Parent: "@ + state.parent_of(current)
            &&& state.managed(current) && (forall|c: Seq<char>| !(#[trigger] state.managed(c) && state.parent_of(c)
                == current)) ==> lines[2] == "  Children: none (top of stack)"@
            &&& state.managed(current) ==> forall|c: Seq<char>|
                #[trigger] state.managed(c) && state.parent_of(c) == current ==> crate::text::contains_seq(lines[2], c)
        }),
{
    broadcast use vstd::seq_lib::group_to_multiset_ensures;

    reveal_strlit("! ");
    reveal_strlit("! Branch `");
    reveal_strlit("Branch `");
    reveal_strlit("  ");
    reveal_strlit("  Parent: ");
    reveal_strlit("Parent: ");
    reveal_strlit("Branch: ");
    reveal_strlit("\x1b[1m");
    reveal_strlit("Branch: \x1b[1m");
    reveal_strlit("  Children: none (top of stack)");
    reveal_strlit("Children: none (top of stack)");
    reveal_strlit("  Children: ");
    reveal_strlit("Children: ");
    let kids = state.sorted_children(current);
    crate::order::lemma_sorted_exists(state.child_names(current));
    assert(kids.len() == state.child_names(current).len()) by {
        assert(kids.len() == kids.to_multiset().len());
        assert(state.child_names(current).len() == state.child_names(current).to_multiset().len());
    }
    let (lines, more) = crate::cmd::status::status_intro_text(state, current);
    if state.managed(current) {
        assert(lines[0] =~= "Branch: \x1b[1m"@ + current + "\x1b[0m"@);
        assert(lines[1] =~= "  Parent: "@ + state.parent_of(current));
        if forall|c: Seq<char>| !(#[trigger] state.managed(c) && state.parent_of(c) == current) {
            if kids.len() > 0 {
                assert(state.child_names(current).contains(state.child_names(current)[0]));
                state.lemma_child_names(current, state.child_names(current)[0]);
            }
            assert(lines[2] =~= "  Children: none (top of stack)"@);
        }
        assert forall|c: Seq<char>| #[trigger] state.managed(c) && state.parent_of(c) == current implies crate::text::contains_seq(
            lines[2],
            c,
        ) by {
            state.lemma_child_names(current, c);
            assert(state.child_names(current).to_multiset().count(c) > 0);
            assert(kids.contains(c));
            let j = kids.index_of(c);
            lemma_join_contains(kids, ", "@, j);
            lemma_contains_in_concat("Children: "@, crate::text::join(kids, ", "@), c);
            lemma_contains_in_concat("  "@, "Children: "@ + crate::text::join(kids, ", "@), c);
            assert(lines[2] =~= "  "@ + ("Children: "@ + crate::text::join(kids, ", "@)));
        }
    } else {
        assert(lines[0] =~= "! Branch `"@ + current + "` is not tracked by ez."@);
    }
}

} // verus!
