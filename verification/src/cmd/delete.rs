use vstd::prelude::*;

use crate::error::EzError;
use crate::order::sorted;
use crate::stack::{BranchMeta, StackState};
use crate::text::views;

verus! {

broadcast use crate::names::NameMap::lemma_dom, crate::text::lemma_push_contains;

/// What deleting a branch leaves to do: its parent, which its children now
/// sit on, its pull request, and its children.
pub struct Deletion {
    pub parent: String,
    pub pr_number: Option<u64>,
    pub children: Vec<String>,
}

/// `m` with every branch named in `kids` moved onto `parent`, recorded on `head`.
pub open spec fn reparented(m: Map<Seq<char>, BranchMeta>, kids: Seq<Seq<char>>, parent: String, head: String) -> Map<
    Seq<char>,
    BranchMeta,
> {
    Map::new(
        |k: Seq<char>| m.contains_key(k),
        |k: Seq<char>|
            if kids.contains(k) {
                BranchMeta { parent: parent, parent_head: head, ..m[k] }
            } else {
                m[k]
            },
    )
}

/// Moving branches onto a new parent touches nothing but the moved
/// branches' parent and parent head: every branch stays, keeps its name and
/// pull request, a branch not moved is unchanged, and a moved branch sits on
/// `parent`, recorded on `head`.
pub proof fn law_reparent_moves_only_parents(
    m: Map<Seq<char>, BranchMeta>,
    kids: Seq<Seq<char>>,
    parent: String,
    head: String,
    k: Seq<char>,
)
    ensures
        reparented(m, kids, parent, head).contains_key(k) == m.contains_key(k),
        m.contains_key(k) ==> reparented(m, kids, parent, head)[k].name == m[k].name
            && reparented(m, kids, parent, head)[k].pr_number == m[k].pr_number,
        m.contains_key(k) && !kids.contains(k) ==> reparented(m, kids, parent, head)[k] == m[k],
        m.contains_key(k) && kids.contains(k) ==> reparented(m, kids, parent, head)[k].parent == parent
            && reparented(m, kids, parent, head)[k].parent_head == head,
{
}

/// Moves the children of `target` onto the parent of `target`, recorded on
/// `head` (the tip of `target`, which they are built on). Refused, with
/// nothing changed, when the stack does not record `target` or one of the
/// children.
pub fn reparent_children(state: &mut StackState, target: &str, head: String) -> (r: Result<Deletion, EzError>)
    ensures
        !old(state).managed(target@) ==> (r matches Err(EzError::BranchNotInStack(n)) && n@ == target@)
            && *final(state) == *old(state),
        r is Err ==> *final(state) == *old(state),
        old(state).managed(target@) && r is Err ==> (r matches Err(EzError::BranchNotInStack(n))
            && old(state).child_names(target@).contains(n@) && !old(state).managed(n@)),
        old(state).managed(target@) && (forall|k: Seq<char>| #[trigger] old(state).child_names(target@).contains(k)
            ==> old(state).managed(k)) ==> r is Ok,
        r matches Ok(d) ==> ({
            &&& old(state).managed(target@)
            &&& d.parent == old(state).meta(target@).parent
            &&& d.pr_number == old(state).meta(target@).pr_number
            &&& sorted(views(d.children@))
            &&& views(d.children@).to_multiset() == old(state).child_names(target@).to_multiset()
            &&& final(state).trunk == old(state).trunk
            &&& final(state).remote == old(state).remote
            &&& final(state).branches.key_seq() == old(state).branches.key_seq()
            &&& final(state).branches.as_map() == reparented(old(state).branches.as_map(), views(d.children@), d.parent, head)
            &&& forall|k: Seq<char>| #[trigger] old(state).managed(k) ==> final(state).managed(k)
                && final(state).meta(k).name == old(state).meta(k).name
                && final(state).meta(k).pr_number == old(state).meta(k).pr_number
            &&& forall|k: Seq<char>| #[trigger] final(state).managed(k) ==> old(state).managed(k)
            &&& forall|k: Seq<char>|
                #[trigger] old(state).managed(k) && !views(d.children@).contains(k) ==> final(state).meta(k) == old(
                    state,
                ).meta(k)
            &&& forall|k: Seq<char>| #[trigger] views(d.children@).contains(k) ==> old(state).managed(k)
                && final(state).meta(k).parent == d.parent && final(state).meta(k).parent_head == head
        }),
{
    let (parent, pr_number) = {
        let meta = state.get_branch(target)?;
        (meta.parent.clone(), meta.pr_number)
    };
    let children = state.children_of(target);
    let n = children.len();
    let mut i: usize = 0;
    while i < n
        invariant
            n == children@.len(),
            i <= n,
            *state == *old(state),
            old(state).managed(target@),
            views(children@).to_multiset() == old(state).child_names(target@).to_multiset(),
            forall|j: int| 0 <= j < i ==> state.managed(#[trigger] views(children@)[j]),
        decreases n - i,
    {
        proof {
            broadcast use vstd::seq_lib::group_to_multiset_ensures;
            let c = views(children@)[i as int];
            assert(views(children@).to_multiset().count(c) > 0);
            assert(old(state).child_names(target@).contains(c));
            assert(c == children@[i as int]@);
        }
        let _ = state.get_branch(children[i].as_str())?;
        i += 1;
    }
    proof {
        broadcast use vstd::seq_lib::group_to_multiset_ensures;
        assert forall|k: Seq<char>| #[trigger] old(state).child_names(target@).contains(k) implies views(children@).contains(k) by {
            assert(old(state).child_names(target@).to_multiset().count(k) > 0);
        }
    }
    let ghost m0 = state.branches.as_map();
    let ghost s0 = *state;
    let mut i: usize = 0;
    while i < n
        invariant
            n == children@.len(),
            i <= n,
            forall|j: int| 0 <= j < n ==> s0.managed(#[trigger] views(children@)[j]),
            state.trunk == s0.trunk,
            state.remote == s0.remote,
            state.branches.key_seq() == s0.branches.key_seq(),
            state.branches.as_map() == reparented(m0, views(children@).take(i as int), parent, head),
            m0 == s0.branches.as_map(),
        decreases n - i,
    {
        let ghost before = state.branches.as_map();
        let ghost c = views(children@)[i as int];
        proof {
            assert(state.managed(c));
        }
        let meta = state.get_branch_mut(children[i].as_str()).unwrap();
        meta.parent = parent.clone();
        meta.parent_head = head.clone();
        proof {
            let kids1 = views(children@).take(i + 1);
            assert(kids1 =~= views(children@).take(i as int).push(c));
            let after = state.branches.as_map();
            let want = reparented(m0, kids1, parent, head);
            assert(after.dom() =~= want.dom());
            assert forall|k: Seq<char>| after.contains_key(k) implies #[trigger] after[k] == want[k] by {
                if k != c {
                    assert(kids1.contains(k) == views(children@).take(i as int).contains(k));
                } else {
                    assert(kids1.contains(c));
                    assert(before.contains_key(c));
                    assert(before[c].name == m0[c].name);
                    assert(before[c].pr_number == m0[c].pr_number);
                    assert(after[c].name == want[c].name);
                    assert(after[c].pr_number == want[c].pr_number);
                    assert(after[c].parent == want[c].parent);
                    assert(after[c].parent_head == want[c].parent_head);
                }
            }
            assert(after =~= want);
        }
        i += 1;
    }
    proof {
        assert(views(children@).take(n as int) =~= views(children@));
        assert forall|k: Seq<char>| #[trigger] views(children@).contains(k) implies s0.managed(k) by {
            let j = views(children@).index_of(k);
            assert(s0.managed(views(children@)[j]));
        }
    }
    Ok(Deletion { parent, pr_number, children })
}

} // verus!
