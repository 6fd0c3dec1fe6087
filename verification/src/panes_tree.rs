//! How Windows Terminal builds a tab's pane tree from the commands the
//! launcher gives it, and the proof that it rebuilds the layout.
use vstd::prelude::*;
use crate::model::{first_leaf, splits, Axis, Layout};
use crate::terminal::{walk_commands, PaneCommand};

verus! {

/// A tab's panes as Windows Terminal holds them: leaves are pane numbers,
/// given from 0 in creation order.
pub enum PaneTree {
    Leaf(nat),
    Split(Axis, u32, Box<PaneTree>, Box<PaneTree>),
}

/// `t` with the leaf numbered `target` replaced by `by`.
pub open spec fn replace_leaf(t: PaneTree, target: nat, by: PaneTree) -> PaneTree
    decreases t,
{
    match t {
        PaneTree::Leaf(n) => if n == target {
            by
        } else {
            t
        },
        PaneTree::Split(a, r, x, y) => PaneTree::Split(
            a,
            r,
            Box::new(replace_leaf(*x, target, by)),
            Box::new(replace_leaf(*y, target, by)),
        ),
    }
}

/// Every pane number in `t` is below `n`.
pub open spec fn labels_below(t: PaneTree, n: nat) -> bool
    decreases t,
{
    match t {
        PaneTree::Leaf(m) => m < n,
        PaneTree::Split(_, _, x, y) => labels_below(*x, n) && labels_below(*y, n),
    }
}

/// Whether a pane of `t` is numbered `b`.
pub open spec fn has_leaf(t: PaneTree, b: nat) -> bool
    decreases t,
{
    match t {
        PaneTree::Leaf(m) => m == b,
        PaneTree::Split(_, _, x, y) => has_leaf(*x, b) || has_leaf(*y, b),
    }
}

/// Every pane number in `t` is `index`, or in `lo..hi`.
pub open spec fn numbered_within(t: PaneTree, index: nat, lo: nat, hi: nat) -> bool
    decreases t,
{
    match t {
        PaneTree::Leaf(m) => m == index || (lo <= m && m < hi),
        PaneTree::Split(_, _, x, y) => numbered_within(*x, index, lo, hi) && numbered_within(
            *y,
            index,
            lo,
            hi,
        ),
    }
}

/// Windows Terminal's state while it runs a tab's commands: the tree, the
/// pane each number stands for, and the focused number.
pub struct TabState {
    pub tree: PaneTree,
    pub panes: Seq<Layout>,
    pub focused: nat,
}

/// One command: `focus-pane` moves the focus; `split-pane` splits the
/// focused pane, the new pane taking the next number and the focus.
pub open spec fn step(c: PaneCommand, s: TabState) -> TabState {
    match c {
        PaneCommand::FocusPane(i) => TabState { focused: i, ..s },
        PaneCommand::SplitPane(axis, ratio, pane) => TabState {
            tree: replace_leaf(
                s.tree,
                s.focused,
                PaneTree::Split(
                    axis,
                    ratio,
                    Box::new(PaneTree::Leaf(s.focused)),
                    Box::new(PaneTree::Leaf(s.panes.len())),
                ),
            ),
            panes: s.panes.push(pane),
            focused: s.panes.len(),
        },
    }
}

/// The commands, in order.
pub open spec fn run(cs: Seq<PaneCommand>, s: TabState) -> TabState
    decreases cs.len(),
{
    if cs.len() == 0 {
        s
    } else {
        run(cs.drop_first(), step(cs[0], s))
    }
}

/// The tab as a new tab holding `l`'s first pane starts it.
pub open spec fn new_tab(l: Layout) -> TabState {
    TabState { tree: PaneTree::Leaf(0), panes: seq![first_leaf(l)], focused: 0 }
}

/// The commands following a tab's first pane: the splits, then the focus
/// back on the first pane.
pub open spec fn tab_commands(l: Layout) -> Seq<PaneCommand> {
    walk_commands(l, 0, 1) + if l is Split {
        seq![PaneCommand::FocusPane(0)]
    } else {
        Seq::empty()
    }
}

/// Whether the numbered tree `t` has the shape of `l`, its splits the same
/// axes and ratios, and each number standing for the pane at that place.
pub open spec fn rebuilds(t: PaneTree, panes: Seq<Layout>, l: Layout) -> bool
    decreases l,
{
    match (t, l) {
        (PaneTree::Leaf(n), Layout::Pane { .. }) => n < panes.len() && panes[n as int] == l,
        (PaneTree::Split(a, r, x, y), Layout::Split { axis, ratio, first, second, .. }) => a
            == axis && r == ratio && rebuilds(*x, panes, *first) && rebuilds(*y, panes, *second),
        _ => false,
    }
}

/// The numbered tree `walk_commands(node, index, next)` builds in place of pane `index`.
pub open spec fn labeled(node: Layout, index: nat, next: nat) -> PaneTree
    decreases node,
{
    match node {
        Layout::Pane { .. } => PaneTree::Leaf(index),
        Layout::Split { axis, ratio, first, second, .. } => PaneTree::Split(
            axis,
            ratio,
            Box::new(labeled(*first, index, next + 1)),
            Box::new(labeled(*second, next, next + 1 + splits(*first))),
        ),
    }
}

/// Panes the commands create, in order.
pub open spec fn created(node: Layout, index: nat, next: nat) -> Seq<Layout>
    decreases node,
{
    match node {
        Layout::Pane { .. } => Seq::empty(),
        Layout::Split { first, second, .. } => seq![first_leaf(*second)] + created(
            *first,
            index,
            next + 1,
        ) + created(*second, next, next + 1 + splits(*first)),
    }
}

pub(crate) proof fn lemma_run_append(a: Seq<PaneCommand>, b: Seq<PaneCommand>, s: TabState)
    ensures
        run(a + b, s) == run(b, run(a, s)),
    decreases a.len(),
{
    if a.len() == 0 {
        assert(a + b =~= b);
    } else {
        assert((a + b).drop_first() =~= a.drop_first() + b);
        assert((a + b)[0] == a[0]);
        lemma_run_append(a.drop_first(), b, step(a[0], s));
    }
}

proof fn lemma_replace_compose(t: PaneTree, a: nat, x: PaneTree, b: nat, y: PaneTree)
    requires
        b == a || !has_leaf(t, b),
    ensures
        replace_leaf(replace_leaf(t, a, x), b, y) == replace_leaf(t, a, replace_leaf(x, b, y)),
    decreases t,
{
    if let PaneTree::Split(_, _, l, r) = t {
        lemma_replace_compose(*l, a, x, b, y);
        lemma_replace_compose(*r, a, x, b, y);
    }
}

proof fn lemma_replace_absent(t: PaneTree, b: nat, y: PaneTree)
    requires
        !has_leaf(t, b),
    ensures
        replace_leaf(t, b, y) == t,
    decreases t,
{
    if let PaneTree::Split(_, _, l, r) = t {
        lemma_replace_absent(*l, b, y);
        lemma_replace_absent(*r, b, y);
    }
}

proof fn lemma_below_absent(t: PaneTree, n: nat, b: nat)
    requires
        labels_below(t, n),
        n <= b,
    ensures
        !has_leaf(t, b),
    decreases t,
{
    if let PaneTree::Split(_, _, l, r) = t {
        lemma_below_absent(*l, n, b);
        lemma_below_absent(*r, n, b);
    }
}

proof fn lemma_below_mono(t: PaneTree, n: nat, m: nat)
    requires
        labels_below(t, n),
        n <= m,
    ensures
        labels_below(t, m),
    decreases t,
{
    if let PaneTree::Split(_, _, l, r) = t {
        lemma_below_mono(*l, n, m);
        lemma_below_mono(*r, n, m);
    }
}

proof fn lemma_replace_below(t: PaneTree, a: nat, x: PaneTree, n: nat)
    requires
        labels_below(t, n),
        labels_below(x, n),
    ensures
        labels_below(replace_leaf(t, a, x), n),
    decreases t,
{
    if let PaneTree::Split(_, _, l, r) = t {
        lemma_replace_below(*l, a, x, n);
        lemma_replace_below(*r, a, x, n);
    }
}

proof fn lemma_within_absent(t: PaneTree, index: nat, lo: nat, hi: nat, b: nat)
    requires
        numbered_within(t, index, lo, hi),
        b != index,
        b < lo || b >= hi,
    ensures
        !has_leaf(t, b),
    decreases t,
{
    if let PaneTree::Split(_, _, l, r) = t {
        lemma_within_absent(*l, index, lo, hi, b);
        lemma_within_absent(*r, index, lo, hi, b);
    }
}

proof fn lemma_within_below(t: PaneTree, index: nat, lo: nat, hi: nat)
    requires
        numbered_within(t, index, lo, hi),
        index < hi,
    ensures
        labels_below(t, hi),
    decreases t,
{
    if let PaneTree::Split(_, _, l, r) = t {
        lemma_within_below(*l, index, lo, hi);
        lemma_within_below(*r, index, lo, hi);
    }
}

proof fn lemma_within_widen(t: PaneTree, index: nat, lo: nat, hi: nat, lo2: nat, hi2: nat)
    requires
        numbered_within(t, index, lo, hi),
        lo2 <= lo,
        hi <= hi2,
    ensures
        numbered_within(t, index, lo2, hi2),
    decreases t,
{
    if let PaneTree::Split(_, _, l, r) = t {
        lemma_within_widen(*l, index, lo, hi, lo2, hi2);
        lemma_within_widen(*r, index, lo, hi, lo2, hi2);
    }
}

/// Numbers of `labeled(node, index, next)`: `index`, and `next..next + splits(node)`.
pub(crate) proof fn lemma_labeled_within(node: Layout, index: nat, next: nat)
    ensures
        numbered_within(labeled(node, index, next), index, next, next + splits(node)),
    decreases node,
{
    if let Layout::Split { first, second, .. } = node {
        let sf = splits(*first);
        lemma_labeled_within(*first, index, next + 1);
        lemma_labeled_within(*second, next, next + 1 + sf);
        lemma_within_widen(
            labeled(*first, index, next + 1),
            index,
            next + 1,
            next + 1 + sf,
            next,
            next + splits(node),
        );
        lemma_second_within(labeled(*second, next, next + 1 + sf), index, next, next + 1 + sf, next + 1 + sf + splits(*second));
    }
}

/// A tree numbered `next` and `lo..hi`, with `next < lo`, is within `index`, `next..hi`.
proof fn lemma_second_within(t: PaneTree, index: nat, next: nat, lo: nat, hi: nat)
    requires
        numbered_within(t, next, lo, hi),
        next < lo <= hi,
    ensures
        numbered_within(t, index, next, hi),
    decreases t,
{
    if let PaneTree::Split(_, _, l, r) = t {
        lemma_second_within(*l, index, next, lo, hi);
        lemma_second_within(*r, index, next, lo, hi);
    }
}

pub(crate) proof fn lemma_created_len(node: Layout, index: nat, next: nat)
    ensures
        created(node, index, next).len() == splits(node),
    decreases node,
{
    if let Layout::Split { first, second, .. } = node {
        lemma_created_len(*first, index, next + 1);
        lemma_created_len(*second, next, next + 1 + splits(*first));
    }
}

/// What the commands of `node` do to a tab whose panes are numbered below `next`.
pub(crate) proof fn lemma_walk(node: Layout, index: nat, next: nat, s: TabState)
    requires
        labels_below(s.tree, next),
        s.panes.len() == next,
        index < next,
    ensures
        run(walk_commands(node, index, next), s).tree == replace_leaf(
            s.tree,
            index,
            labeled(node, index, next),
        ),
        run(walk_commands(node, index, next), s).panes == s.panes + created(node, index, next),
    decreases node,
{
    match node {
        Layout::Pane { .. } => {
            lemma_replace_identity(s.tree, index);
            assert(s.panes + Seq::<Layout>::empty() =~= s.panes);
        },
        Layout::Split { axis, ratio, first, second, .. } => {
            let sf = splits(*first);
            let head = seq![
                PaneCommand::FocusPane(index),
                PaneCommand::SplitPane(axis, ratio, first_leaf(*second)),
            ];
            let w1 = walk_commands(*first, index, next + 1);
            let w2 = walk_commands(*second, next, next + 1 + sf);
            lemma_run_append(head + w1, w2, s);
            lemma_run_append(head, w1, s);
            let s1 = step(PaneCommand::FocusPane(index), s);
            let s2 = step(PaneCommand::SplitPane(axis, ratio, first_leaf(*second)), s1);
            assert(head.drop_first() =~= seq![PaneCommand::SplitPane(axis, ratio, first_leaf(*second))]);
            assert(head.drop_first().drop_first() =~= Seq::<PaneCommand>::empty());
            assert(run(head, s) == s2) by {
                reveal_with_fuel(run, 3);
            }
            let s0 = PaneTree::Split(
                axis,
                ratio,
                Box::new(PaneTree::Leaf(index)),
                Box::new(PaneTree::Leaf(next)),
            );
            assert(s2.tree == replace_leaf(s.tree, index, s0));
            lemma_below_mono(s.tree, next, next + 1);
            assert(labels_below(s0, next + 1)) by {
                reveal_with_fuel(labels_below, 2);
            }
            lemma_replace_below(s.tree, index, s0, next + 1);
            lemma_walk(*first, index, next + 1, s2);
            let s3 = run(w1, s2);
            let l1 = labeled(*first, index, next + 1);
            lemma_labeled_within(*first, index, next + 1);
            lemma_within_below(l1, index, next + 1, next + 1 + sf);
            lemma_below_mono(s2.tree, next + 1, next + 1 + sf);
            lemma_replace_below(s2.tree, index, l1, next + 1 + sf);
            lemma_created_len(*first, index, next + 1);
            lemma_walk(*second, next, next + 1 + sf, s3);
            let l2 = labeled(*second, next, next + 1 + sf);
            // Pane `index` is split first, then refined by the first subtree.
            lemma_replace_compose(s.tree, index, s0, index, l1);
            let x = PaneTree::Split(axis, ratio, Box::new(l1), Box::new(PaneTree::Leaf(next)));
            assert(replace_leaf(s0, index, l1) == x) by {
                reveal_with_fuel(replace_leaf, 2);
            }
            // Then pane `next`, the second subtree's first pane, is refined.
            lemma_below_absent(s.tree, next, next);
            lemma_replace_compose(s.tree, index, x, next, l2);
            lemma_within_absent(l1, index, next + 1, next + 1 + sf, next);
            lemma_replace_absent(l1, next, l2);
            assert(replace_leaf(x, next, l2) == labeled(node, index, next)) by {
                reveal_with_fuel(replace_leaf, 2);
            }
            assert(s.panes.push(first_leaf(*second)) + created(*first, index, next + 1) + created(
                *second,
                next,
                next + 1 + sf,
            ) =~= s.panes + created(node, index, next));
        },
    }
}

proof fn lemma_replace_identity(t: PaneTree, a: nat)
    ensures
        replace_leaf(t, a, PaneTree::Leaf(a)) == t,
    decreases t,
{
    if let PaneTree::Split(_, _, l, r) = t {
        lemma_replace_identity(*l, a);
        lemma_replace_identity(*r, a);
    }
}

/// The numbered tree of `node` has its shape, given the panes behind the numbers.
proof fn lemma_rebuilds(node: Layout, index: nat, next: nat, panes: Seq<Layout>)
    requires
        index < next,
        next + splits(node) <= panes.len(),
        panes[index as int] == first_leaf(node),
        panes.subrange(next as int, next + splits(node) as int) == created(node, index, next),
    ensures
        rebuilds(labeled(node, index, next), panes, node),
    decreases node,
{
    if let Layout::Split { first, second, .. } = node {
        let sf = splits(*first) as int;
        let ss = splits(*second) as int;
        let n = next as int;
        lemma_created_len(*first, index, next + 1);
        lemma_created_len(*second, next, (n + 1 + sf) as nat);
        let c = created(node, index, next);
        assert(c[0] == first_leaf(*second));
        assert(panes[n] == panes.subrange(n, n + splits(node) as int)[0]);
        assert(panes.subrange(n + 1, n + 1 + sf) =~= c.subrange(1, 1 + sf));
        assert(c.subrange(1, 1 + sf) =~= created(*first, index, next + 1));
        assert(panes.subrange(n + 1 + sf, n + 1 + sf + ss) =~= c.subrange(1 + sf, 1 + sf + ss));
        assert(c.subrange(1 + sf, 1 + sf + ss) =~= created(*second, next, (n + 1 + sf) as nat));
        lemma_rebuilds(*first, index, next + 1, panes);
        lemma_rebuilds(*second, next, (n + 1 + sf) as nat, panes);
    }
}

/// Windows Terminal, running a tab's commands from a new tab holding the
/// layout's first pane, rebuilds the layout: the same splits, axes and
/// ratios, each pane at its place, one pane created per split, and the focus
/// back on the first pane.
pub proof fn law_tab_commands_rebuild_layout(l: Layout)
    ensures
        rebuilds(run(tab_commands(l), new_tab(l)).tree, run(tab_commands(l), new_tab(l)).panes, l),
        run(tab_commands(l), new_tab(l)).panes.len() == splits(l) + 1,
        run(tab_commands(l), new_tab(l)).focused == 0,
{
    let s0 = new_tab(l);
    let w = walk_commands(l, 0, 1);
    let tail = if l is Split {
        seq![PaneCommand::FocusPane(0)]
    } else {
        Seq::empty()
    };
    lemma_run_append(w, tail, s0);
    lemma_walk(l, 0, 1, s0);
    let s1 = run(w, s0);
    assert(s1.tree == labeled(l, 0, 1));
    lemma_created_len(l, 0, 1);
    let panes = seq![first_leaf(l)] + created(l, 0, 1);
    assert(s1.panes == panes);
    assert(panes.subrange(1, 1 + splits(l) as int) =~= created(l, 0, 1));
    lemma_rebuilds(l, 0, 1, panes);
    if l is Split {
        assert(tail.drop_first() =~= Seq::<PaneCommand>::empty());
        assert(run(tail, s1) == TabState { focused: 0, ..s1 }) by {
            reveal_with_fuel(run, 2);
        }
    } else {
        assert(walk_commands(l, 0, 1) =~= Seq::<PaneCommand>::empty());
    }
}

/// Every `split-pane` comes right after a `focus-pane`: a split targets its
/// pane by number instead of trusting where the focus is.
pub proof fn law_every_split_follows_a_focus(l: Layout)
    ensures
        forall|k: int|
            0 <= k < tab_commands(l).len() && (#[trigger] tab_commands(l)[k]) is SplitPane ==> k
                > 0 && tab_commands(l)[k - 1] is FocusPane,
{
    lemma_split_after_focus(l, 0, 1);
    let w = walk_commands(l, 0, 1);
    let t = tab_commands(l);
    assert forall|k: int| 0 <= k < t.len() && (#[trigger] t[k]) is SplitPane implies k > 0 && t[k
        - 1] is FocusPane by {
        if k < w.len() {
            assert(t[k] == w[k]);
            assert(t[k - 1] == w[k - 1]);
        }
    }
}

proof fn lemma_split_after_focus(node: Layout, index: nat, next: nat)
    ensures
        forall|k: int|
            0 <= k < walk_commands(node, index, next).len() && (#[trigger] walk_commands(
                node,
                index,
                next,
            )[k]) is SplitPane ==> k > 0 && walk_commands(node, index, next)[k - 1] is FocusPane,
    decreases node,
{
    if let Layout::Split { axis, ratio, first, second, .. } = node {
        let sf = splits(*first);
        lemma_split_after_focus(*first, index, next + 1);
        lemma_split_after_focus(*second, next, next + 1 + sf);
        let head = seq![
            PaneCommand::FocusPane(index),
            PaneCommand::SplitPane(axis, ratio, first_leaf(*second)),
        ];
        let w1 = walk_commands(*first, index, next + 1);
        let w2 = walk_commands(*second, next, next + 1 + sf);
        let w = walk_commands(node, index, next);
        assert(w == head + w1 + w2);
        assert forall|k: int| 0 <= k < w.len() && (#[trigger] w[k]) is SplitPane implies k > 0
            && w[k - 1] is FocusPane by {
            if k < 2 {
            } else if k < 2 + w1.len() {
                assert(w[k] == w1[k - 2]);
                if k > 2 {
                    assert(w[k - 1] == w1[k - 3]);
                } else {
                    assert(w1[0] is SplitPane);
                }
            } else {
                assert(w[k] == w2[k - 2 - w1.len()]);
                assert(w[k - 1] == w2[k - 3 - w1.len()]);
            }
        }
    }
}

} // verus!
