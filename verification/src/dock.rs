//! The dock layout: a binary split tree whose leaves hold ordered tab
//! sequences, one tab per panel view.  Drag-and-drop mutations move tabs
//! between leaves or split a leaf; the tree never loses or duplicates a tab,
//! and it never becomes empty.

use vstd::prelude::*;
use vstd::seq_lib::lemma_multiset_commutative;
use vstd::multiset::Multiset;

verus! {

/// The closed set of panel views a tab can show.
#[derive(Debug, Clone, Copy, PartialEq, Eq, Structural)]
pub enum PanelKind {
    GameView,
    Hierarchy,
    Resources,
    Assets,
    Inspector,
}

/// Deterministic tab title, derived from the tab identifier alone.
pub open spec fn spec_title(tab: PanelKind) -> Seq<char> {
    match tab {
        PanelKind::GameView => "GameView"@,
        PanelKind::Hierarchy => "Hierarchy"@,
        PanelKind::Resources => "Resources"@,
        PanelKind::Assets => "Assets"@,
        PanelKind::Inspector => "Inspector"@,
    }
}

/// The tab's title as shown on its tab button.
pub fn title(tab: PanelKind) -> (s: &'static str)
    ensures
        s@ == spec_title(tab),
{
    match tab {
        PanelKind::GameView => "GameView",
        PanelKind::Hierarchy => "Hierarchy",
        PanelKind::Resources => "Resources",
        PanelKind::Assets => "Assets",
        PanelKind::Inspector => "Inspector",
    }
}

/// The one panel whose background is left uncleared, so the 3D render shows
/// through, is the game view.
pub fn clear_background(tab: PanelKind) -> (r: bool)
    ensures
        r == !(tab is GameView),
{
    !matches!(tab, PanelKind::GameView)
}

/// A node of the binary split tree.
pub enum DockNode {
    /// A dockable region showing an ordered row of tabs.
    Leaf { tabs: Vec<PanelKind> },
    /// A splitter: two children side by side (`horizontal`) or stacked, the
    /// first child taking `fraction_permille` thousandths of the region.
    Split {
        horizontal: bool,
        fraction_permille: u32,
        first: Box<DockNode>,
        second: Box<DockNode>,
    },
}

impl DockNode {
    /// The tab sequences of the leaves, in depth-first order.
    pub open spec fn leaves(self) -> Seq<Seq<PanelKind>>
        decreases self,
    {
        match self {
            DockNode::Leaf { tabs } => seq![tabs@],
            DockNode::Split { first, second, .. } => first.leaves() + second.leaves(),
        }
    }

    /// All tabs in depth-first order.
    pub open spec fn tabs(self) -> Seq<PanelKind>
        decreases self,
    {
        match self {
            DockNode::Leaf { tabs } => tabs@,
            DockNode::Split { first, second, .. } => first.tabs() + second.tabs(),
        }
    }

    /// Every leaf holds at least one tab.
    pub open spec fn wf(self) -> bool
        decreases self,
    {
        match self {
            DockNode::Leaf { tabs } => tabs@.len() > 0,
            DockNode::Split { first, second, .. } => first.wf() && second.wf(),
        }
    }
}

/// A well-formed tree has no more leaves than tabs.
proof fn lemma_leaves_le_tabs(node: DockNode)
    requires
        node.wf(),
    ensures
        1 <= node.leaves().len() <= node.tabs().len(),
    decreases node,
{
    match node {
        DockNode::Leaf { .. } => {},
        DockNode::Split { first, second, .. } => {
            lemma_leaves_le_tabs(*first);
            lemma_leaves_le_tabs(*second);
        },
    }
}

fn node_leaf_count(node: &DockNode) -> (n: usize)
    requires
        node.wf(),
        node.tabs().len() <= usize::MAX,
    ensures
        n == node.leaves().len(),
    decreases *node,
{
    match node {
        DockNode::Leaf { .. } => 1,
        DockNode::Split { first, second, .. } => {
            proof {
                lemma_leaves_le_tabs(**first);
                lemma_leaves_le_tabs(**second);
            }
            node_leaf_count(&**first) + node_leaf_count(&**second)
        },
    }
}

fn node_collect_tabs(node: &DockNode, out: &mut Vec<PanelKind>)
    requires
        old(out)@.len() + node.tabs().len() <= usize::MAX,
    ensures
        final(out)@ =~= old(out)@ + node.tabs(),
    decreases *node,
{
    match node {
        DockNode::Leaf { tabs } => {
            let mut i: usize = 0;
            while i < tabs.len()
                invariant
                    0 <= i <= tabs@.len(),
                    out@ =~= old(out)@ + tabs@.subrange(0, i as int),
                    old(out)@.len() + tabs@.len() <= usize::MAX,
                decreases tabs@.len() - i,
            {
                out.push(tabs[i]);
                proof {
                    assert(tabs@.subrange(0, i + 1) =~= tabs@.subrange(0, i as int).push(
                        tabs@[i as int],
                    ));
                }
                i = i + 1;
            }
            proof {
                assert(tabs@.subrange(0, tabs@.len() as int) =~= tabs@);
            }
        },
        DockNode::Split { first, second, .. } => {
            node_collect_tabs(&**first, out);
            node_collect_tabs(&**second, out);
        },
    }
}

/// Take one tab out of a leaf.  A leaf left empty is removed and its parent
/// split collapses into the sibling; taking the very last tab of the tree
/// leaves no tree at all.
fn node_take_tab(node: DockNode, leaf: usize, tab: usize) -> (r: (Option<DockNode>, PanelKind))
    requires
        node.wf(),
        node.tabs().len() <= usize::MAX,
        leaf < node.leaves().len(),
        tab < node.leaves()[leaf as int].len(),
    ensures
        r.1 == node.leaves()[leaf as int][tab as int],
        node.tabs().to_multiset().contains(r.1),
        node.leaves()[leaf as int].len() > 1 ==> (r.0 matches Some(n2) && n2.wf() && n2.leaves()
            =~= node.leaves().update(
            leaf as int,
            node.leaves()[leaf as int].remove(tab as int),
        )),
        node.leaves()[leaf as int].len() == 1 && node.leaves().len() > 1 ==> (r.0 matches Some(n2)
            && n2.wf() && n2.leaves() =~= node.leaves().remove(leaf as int)),
        node.leaves()[leaf as int].len() == 1 && node.leaves().len() == 1 ==> r.0 is None,
        r.0 matches Some(n2) ==> n2.tabs().to_multiset() =~= node.tabs().to_multiset().remove(r.1)
            && n2.tabs().len() == node.tabs().len() - 1,
        r.0 is None ==> node.tabs() =~= seq![r.1],
    decreases node,
{
    broadcast use vstd::seq_lib::group_to_multiset_ensures;

    match node {
        DockNode::Leaf { mut tabs } => {
            let ghost orig: Seq<PanelKind> = tabs@;
            let t = tabs.remove(tab);
            proof {
                assert(node.leaves() =~= seq![orig]);
                assert(node.tabs() =~= orig);
                assert(orig.contains(t));
            }
            if tabs.len() == 0 {
                proof {
                    assert(orig =~= seq![t]);
                }
                (None, t)
            } else {
                let n2 = DockNode::Leaf { tabs };
                proof {
                    assert(n2.leaves() =~= seq![orig.remove(tab as int)]);
                    assert(n2.tabs() =~= orig.remove(tab as int));
                    assert(n2.leaves() =~= node.leaves().update(0, node.leaves()[0].remove(
                        tab as int,
                    )));
                }
                (Some(n2), t)
            }
        },
        DockNode::Split { horizontal, fraction_permille, first, second } => {
            proof {
                lemma_leaves_le_tabs(*first);
                lemma_leaves_le_tabs(*second);
            }
            let la = node_leaf_count(&*first);
            let ghost lf = first.leaves();
            let ghost ls = second.leaves();
            let ghost tf = first.tabs();
            let ghost ts = second.tabs();
            if leaf < la {
                let (fo, t) = node_take_tab(*first, leaf, tab);
                proof {
                    lemma_multiset_commutative(tf, ts);
                }
                match fo {
                    Some(f2) => {
                        let n2 = DockNode::Split {
                            horizontal,
                            fraction_permille,
                            first: Box::new(f2),
                            second,
                        };
                        proof {
                            lemma_multiset_commutative(f2.tabs(), ts);
                            if lf[leaf as int].len() > 1 {
                                assert(n2.leaves() =~= (lf + ls).update(
                                    leaf as int,
                                    (lf + ls)[leaf as int].remove(tab as int),
                                ));
                            } else {
                                assert(n2.leaves() =~= (lf + ls).remove(leaf as int));
                            }
                        }
                        (Some(n2), t)
                    },
                    None => {
                        proof {
                            assert(lf.len() == 1);
                            assert(leaf == 0);
                            assert(ls =~= (lf + ls).remove(0));
                            assert(seq![t] + ts =~= tf + ts);
                            lemma_multiset_commutative(seq![t], ts);
                            assert(seq![t].to_multiset() =~= Multiset::<
                                PanelKind,
                            >::empty().insert(t));
                        }
                        (Some(*second), t)
                    },
                }
            } else {
                let (so, t) = node_take_tab(*second, leaf - la, tab);
                proof {
                    lemma_multiset_commutative(tf, ts);
                }
                match so {
                    Some(s2) => {
                        let n2 = DockNode::Split {
                            horizontal,
                            fraction_permille,
                            first,
                            second: Box::new(s2),
                        };
                        proof {
                            lemma_multiset_commutative(tf, s2.tabs());
                            if ls[leaf - la].len() > 1 {
                                assert(n2.leaves() =~= (lf + ls).update(
                                    leaf as int,
                                    (lf + ls)[leaf as int].remove(tab as int),
                                ));
                            } else {
                                assert(n2.leaves() =~= (lf + ls).remove(leaf as int));
                            }
                        }
                        (Some(n2), t)
                    },
                    None => {
                        proof {
                            assert(ls.len() == 1);
                            assert(leaf == la);
                            assert(lf =~= (lf + ls).remove(leaf as int));
                            assert(tf + seq![t] =~= tf + ts);
                            lemma_multiset_commutative(tf, seq![t]);
                            assert(seq![t].to_multiset() =~= Multiset::<
                                PanelKind,
                            >::empty().insert(t));
                        }
                        (Some(*first), t)
                    },
                }
            }
        },
    }
}

/// Put a tab into an existing leaf at a given position in its tab row.
fn node_insert_tab(node: DockNode, leaf: usize, pos: usize, t: PanelKind) -> (n2: DockNode)
    requires
        node.wf(),
        node.tabs().len() < usize::MAX,
        leaf < node.leaves().len(),
        pos <= node.leaves()[leaf as int].len(),
    ensures
        n2.wf(),
        n2.leaves() =~= node.leaves().update(
            leaf as int,
            node.leaves()[leaf as int].insert(pos as int, t),
        ),
        n2.tabs().to_multiset() =~= node.tabs().to_multiset().insert(t),
        n2.tabs().len() == node.tabs().len() + 1,
    decreases node,
{
    broadcast use vstd::seq_lib::group_to_multiset_ensures;

    match node {
        DockNode::Leaf { mut tabs } => {
            let ghost before = tabs@;
            tabs.insert(pos, t);
            proof {
                assert(tabs@.remove(pos as int) =~= before);
                assert(tabs@.to_multiset().remove(t) =~= before.to_multiset());
                assert(tabs@.to_multiset().count(t) > 0);
                assert(tabs@.to_multiset() =~= before.to_multiset().insert(t)) by {
                    assert forall|x: PanelKind|
                        tabs@.to_multiset().count(x) == #[trigger] before.to_multiset().insert(
                            t,
                        ).count(x) by {
                        if x == t {
                            assert(tabs@.to_multiset().remove(t).count(t) == tabs@.to_multiset().count(t) - 1);
                        } else {
                            assert(tabs@.to_multiset().remove(t).count(x) == tabs@.to_multiset().count(x));
                        }
                    }
                }
            }
            DockNode::Leaf { tabs }
        },
        DockNode::Split { horizontal, fraction_permille, first, second } => {
            proof {
                lemma_leaves_le_tabs(*first);
                lemma_leaves_le_tabs(*second);
            }
            let la = node_leaf_count(&*first);
            let ghost lf = first.leaves();
            let ghost ls = second.leaves();
            let ghost tf = first.tabs();
            let ghost ts = second.tabs();
            if leaf < la {
                let f2 = node_insert_tab(*first, leaf, pos, t);
                let n2 = DockNode::Split {
                    horizontal,
                    fraction_permille,
                    first: Box::new(f2),
                    second,
                };
                proof {
                    lemma_multiset_commutative(tf, ts);
                    lemma_multiset_commutative(f2.tabs(), ts);
                    assert(n2.leaves() =~= (lf + ls).update(
                        leaf as int,
                        (lf + ls)[leaf as int].insert(pos as int, t),
                    ));
                }
                n2
            } else {
                let s2 = node_insert_tab(*second, leaf - la, pos, t);
                let n2 = DockNode::Split {
                    horizontal,
                    fraction_permille,
                    first,
                    second: Box::new(s2),
                };
                proof {
                    lemma_multiset_commutative(tf, ts);
                    lemma_multiset_commutative(tf, s2.tabs());
                    assert(n2.leaves() =~= (lf + ls).update(
                        leaf as int,
                        (lf + ls)[leaf as int].insert(pos as int, t),
                    ));
                }
                n2
            }
        },
    }
}

/// Split an existing leaf: the new leaf holding exactly the dropped tab is
/// placed before (`before == true`) or after the leaf it was dropped on.
fn node_split_leaf(
    node: DockNode,
    leaf: usize,
    horizontal: bool,
    fraction_permille: u32,
    t: PanelKind,
    before: bool,
) -> (n2: DockNode)
    requires
        node.wf(),
        node.tabs().len() < usize::MAX,
        leaf < node.leaves().len(),
    ensures
        n2.wf(),
        n2.leaves() =~= node.leaves().insert(
            if before {
                leaf as int
            } else {
                leaf + 1
            },
            seq![t],
        ),
        n2.tabs().to_multiset() =~= node.tabs().to_multiset().insert(t),
        n2.tabs().len() == node.tabs().len() + 1,
    decreases node,
{
    broadcast use vstd::seq_lib::group_to_multiset_ensures;

    match node {
        DockNode::Leaf { tabs } => {
            let mut new_tabs: Vec<PanelKind> = Vec::new();
            new_tabs.push(t);
            let old_leaf = DockNode::Leaf { tabs };
            let new_leaf = DockNode::Leaf { tabs: new_tabs };
            let ghost tl = old_leaf.tabs();
            let n2 = if before {
                DockNode::Split {
                    horizontal,
                    fraction_permille,
                    first: Box::new(new_leaf),
                    second: Box::new(old_leaf),
                }
            } else {
                DockNode::Split {
                    horizontal,
                    fraction_permille,
                    first: Box::new(old_leaf),
                    second: Box::new(new_leaf),
                }
            };
            proof {
                assert(new_leaf.tabs() =~= seq![t]);
                assert(new_leaf.wf());
                assert(old_leaf.wf());
                assert(leaf == 0);
                assert(node.leaves() =~= seq![old_leaf.tabs()]);
                assert(new_leaf.tabs() == seq![t]);
                assert(new_leaf.leaves() =~= seq![new_leaf.tabs()]);
                assert(old_leaf.leaves() =~= seq![old_leaf.tabs()]);
                if before {
                    assert(n2.leaves() =~= new_leaf.leaves() + old_leaf.leaves());
                    assert(n2.leaves() =~= seq![new_leaf.tabs()] + seq![old_leaf.tabs()]);
                    assert(node.leaves().insert(0, seq![t]) =~= seq![new_leaf.tabs()] + seq![
                        old_leaf.tabs(),
                    ]);
                    assert(n2.leaves() =~~= node.leaves().insert(0, seq![t]));
                } else {
                    assert(n2.leaves() =~= old_leaf.leaves() + new_leaf.leaves());
                    assert(n2.leaves() =~= seq![old_leaf.tabs()] + seq![new_leaf.tabs()]);
                    assert(node.leaves().insert(1, seq![t]) =~= seq![old_leaf.tabs()] + seq![
                        new_leaf.tabs(),
                    ]);
                    assert(n2.leaves() =~~= node.leaves().insert(1, seq![t]));
                }
                assert(seq![t].to_multiset() =~= Multiset::<PanelKind>::empty().insert(t));
                if before {
                    lemma_multiset_commutative(seq![t], tl);
                    assert(seq![t].to_multiset().add(tl.to_multiset()) =~= tl.to_multiset().insert(
                        t,
                    ));
                } else {
                    lemma_multiset_commutative(tl, seq![t]);
                }
            }
            n2
        },
        DockNode::Split { horizontal: h0, fraction_permille: f0, first, second } => {
            proof {
                lemma_leaves_le_tabs(*first);
                lemma_leaves_le_tabs(*second);
            }
            let la = node_leaf_count(&*first);
            let ghost lf = first.leaves();
            let ghost ls = second.leaves();
            let ghost tf = first.tabs();
            let ghost ts = second.tabs();
            if leaf < la {
                let f2 = node_split_leaf(*first, leaf, horizontal, fraction_permille, t, before);
                let n2 = DockNode::Split {
                    horizontal: h0,
                    fraction_permille: f0,
                    first: Box::new(f2),
                    second,
                };
                proof {
                    lemma_multiset_commutative(tf, ts);
                    lemma_multiset_commutative(f2.tabs(), ts);
                    assert(n2.leaves() =~= (lf + ls).insert(
                        if before {
                            leaf as int
                        } else {
                            leaf + 1
                        },
                        seq![t],
                    ));
                }
                n2
            } else {
                let s2 = node_split_leaf(
                    *second,
                    leaf - la,
                    horizontal,
                    fraction_permille,
                    t,
                    before,
                );
                let n2 = DockNode::Split {
                    horizontal: h0,
                    fraction_permille: f0,
                    first,
                    second: Box::new(s2),
                };
                proof {
                    lemma_multiset_commutative(tf, ts);
                    lemma_multiset_commutative(tf, s2.tabs());
                    assert(n2.leaves() =~= (lf + ls).insert(
                        if before {
                            leaf as int
                        } else {
                            leaf + 1
                        },
                        seq![t],
                    ));
                }
                n2
            }
        },
    }
}


/// The leaves after one tab was taken out: the source leaf loses the tab, or
/// disappears entirely when that was its only tab.
pub open spec fn leaves_after_take(s: Seq<Seq<PanelKind>>, src_leaf: int, src_tab: int) -> Seq<
    Seq<PanelKind>,
> {
    if s[src_leaf].len() > 1 {
        s.update(src_leaf, s[src_leaf].remove(src_tab))
    } else {
        s.remove(src_leaf)
    }
}

/// Where the destination leaf sits after the take: one to the left when the
/// source leaf collapsed in front of it.
pub open spec fn adjusted_leaf(s: Seq<Seq<PanelKind>>, src_leaf: int, dst_leaf: int) -> int {
    if s[src_leaf].len() > 1 {
        dst_leaf
    } else if dst_leaf > src_leaf {
        dst_leaf - 1
    } else {
        dst_leaf
    }
}

/// Whether an op's positions fit the layout it meets; one that does not fit
/// is skipped.
pub open spec fn op_in_range(s: Seq<Seq<PanelKind>>, op: DockOp) -> bool {
    match op {
        DockOp::MoveTab { src_leaf, src_tab, dst_leaf, dst_pos } => {
            src_leaf != dst_leaf && src_leaf < s.len() && dst_leaf < s.len() && src_tab < s[
                src_leaf as int
            ].len() && dst_pos <= s[dst_leaf as int].len()
        },
        DockOp::MoveToEdge { src_leaf, src_tab, dst_leaf, .. } => {
            src_leaf != dst_leaf && src_leaf < s.len() && dst_leaf < s.len() && src_tab < s[
                src_leaf as int
            ].len()
        },
        DockOp::CloseTab { leaf, tab } => {
            leaf < s.len() && tab < s[leaf as int].len()
        },
    }
}

/// The leaves after one mutation: exactly what the corresponding method
/// promises, and the layout untouched when the op does not fit or would
/// close the very last tab.
pub open spec fn op_leaves(s: Seq<Seq<PanelKind>>, op: DockOp) -> Seq<Seq<PanelKind>> {
    if !op_in_range(s, op) {
        s
    } else {
        match op {
            DockOp::MoveTab { src_leaf, src_tab, dst_leaf, dst_pos } => {
                let moved = s[src_leaf as int][src_tab as int];
                let s2 = leaves_after_take(s, src_leaf as int, src_tab as int);
                let d = adjusted_leaf(s, src_leaf as int, dst_leaf as int);
                s2.update(d, s[dst_leaf as int].insert(dst_pos as int, moved))
            },
            DockOp::MoveToEdge { src_leaf, src_tab, dst_leaf, before, .. } => {
                let moved = s[src_leaf as int][src_tab as int];
                let s2 = leaves_after_take(s, src_leaf as int, src_tab as int);
                let d = adjusted_leaf(s, src_leaf as int, dst_leaf as int);
                s2.insert(
                    if before {
                        d
                    } else {
                        d + 1
                    },
                    seq![moved],
                )
            },
            DockOp::CloseTab { leaf, tab } => {
                if s.len() == 1 && s[leaf as int].len() == 1 {
                    s
                } else {
                    leaves_after_take(s, leaf as int, tab as int)
                }
            },
        }
    }
}

/// The tab one mutation closes: one for a fitting close that is not refused,
/// none otherwise.
pub open spec fn op_closed(s: Seq<Seq<PanelKind>>, op: DockOp) -> Seq<PanelKind> {
    match op {
        DockOp::CloseTab { leaf, tab } => {
            if op_in_range(s, op) && !(s.len() == 1 && s[leaf as int].len() == 1) {
                seq![s[leaf as int][tab as int]]
            } else {
                Seq::<PanelKind>::empty()
            }
        },
        _ => Seq::<PanelKind>::empty(),
    }
}

/// The leaves after a whole op sequence, first op first.
pub open spec fn ops_leaves(s: Seq<Seq<PanelKind>>, ops: Seq<DockOp>) -> Seq<Seq<PanelKind>>
    decreases ops.len(),
{
    if ops.len() == 0 {
        s
    } else {
        ops_leaves(op_leaves(s, ops[0]), ops.skip(1))
    }
}

/// The tabs a whole op sequence closes, in the order they were closed.
pub open spec fn ops_closed(s: Seq<Seq<PanelKind>>, ops: Seq<DockOp>) -> Seq<PanelKind>
    decreases ops.len(),
{
    if ops.len() == 0 {
        Seq::<PanelKind>::empty()
    } else {
        op_closed(s, ops[0]) + ops_closed(op_leaves(s, ops[0]), ops.skip(1))
    }
}

/// One drag-and-drop mutation of the dock layout, with all positions given
/// against the layout before the mutation.
#[derive(Debug, Clone, Copy, PartialEq, Eq, Structural)]
pub enum DockOp {
    /// Drop a tab into the tab row of another leaf.
    MoveTab { src_leaf: usize, src_tab: usize, dst_leaf: usize, dst_pos: usize },
    /// Drop a tab onto the edge of a leaf, splitting it.
    MoveToEdge {
        src_leaf: usize,
        src_tab: usize,
        dst_leaf: usize,
        horizontal: bool,
        fraction_permille: u32,
        before: bool,
    },
    /// Close a tab.
    CloseTab { leaf: usize, tab: usize },
}

fn node_leaf_len(node: &DockNode, leaf: usize) -> (n: usize)
    requires
        node.wf(),
        node.tabs().len() <= usize::MAX,
        leaf < node.leaves().len(),
    ensures
        n == node.leaves()[leaf as int].len(),
    decreases *node,
{
    match node {
        DockNode::Leaf { tabs } => tabs.len(),
        DockNode::Split { first, second, .. } => {
            proof {
                lemma_leaves_le_tabs(**first);
                lemma_leaves_le_tabs(**second);
            }
            let la = node_leaf_count(&**first);
            if leaf < la {
                node_leaf_len(&**first, leaf)
            } else {
                node_leaf_len(&**second, leaf - la)
            }
        },
    }
}

/// The dock layout tree.  After initialization it always holds at least one
/// leaf with at least one tab, and drag-and-drop mutations keep every tab
/// exactly once.
pub struct DockTree {
    root: DockNode,
}

impl DockTree {
    /// The tab sequences of the leaves, in depth-first order.
    pub closed spec fn leaves(self) -> Seq<Seq<PanelKind>> {
        self.root.leaves()
    }

    /// All tabs of the layout in depth-first order.
    pub closed spec fn tabs(self) -> Seq<PanelKind> {
        self.root.tabs()
    }

    pub closed spec fn wf(self) -> bool {
        self.root.wf() && self.root.tabs().len() <= usize::MAX
    }

    /// The initial layout: a main area holding the game view with the
    /// inspector to its right, a hierarchy strip on the far left, and below
    /// the game view a bottom strip holding resources and assets.
    pub fn new_default() -> (t: DockTree)
        ensures
            t.wf(),
            t.leaves() =~= seq![
                seq![PanelKind::Hierarchy],
                seq![PanelKind::GameView],
                seq![PanelKind::Resources, PanelKind::Assets],
                seq![PanelKind::Inspector],
            ],
            t.tabs() =~= seq![
                PanelKind::Hierarchy,
                PanelKind::GameView,
                PanelKind::Resources,
                PanelKind::Assets,
                PanelKind::Inspector,
            ],
    {
        let mut game_tabs: Vec<PanelKind> = Vec::new();
        game_tabs.push(PanelKind::GameView);
        let mut hierarchy_tabs: Vec<PanelKind> = Vec::new();
        hierarchy_tabs.push(PanelKind::Hierarchy);
        let mut bottom_tabs: Vec<PanelKind> = Vec::new();
        bottom_tabs.push(PanelKind::Resources);
        bottom_tabs.push(PanelKind::Assets);
        let mut inspector_tabs: Vec<PanelKind> = Vec::new();
        inspector_tabs.push(PanelKind::Inspector);
        let game = DockNode::Leaf { tabs: game_tabs };
        let hierarchy = DockNode::Leaf { tabs: hierarchy_tabs };
        let bottom = DockNode::Leaf { tabs: bottom_tabs };
        let inspector = DockNode::Leaf { tabs: inspector_tabs };
        proof {
            assert(game.wf() && game.leaves() =~~= seq![seq![PanelKind::GameView]] && game.tabs()
                =~= seq![PanelKind::GameView]);
            assert(hierarchy.wf() && hierarchy.leaves() =~~= seq![seq![PanelKind::Hierarchy]]
                && hierarchy.tabs() =~= seq![PanelKind::Hierarchy]);
            assert(bottom.wf() && bottom.leaves() =~~= seq![
                seq![PanelKind::Resources, PanelKind::Assets],
            ] && bottom.tabs() =~= seq![PanelKind::Resources, PanelKind::Assets]);
            assert(inspector.wf() && inspector.leaves() =~~= seq![seq![PanelKind::Inspector]]
                && inspector.tabs() =~= seq![PanelKind::Inspector]);
        }
        // the game view keeps 800 permille above the bottom strip
        let centre = DockNode::Split {
            horizontal: false,
            fraction_permille: 800,
            first: Box::new(game),
            second: Box::new(bottom),
        };
        proof {
            assert(centre.wf() && centre.leaves() =~~= seq![
                seq![PanelKind::GameView],
                seq![PanelKind::Resources, PanelKind::Assets],
            ] && centre.tabs() =~= seq![
                PanelKind::GameView,
                PanelKind::Resources,
                PanelKind::Assets,
            ]);
        }
        // the hierarchy strip takes 200 permille on the left
        let left = DockNode::Split {
            horizontal: true,
            fraction_permille: 200,
            first: Box::new(hierarchy),
            second: Box::new(centre),
        };
        proof {
            assert(left.wf() && left.leaves() =~~= seq![
                seq![PanelKind::Hierarchy],
                seq![PanelKind::GameView],
                seq![PanelKind::Resources, PanelKind::Assets],
            ] && left.tabs() =~= seq![
                PanelKind::Hierarchy,
                PanelKind::GameView,
                PanelKind::Resources,
                PanelKind::Assets,
            ]);
        }
        // the main area keeps 750 permille to the left of the inspector
        let root = DockNode::Split {
            horizontal: true,
            fraction_permille: 750,
            first: Box::new(left),
            second: Box::new(inspector),
        };
        proof {
            assert(root.wf() && root.leaves() =~~= seq![
                seq![PanelKind::Hierarchy],
                seq![PanelKind::GameView],
                seq![PanelKind::Resources, PanelKind::Assets],
                seq![PanelKind::Inspector],
            ] && root.tabs() =~= seq![
                PanelKind::Hierarchy,
                PanelKind::GameView,
                PanelKind::Resources,
                PanelKind::Assets,
                PanelKind::Inspector,
            ]);
        }
        DockTree { root }
    }

    /// How many leaves the layout has.
    pub fn leaf_count(&self) -> (n: usize)
        requires
            self.wf(),
        ensures
            n == self.leaves().len(),
    {
        node_leaf_count(&self.root)
    }

    /// How many tabs the leaf at this depth-first position holds.
    pub fn leaf_len(&self, leaf: usize) -> (n: usize)
        requires
            self.wf(),
            leaf < self.leaves().len(),
        ensures
            n == self.leaves()[leaf as int].len(),
    {
        node_leaf_len(&self.root, leaf)
    }

    /// All tabs in depth-first order, the order in which the panels are
    /// rendered.
    pub fn tabs_in_order(&self) -> (v: Vec<PanelKind>)
        requires
            self.wf(),
        ensures
            v@ =~= self.tabs(),
    {
        let mut v: Vec<PanelKind> = Vec::new();
        node_collect_tabs(&self.root, &mut v);
        v
    }

    fn take_root(&mut self) -> (n: DockNode)
        ensures
            n == old(self).root,
    {
        let mut filler: Vec<PanelKind> = Vec::new();
        filler.push(PanelKind::GameView);
        let mut node = DockNode::Leaf { tabs: filler };
        core::mem::swap(&mut node, &mut self.root);
        node
    }

    /// Drag the tab at `(src_leaf, src_tab)` into the tab row of another
    /// leaf, at position `dst_pos`.  No tab is lost or duplicated.
    pub fn move_tab(&mut self, src_leaf: usize, src_tab: usize, dst_leaf: usize, dst_pos: usize)
        requires
            old(self).wf(),
            src_leaf < old(self).leaves().len(),
            dst_leaf < old(self).leaves().len(),
            src_leaf != dst_leaf,
            src_tab < old(self).leaves()[src_leaf as int].len(),
            dst_pos <= old(self).leaves()[dst_leaf as int].len(),
        ensures
            final(self).wf(),
            final(self).tabs().to_multiset() =~= old(self).tabs().to_multiset(),
            final(self).tabs().len() == old(self).tabs().len(),
            ({
                let s = old(self).leaves();
                let moved = s[src_leaf as int][src_tab as int];
                let s2 = leaves_after_take(s, src_leaf as int, src_tab as int);
                let d = adjusted_leaf(s, src_leaf as int, dst_leaf as int);
                final(self).leaves() =~= s2.update(d, s[dst_leaf as int].insert(
                    dst_pos as int,
                    moved,
                ))
            }),
    {
        broadcast use vstd::multiset::group_multiset_axioms;

        proof {
            lemma_leaves_le_tabs(old(self).root);
        }
        let src_len = self.leaf_len(src_leaf);
        let root = self.take_root();
        let ghost s = root.leaves();
        let (taken, t) = node_take_tab(root, src_leaf, src_tab);
        let n2 = match taken {
            Some(inner) => inner,
            None => {
                proof {
                    assert(false);
                }
                unreached()
            },
        };
        let d = if src_len == 1 && dst_leaf > src_leaf {
            dst_leaf - 1
        } else {
            dst_leaf
        };
        proof {
            s.remove_ensures(src_leaf as int);
            assert(n2.leaves()[d as int] =~= s[dst_leaf as int]);
            assert(d < n2.leaves().len());
        }
        let n3 = node_insert_tab(n2, d, dst_pos, t);
        proof {
            assert(n3.tabs().to_multiset() =~= root.tabs().to_multiset()) by {
                assert forall|x: PanelKind|
                    n3.tabs().to_multiset().count(x) == #[trigger] root.tabs().to_multiset().count(
                        x,
                    ) by {
                    assert(root.tabs().to_multiset().count(t) > 0);
                }
            }
        }
        self.root = n3;
    }

    /// Drag the tab at `(src_leaf, src_tab)` onto an edge of another leaf,
    /// splitting that leaf; the moved tab becomes a new leaf before or after
    /// it.  No tab is lost or duplicated.
    pub fn move_tab_to_edge(
        &mut self,
        src_leaf: usize,
        src_tab: usize,
        dst_leaf: usize,
        horizontal: bool,
        fraction_permille: u32,
        before: bool,
    )
        requires
            old(self).wf(),
            src_leaf < old(self).leaves().len(),
            dst_leaf < old(self).leaves().len(),
            src_leaf != dst_leaf,
            src_tab < old(self).leaves()[src_leaf as int].len(),
        ensures
            final(self).wf(),
            final(self).tabs().to_multiset() =~= old(self).tabs().to_multiset(),
            final(self).tabs().len() == old(self).tabs().len(),
            ({
                let s = old(self).leaves();
                let moved = s[src_leaf as int][src_tab as int];
                let s2 = leaves_after_take(s, src_leaf as int, src_tab as int);
                let d = adjusted_leaf(s, src_leaf as int, dst_leaf as int);
                final(self).leaves() =~= s2.insert(
                    if before {
                        d
                    } else {
                        d + 1
                    },
                    seq![moved],
                )
            }),
    {
        broadcast use vstd::multiset::group_multiset_axioms;

        proof {
            lemma_leaves_le_tabs(old(self).root);
        }
        let src_len = self.leaf_len(src_leaf);
        let root = self.take_root();
        let ghost s = root.leaves();
        let (taken, t) = node_take_tab(root, src_leaf, src_tab);
        let n2 = match taken {
            Some(inner) => inner,
            None => {
                proof {
                    assert(false);
                }
                unreached()
            },
        };
        let d = if src_len == 1 && dst_leaf > src_leaf {
            dst_leaf - 1
        } else {
            dst_leaf
        };
        proof {
            s.remove_ensures(src_leaf as int);
            assert(d < n2.leaves().len());
        }
        let n3 = node_split_leaf(n2, d, horizontal, fraction_permille, t, before);
        proof {
            assert(n3.tabs().to_multiset() =~= root.tabs().to_multiset()) by {
                assert forall|x: PanelKind|
                    n3.tabs().to_multiset().count(x) == #[trigger] root.tabs().to_multiset().count(
                        x,
                    ) by {
                    assert(root.tabs().to_multiset().count(t) > 0);
                }
            }
        }
        self.root = n3;
    }

    /// Close the tab at `(leaf, tab)` and return it.  The one refusal keeps
    /// the layout invariant: the very last tab of the tree cannot be closed.
    pub fn close_tab(&mut self, leaf: usize, tab: usize) -> (closed: Option<PanelKind>)
        requires
            old(self).wf(),
            leaf < old(self).leaves().len(),
            tab < old(self).leaves()[leaf as int].len(),
        ensures
            final(self).wf(),
            (closed is Some) == !(old(self).leaves().len() == 1 && old(self).leaves()[
                leaf as int
            ].len() == 1),
            closed matches Some(t) ==> t == old(self).leaves()[leaf as int][tab as int]
                && final(self).leaves() =~= leaves_after_take(
                old(self).leaves(),
                leaf as int,
                tab as int,
            ) && final(self).tabs().to_multiset() =~= old(self).tabs().to_multiset().remove(t)
                && old(self).tabs().to_multiset().contains(t),
            closed is None ==> *final(self) == *old(self),
    {
        proof {
            lemma_leaves_le_tabs(old(self).root);
        }
        let n_leaves = self.leaf_count();
        let n_tabs = self.leaf_len(leaf);
        if n_leaves == 1 && n_tabs == 1 {
            return None;
        }
        let root = self.take_root();
        let (taken, t) = node_take_tab(root, leaf, tab);
        let n2 = match taken {
            Some(inner) => inner,
            None => {
                proof {
                    assert(false);
                }
                unreached()
            },
        };
        self.root = n2;
        Some(t)
    }

    /// Run a whole sequence of drag-and-drop mutations, skipping any whose
    /// positions do not fit the layout they meet.  The layout afterwards is
    /// exactly the fold of the per-op transitions over the sequence, and the
    /// closed tabs come back in the order they were closed; in particular the
    /// layout holds exactly the tabs it held before, minus the closed ones.
    pub fn apply_ops(&mut self, ops: &Vec<DockOp>) -> (closed: Vec<PanelKind>)
        requires
            old(self).wf(),
        ensures
            final(self).wf(),
            final(self).leaves() == ops_leaves(old(self).leaves(), ops@),
            closed@ == ops_closed(old(self).leaves(), ops@),
            old(self).tabs().to_multiset() =~= final(self).tabs().to_multiset().add(
                closed@.to_multiset(),
            ),
    {
        broadcast use vstd::seq_lib::group_to_multiset_ensures;

        let mut closed: Vec<PanelKind> = Vec::new();
        let mut i: usize = 0;
        proof {
            assert(ops@.skip(0) =~= ops@);
            assert(Seq::<PanelKind>::empty() + ops_closed(self.leaves(), ops@) =~= ops_closed(
                self.leaves(),
                ops@,
            ));
        }
        while i < ops.len()
            invariant
                self.wf(),
                old(self).tabs().to_multiset() =~= self.tabs().to_multiset().add(
                    closed@.to_multiset(),
                ),
                0 <= i <= ops@.len(),
                ops_leaves(old(self).leaves(), ops@) == ops_leaves(
                    self.leaves(),
                    ops@.skip(i as int),
                ),
                ops_closed(old(self).leaves(), ops@) == closed@ + ops_closed(
                    self.leaves(),
                    ops@.skip(i as int),
                ),
            decreases ops@.len() - i,
        {
            let ghost pre = self.tabs().to_multiset();
            let ghost cur = self.leaves();
            let ghost closed_pre = closed@;
            let op = ops[i];
            proof {
                assert(ops@.skip(i as int)[0] == ops@[i as int]);
                assert(ops@.skip(i as int).skip(1) =~= ops@.skip(i + 1));
            }
            match op {
                DockOp::MoveTab { src_leaf, src_tab, dst_leaf, dst_pos } => {
                    if src_leaf != dst_leaf && src_leaf < self.leaf_count() && dst_leaf
                        < self.leaf_count() && src_tab < self.leaf_len(src_leaf) && dst_pos
                        <= self.leaf_len(dst_leaf) {
                        proof {
                            assert(op_in_range(cur, op));
                        }
                        self.move_tab(src_leaf, src_tab, dst_leaf, dst_pos);
                        proof {
                            assert(self.leaves() == op_leaves(cur, op));
                        }
                    } else {
                        proof {
                            assert(!op_in_range(cur, op));
                            assert(self.leaves() == op_leaves(cur, op));
                        }
                    }
                    proof {
                        assert(op_closed(cur, op) =~= Seq::<PanelKind>::empty());
                        assert(Seq::<PanelKind>::empty() + ops_closed(
                            self.leaves(),
                            ops@.skip(i + 1),
                        ) =~= ops_closed(self.leaves(), ops@.skip(i + 1)));
                    }
                },
                DockOp::MoveToEdge {
                    src_leaf,
                    src_tab,
                    dst_leaf,
                    horizontal,
                    fraction_permille,
                    before,
                } => {
                    if src_leaf != dst_leaf && src_leaf < self.leaf_count() && dst_leaf
                        < self.leaf_count() && src_tab < self.leaf_len(src_leaf) {
                        proof {
                            assert(op_in_range(cur, op));
                        }
                        self.move_tab_to_edge(
                            src_leaf,
                            src_tab,
                            dst_leaf,
                            horizontal,
                            fraction_permille,
                            before,
                        );
                        proof {
                            assert(self.leaves() == op_leaves(cur, op));
                        }
                    } else {
                        proof {
                            assert(!op_in_range(cur, op));
                            assert(self.leaves() == op_leaves(cur, op));
                        }
                    }
                    proof {
                        assert(op_closed(cur, op) =~= Seq::<PanelKind>::empty());
                        assert(Seq::<PanelKind>::empty() + ops_closed(
                            self.leaves(),
                            ops@.skip(i + 1),
                        ) =~= ops_closed(self.leaves(), ops@.skip(i + 1)));
                    }
                },
                DockOp::CloseTab { leaf, tab } => {
                    if leaf < self.leaf_count() && tab < self.leaf_len(leaf) {
                        proof {
                            assert(op_in_range(cur, op));
                        }
                        if let Some(t) = self.close_tab(leaf, tab) {
                            closed.push(t);
                            proof {
                                broadcast use vstd::multiset::group_multiset_axioms;
                                broadcast use vstd::seq_lib::group_to_multiset_ensures;

                                assert(self.leaves() == op_leaves(cur, op));
                                assert(op_closed(cur, op) =~= seq![t]);
                                assert(closed@ =~= closed_pre.push(t));
                                assert(closed_pre + (seq![t] + ops_closed(
                                    self.leaves(),
                                    ops@.skip(i + 1),
                                )) =~= closed@ + ops_closed(self.leaves(), ops@.skip(i + 1)));
                                assert(old(self).tabs().to_multiset() =~= self.tabs().to_multiset().add(
                                    closed@.to_multiset(),
                                )) by {
                                    assert(closed_pre.push(t).to_multiset()
                                        =~= closed_pre.to_multiset().insert(t));
                                    assert(closed@.to_multiset() =~= closed_pre.to_multiset().insert(
                                        t,
                                    ));
                                    assert forall|x: PanelKind|
                                        old(self).tabs().to_multiset().count(x)
                                            == #[trigger] self.tabs().to_multiset().add(
                                            closed@.to_multiset(),
                                        ).count(x) by {
                                        assert(pre.count(t) > 0);
                                    }
                                }
                            }
                        } else {
                            proof {
                                assert(self.leaves() == op_leaves(cur, op));
                                assert(op_closed(cur, op) =~= Seq::<PanelKind>::empty());
                                assert(Seq::<PanelKind>::empty() + ops_closed(
                                    self.leaves(),
                                    ops@.skip(i + 1),
                                ) =~= ops_closed(self.leaves(), ops@.skip(i + 1)));
                            }
                        }
                    } else {
                        proof {
                            assert(!op_in_range(cur, op));
                            assert(self.leaves() == op_leaves(cur, op));
                            assert(op_closed(cur, op) =~= Seq::<PanelKind>::empty());
                            assert(Seq::<PanelKind>::empty() + ops_closed(
                                self.leaves(),
                                ops@.skip(i + 1),
                            ) =~= ops_closed(self.leaves(), ops@.skip(i + 1)));
                        }
                    }
                },
            }
            i = i + 1;
        }
        proof {
            assert(ops@.skip(ops@.len() as int).len() == 0);
            assert(closed@ + Seq::<PanelKind>::empty() =~= closed@);
        }
        closed
    }
}

} // verus!
