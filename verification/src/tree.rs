//! An ownership tree and an ordered forest of such trees.
//!
//! The reconciler groups the revisions of a processed stack into sibling
//! branches with these types: a value is inserted below the first node whose
//! value satisfies a predicate (here: "is the parent revision"), or becomes a
//! new root when no node matches.  Rendering then walks the trees downward.
//!
//! The mathematical model of a `Tree<T>` is a [`SpecTree<T>`]: the same shape
//! with `Seq` in place of `Vec`, so contracts can speak of paths (sequences
//! of child indices) and of node surgery along a path.

use vstd::prelude::*;

use crate::error::{Error, ErrorKind};

verus! {

/// The spec-level shape of a tree: a value and the models of its children.
pub struct SpecTree<T> {
    pub value: T,
    pub children: Seq<SpecTree<T>>,
}

impl<T> SpecTree<T> {
    /// A node without children.
    pub open spec fn leaf(value: T) -> SpecTree<T> {
        SpecTree { value, children: Seq::empty() }
    }

    /// Does `path` lead to a node of this tree?  The empty path is the root.
    pub open spec fn wf_path(self, path: Seq<int>) -> bool
        decreases path.len(),
    {
        path.len() == 0 || (0 <= path[0] < self.children.len()
            && self.children[path[0]].wf_path(path.drop_first()))
    }

    /// The node that `path` leads to.
    pub open spec fn node_at(self, path: Seq<int>) -> SpecTree<T>
        recommends
            self.wf_path(path),
        decreases path.len(),
    {
        if path.len() == 0 {
            self
        } else {
            self.children[path[0]].node_at(path.drop_first())
        }
    }

    /// This tree with a new leaf holding `value` appended to the children of
    /// the node that `path` leads to.
    pub open spec fn append_child_at(self, path: Seq<int>, value: T) -> SpecTree<T>
        recommends
            self.wf_path(path),
        decreases path.len(),
    {
        if path.len() == 0 {
            SpecTree { value: self.value, children: self.children.push(SpecTree::leaf(value)) }
        } else {
            SpecTree {
                value: self.value,
                children: self.children.update(
                    path[0],
                    self.children[path[0]].append_child_at(path.drop_first(), value),
                ),
            }
        }
    }

    /// This tree with the node that `path` leads to replaced by `node`.
    pub open spec fn replaced_at(self, path: Seq<int>, node: SpecTree<T>) -> SpecTree<T>
        recommends
            self.wf_path(path),
        decreases path.len(),
    {
        if path.len() == 0 {
            node
        } else {
            SpecTree {
                value: self.value,
                children: self.children.update(
                    path[0],
                    self.children[path[0]].replaced_at(path.drop_first(), node),
                ),
            }
        }
    }

    /// The preorder path to the first node whose value satisfies `pred`:
    /// a node comes before its children, and a child before its later
    /// siblings and everything below them.
    pub open spec fn find_path(self, pred: spec_fn(T) -> bool) -> Option<Seq<int>>
        decreases self, 0int,
    {
        if pred(self.value) {
            Some(Seq::empty())
        } else {
            SpecTree::find_path_in(self.children, 0, pred)
        }
    }

    /// The search of `find_path` over the children `i`, `i + 1`, ... of one
    /// node, with the index of the child prepended to the returned path.
    pub open spec fn find_path_in(children: Seq<SpecTree<T>>, i: int, pred: spec_fn(T) -> bool) -> Option<
        Seq<int>,
    >
        recommends
            0 <= i <= children.len(),
        decreases children, children.len() - i,
    {
        if i < 0 || i >= children.len() {
            None
        } else {
            match children[i].find_path(pred) {
                Some(sub) => Some(seq![i].add(sub)),
                None => SpecTree::find_path_in(children, i + 1, pred),
            }
        }
    }

    /// The number of nodes of this tree.
    pub open spec fn size(self) -> nat
        decreases self, 0int,
    {
        1 + SpecTree::seq_size(self.children)
    }

    /// The total number of nodes of a sequence of trees.
    pub open spec fn seq_size(ts: Seq<SpecTree<T>>) -> nat
        decreases ts, 0int,
    {
        if ts.len() == 0 {
            0
        } else {
            ts[0].size() + SpecTree::seq_size(ts.drop_first())
        }
    }

    /// The drawing width of a tree: how far a fork glyph must indent so that
    /// nested forks below it still line up.  A chain takes no room of its
    /// own; each level that actually forks adds one.
    pub open spec fn spec_width(self) -> nat
        decreases self, 0int,
    {
        if self.children.len() == 0 {
            1
        } else if self.children.len() == 1 {
            self.children[0].spec_width()
        } else {
            1 + SpecTree::max_width_in(self.children, 0)
        }
    }

    /// The largest width among the children `i`, `i + 1`, ...
    pub open spec fn max_width_in(children: Seq<SpecTree<T>>, i: int) -> nat
        recommends
            0 <= i < children.len(),
        decreases children, children.len() - i,
    {
        if i < 0 || i >= children.len() {
            0
        } else {
            let w = children[i].spec_width();
            let rest = SpecTree::max_width_in(children, i + 1);
            if w >= rest {
                w
            } else {
                rest
            }
        }
    }
}

/// The model of an executable child-index path.
pub open spec fn path_view(p: Seq<usize>) -> Seq<int> {
    Seq::new(p.len(), |i: int| p[i] as int)
}

/// The spec predicate an executable predicate closure stands for: it holds
/// of the values the closure promises to answer `true` for.
pub open spec fn pred_of<T, P: Fn(&T) -> bool>(p: P) -> spec_fn(T) -> bool {
    |t: T| call_ensures(p, (&t,), true)
}

/// A predicate closure the tree search can rely on: callable on every value,
/// and with an answer that is a function of the value.
pub open spec fn total_pred<T, P: Fn(&T) -> bool>(p: P) -> bool {
    &&& forall|t: &T| #[trigger] call_requires(p, (t,))
    &&& forall|t: &T, b1: bool, b2: bool|
        #[trigger] call_ensures(p, (t,), b1) && #[trigger] call_ensures(p, (t,), b2) ==> b1 == b2
}

/// A non-empty tree of owned values.
pub struct Tree<T> {
    value: T,
    children: Vec<Tree<T>>,
}

/// The model of an executable tree: the same values, with every `Vec` of
/// children abstracted to a `Seq`.
pub open spec fn tree_view<T>(t: Tree<T>) -> SpecTree<T>
    decreases t,
{
    SpecTree { value: t.spec_value(), children: trees_view(t.spec_children()) }
}

/// The models of a sequence of trees, in order.
pub open spec fn trees_view<T>(ts: Seq<Tree<T>>) -> Seq<SpecTree<T>>
    decreases ts,
{
    if ts.len() == 0 {
        Seq::empty()
    } else {
        seq![tree_view(ts[0])].add(trees_view(ts.drop_first()))
    }
}

impl<T> View for Tree<T> {
    type V = SpecTree<T>;

    open spec fn view(&self) -> SpecTree<T> {
        tree_view(*self)
    }
}

/// `trees_view` maps the sequence pointwise.
pub broadcast proof fn lemma_trees_view_index<T>(ts: Seq<Tree<T>>, i: int)
    requires
        0 <= i < ts.len(),
    ensures
        trees_view(ts).len() == ts.len(),
        #[trigger] trees_view(ts)[i] == tree_view(ts[i]),
    decreases ts.len(),
{
    lemma_trees_view_len(ts);
    if ts.len() > 0 && i > 0 {
        lemma_trees_view_index(ts.drop_first(), i - 1);
    }
}

/// `trees_view` keeps the length.
pub proof fn lemma_trees_view_len<T>(ts: Seq<Tree<T>>)
    ensures
        trees_view(ts).len() == ts.len(),
    decreases ts.len(),
{
    if ts.len() > 0 {
        lemma_trees_view_len(ts.drop_first());
    }
}

/// `trees_view` commutes with updating one member.
pub broadcast proof fn lemma_trees_view_update<T>(ts: Seq<Tree<T>>, i: int, t: Tree<T>)
    requires
        0 <= i < ts.len(),
    ensures
        #[trigger] trees_view(ts.update(i, t)) == trees_view(ts).update(i, tree_view(t)),
{
    let upd = ts.update(i, t);
    lemma_trees_view_len(ts);
    lemma_trees_view_len(upd);
    assert forall|j: int| 0 <= j < upd.len() implies trees_view(upd)[j] == trees_view(ts).update(
        i,
        tree_view(t),
    )[j] by {
        lemma_trees_view_index(upd, j);
        lemma_trees_view_index(ts, j);
    }
    assert(trees_view(upd) =~= trees_view(ts).update(i, tree_view(t)));
}

/// Appending a leaf below the node a path leads to is the same as replacing
/// that node by itself with the leaf appended.
pub proof fn lemma_append_at_via_replace<T>(t: SpecTree<T>, path: Seq<int>, value: T)
    requires
        t.wf_path(path),
    ensures
        t.append_child_at(path, value) == t.replaced_at(
            path,
            SpecTree {
                value: t.node_at(path).value,
                children: t.node_at(path).children.push(SpecTree::leaf(value)),
            },
        ),
    decreases path.len(),
{
    if path.len() > 0 {
        lemma_append_at_via_replace(t.children[path[0]], path.drop_first(), value);
    }
}

/// The total size of a sequence is the size of its last member plus the
/// rest.
pub proof fn lemma_seq_size_drop_last<T>(ts: Seq<SpecTree<T>>)
    requires
        ts.len() > 0,
    ensures
        SpecTree::seq_size(ts) == SpecTree::seq_size(ts.drop_last()) + ts.last().size(),
    decreases ts.len(),
{
    if ts.len() == 1 {
        assert(ts.drop_last() =~= Seq::<SpecTree<T>>::empty());
        assert(ts.drop_first() =~= Seq::<SpecTree<T>>::empty());
    } else {
        lemma_seq_size_drop_last(ts.drop_first());
        assert(ts.drop_first().drop_last() =~= ts.drop_last().drop_first());
        assert(ts.drop_first().last() == ts.last());
        assert(ts.drop_last()[0] == ts[0]);
    }
}

/// A prefix never exceeds the total size.
pub proof fn lemma_seq_size_take_le<T>(ts: Seq<SpecTree<T>>, i: int)
    requires
        0 <= i <= ts.len(),
    ensures
        SpecTree::seq_size(ts.take(i)) <= SpecTree::seq_size(ts),
    decreases ts.len() - i,
{
    if i < ts.len() {
        assert(ts.take(i + 1).drop_last() =~= ts.take(i));
        assert(ts.take(i + 1).last() == ts[i]);
        lemma_seq_size_drop_last(ts.take(i + 1));
        lemma_seq_size_take_le(ts, i + 1);
    } else {
        assert(ts.take(i) =~= ts);
    }
}

/// A member of a sequence of trees accounts for part of their total size.
pub proof fn lemma_seq_size_index<T>(ts: Seq<SpecTree<T>>, i: int)
    requires
        0 <= i < ts.len(),
    ensures
        ts[i].size() <= SpecTree::seq_size(ts),
    decreases ts.len(),
{
    if i > 0 {
        lemma_seq_size_index(ts.drop_first(), i - 1);
    }
}

/// The width of a tree is positive and never exceeds its node count.
pub proof fn lemma_width_le_size<T>(t: SpecTree<T>)
    ensures
        1 <= t.spec_width() <= t.size(),
    decreases t, 1int,
{
    if t.children.len() >= 1 {
        lemma_max_width_in_le_seq_size(t.children, 0);
        if t.children.len() == 1 {
            assert(SpecTree::max_width_in(t.children, 1) == 0);
            assert(t.spec_width() == SpecTree::max_width_in(t.children, 0));
        }
    }
}

/// The largest width in a non-empty suffix of a sequence of trees is
/// positive, and it never exceeds the total size of the sequence.
pub proof fn lemma_max_width_in_le_seq_size<T>(ts: Seq<SpecTree<T>>, i: int)
    requires
        0 <= i,
    ensures
        SpecTree::max_width_in(ts, i) <= SpecTree::seq_size(ts),
        i < ts.len() ==> SpecTree::max_width_in(ts, i) >= 1,
    decreases ts, ts.len() - i,
{
    if i < ts.len() {
        lemma_width_le_size(ts[i]);
        lemma_seq_size_index(ts, i);
        lemma_max_width_in_le_seq_size(ts, i + 1);
    }
}

impl<T> Tree<T> {
    pub closed spec fn spec_value(&self) -> T {
        self.value
    }

    pub closed spec fn spec_children(&self) -> Seq<Tree<T>> {
        self.children@
    }

    pub fn new(value: T) -> (r: Self)
        ensures
            r@ == SpecTree::leaf(value),
    {
        let r = Tree { value, children: Vec::new() };
        proof {
            assert(r@.children =~= Seq::<SpecTree<T>>::empty());
        }
        r
    }

    pub fn get(&self) -> (r: &T)
        ensures
            *r == self@.value,
    {
        &self.value
    }

    pub fn add_child(&mut self, child: Self)
        ensures
            final(self)@ == (SpecTree {
                value: old(self)@.value,
                children: old(self)@.children.push(child@),
            }),
    {
        self.children.push(child);
        proof {
            let oldc = old(self).children@;
            let newc = oldc.push(child);
            lemma_trees_view_len(newc);
            lemma_trees_view_len(oldc);
            assert forall|i: int| 0 <= i < newc.len() implies trees_view(newc)[i] == trees_view(
                oldc,
            ).push(child@)[i] by {
                lemma_trees_view_index(newc, i);
                if i < oldc.len() {
                    lemma_trees_view_index(oldc, i);
                }
            }
            assert(trees_view(newc) =~= trees_view(oldc).push(child@));
        }
    }

    pub fn add_child_value(&mut self, value: T)
        ensures
            final(self)@ == old(self)@.append_child_at(Seq::empty(), value),
    {
        self.add_child(Self::new(value));
    }

    pub fn get_children(&self) -> (r: &Vec<Tree<T>>)
        ensures
            trees_view(r@) == self@.children,
            r@.len() == self@.children.len(),
    {
        proof {
            lemma_trees_view_len(self.children@);
        }
        &self.children
    }

    /// See `SpecTree::spec_width`.
    pub fn width(&self) -> (w: usize)
        requires
            self@.size() <= usize::MAX,
        ensures
            w as nat == self@.spec_width(),
        decreases self@.size(),
    {
        let ghost cs = self@.children;
        proof {
            lemma_trees_view_len(self.children@);
        }
        let n = self.children.len();
        if n == 0 {
            return 1;
        }
        let mut m: usize = 0;
        let mut i: usize = n;
        while i > 0
            invariant
                i <= n,
                n == self.children@.len(),
                cs == self@.children,
                cs.len() == n,
                self@.size() <= usize::MAX,
                m as nat == SpecTree::max_width_in(cs, i as int),
                m as nat <= SpecTree::seq_size(cs),
            decreases i,
        {
            i = i - 1;
            proof {
                lemma_trees_view_index(self.children@, i as int);
                lemma_seq_size_index(cs, i as int);
            }
            let w = self.children[i].width();
            proof {
                lemma_width_le_size(cs[i as int]);
                lemma_max_width_in_le_seq_size(cs, i as int);
            }
            if w > m {
                m = w;
            }
        }
        if n == 1 {
            proof {
                assert(SpecTree::max_width_in(cs, 1) == 0);
                assert(m as nat == cs[0].spec_width());
                assert(self@.spec_width() == cs[0].spec_width());
            }
            m
        } else {
            proof {
                lemma_max_width_in_le_seq_size(cs, 0);
                assert(self@.spec_width() == 1 + SpecTree::max_width_in(cs, 0));
            }
            m + 1
        }
    }

    /// The number of nodes, when it stays within `budget`.
    pub fn checked_size(&self, budget: usize) -> (r: Option<usize>)
        ensures
            match r {
                Some(s) => s as nat == self@.size() && s <= budget,
                None => self@.size() > budget,
            },
        decreases self@.size(),
    {
        let ghost cs = self@.children;
        proof {
            lemma_trees_view_len(self.children@);
        }
        if budget == 0 {
            return None;
        }
        let n = self.children.len();
        let mut total: usize = 1;
        let mut i: usize = 0;
        while i < n
            invariant
                i <= n,
                n == self.children@.len(),
                cs == self@.children,
                1 <= total <= budget,
                budget >= 1,
                total as nat == 1 + SpecTree::seq_size(cs.take(i as int)),
            decreases n - i,
        {
            proof {
                lemma_trees_view_index(self.children@, i as int);
                lemma_seq_size_index(cs, i as int);
            }
            let child_budget = budget - total;
            let sub = self.children[i].checked_size(child_budget);
            match sub {
                None => {
                    proof {
                        assert(cs.take(i as int + 1).drop_last() =~= cs.take(i as int));
                        assert(cs.take(i as int + 1).last() == cs[i as int]);
                        lemma_seq_size_drop_last(cs.take(i as int + 1));
                        lemma_seq_size_take_le(cs, i as int + 1);
                    }
                    return None;
                },
                Some(s) => {
                    proof {
                        assert(cs.take(i as int + 1).drop_last() =~= cs.take(i as int));
                        assert(cs.take(i as int + 1).last() == cs[i as int]);
                        lemma_seq_size_drop_last(cs.take(i as int + 1));
                    }
                    total = total + s;
                },
            }
            i = i + 1;
        }
        proof {
            assert(cs.take(n as int) =~= cs);
        }
        Some(total)
    }

    /// The preorder path to the first node whose value the predicate accepts.
    fn find_node_path<P: Fn(&T) -> bool>(&self, predicate: &P) -> (r: Option<Vec<usize>>)
        requires
            total_pred(*predicate),
        ensures
            match r {
                Some(path) => self@.find_path(pred_of(*predicate)) == Some(path_view(path@))
                    && self@.wf_path(path_view(path@)),
                None => self@.find_path(pred_of(*predicate)) is None,
            },
        decreases self@.size(),
    {
        let ghost pred = pred_of(*predicate);
        let b = predicate(&self.value);
        if b {
            let path: Vec<usize> = Vec::new();
            proof {
                assert(pred(self@.value));
                assert(path_view(path@) =~= Seq::<int>::empty());
            }
            return Some(path);
        }
        let ghost cs = self@.children;
        proof {
            lemma_trees_view_len(self.children@);
            assert(!pred(self@.value));
        }
        let n = self.children.len();
        let mut i: usize = 0;
        while i < n
            invariant
                total_pred(*predicate),
                pred == pred_of(*predicate),
                i <= n,
                n == self.children@.len(),
                cs == self@.children,
                cs.len() == n,
                !pred(self@.value),
                SpecTree::find_path_in(cs, 0, pred) == SpecTree::find_path_in(cs, i as int, pred),
            decreases n - i,
        {
            proof {
                lemma_trees_view_index(self.children@, i as int);
                lemma_seq_size_index(cs, i as int);
            }
            let found = self.children[i].find_node_path(predicate);
            match found {
                Some(mut sub) => {
                    let ghost sub0 = sub@;
                    sub.insert(0, i);
                    proof {
                        assert(path_view(sub@) =~= seq![i as int].add(path_view(sub0)));
                        assert(path_view(sub@).drop_first() =~= path_view(sub0));
                        assert(SpecTree::find_path_in(cs, i as int, pred) == Some(
                            path_view(sub@),
                        ));
                    }
                    return Some(sub);
                },
                None => {},
            }
            i = i + 1;
        }
        proof {
            assert(SpecTree::find_path_in(cs, n as int, pred) is None);
        }
        None
    }

    /// A mutable borrow of the node `path` leads to, starting at entry `pos`
    /// of the path.
    fn node_at_mut(&mut self, path: &Vec<usize>, pos: usize) -> (r: &mut Tree<T>)
        requires
            pos <= path@.len(),
            old(self)@.wf_path(path_view(path@).skip(pos as int)),
        ensures
            tree_view(*r) == old(self)@.node_at(path_view(path@).skip(pos as int)),
        decreases path@.len() - pos,
    {
        let ghost rest = path_view(path@).skip(pos as int);
        if pos == path.len() {
            proof {
                assert(rest =~= Seq::<int>::empty());
            }
            self
        } else {
            let i = path[pos];
            proof {
                assert(rest[0] == i as int);
                lemma_trees_view_len(self.children@);
                assert(rest.drop_first() =~= path_view(path@).skip(pos as int + 1));
                lemma_trees_view_index(self.children@, i as int);
            }
            self.children[i].node_at_mut(path, pos + 1)
        }
    }

    /// A mutable borrow of the first node, in preorder, whose value the
    /// predicate accepts.
    ///
    /// The borrow leads into this tree, so what the caller writes through it
    /// lands in the tree; the contract identifies the node handed out and
    /// says that a miss leaves the tree as it was.
    pub fn find_mut<P: Fn(&T) -> bool>(&mut self, predicate: &P) -> (r: Option<&mut Tree<T>>)
        requires
            total_pred(*predicate),
        ensures
            match r {
                None => final(self)@ == old(self)@ && old(self)@.find_path(pred_of(*predicate))
                    is None,
                Some(node) => old(self)@.find_path(pred_of(*predicate)) matches Some(path)
                    && old(self)@.wf_path(path) && tree_view(*node) == old(self)@.node_at(path),
            },
    {
        let found = self.find_node_path(predicate);
        match found {
            None => None,
            Some(path) => {
                proof {
                    assert(path_view(path@).skip(0) =~= path_view(path@));
                }
                Some(self.node_at_mut(&path, 0))
            },
        }
    }

    /// Appends `value` as a new leaf under the first node, in preorder, that
    /// the predicate accepts; hands `value` back when no node matches.
    fn insert_below_first<P: Fn(&T) -> bool>(&mut self, predicate: &P, value: T) -> (leftover:
        Option<T>)
        requires
            total_pred(*predicate),
        ensures
            match leftover {
                None => old(self)@.find_path(pred_of(*predicate)) matches Some(path)
                    && final(self)@ == old(self)@.append_child_at(path, value),
                Some(v) => v == value && final(self)@ == old(self)@ && old(self)@.find_path(
                    pred_of(*predicate),
                ) is None,
            },
        decreases self@.size(),
    {
        let ghost pred = pred_of(*predicate);
        let b = predicate(&self.value);
        if b {
            proof {
                assert(pred(self@.value));
                assert(old(self)@.find_path(pred) == Some(Seq::<int>::empty()));
            }
            self.add_child_value(value);
            return None;
        }
        let ghost cs0 = self@.children;
        proof {
            lemma_trees_view_len(self.children@);
            assert(!pred(self@.value));
        }
        let n = self.children.len();
        let mut leftover = value;
        let mut i: usize = 0;
        while i < n
            invariant
                total_pred(*predicate),
                pred == pred_of(*predicate),
                i <= n,
                self@ == old(self)@,
                n == self.children@.len(),
                cs0 == self@.children,
                cs0.len() == n,
                !pred(self@.value),
                leftover == value,
                SpecTree::find_path_in(cs0, 0, pred) == SpecTree::find_path_in(cs0, i as int, pred),
            decreases n - i,
        {
            let ghost prevc = self.children@;
            proof {
                lemma_trees_view_index(self.children@, i as int);
                lemma_seq_size_index(cs0, i as int);
            }
            let r = self.children[i].insert_below_first(predicate, leftover);
            match r {
                None => {
                    proof {
                        let sub = cs0[i as int].find_path(pred)->Some_0;
                        let whole = seq![i as int].add(sub);
                        assert(SpecTree::find_path_in(cs0, i as int, pred) == Some(whole));
                        assert(old(self)@.find_path(pred) == Some(whole));
                        lemma_trees_view_update(prevc, i as int, self.children@[i as int]);
                        assert(whole.drop_first() =~= sub);
                        assert(whole[0] == i as int);
                        assert(self@.children =~= old(self)@.append_child_at(whole, value).children);
                        assert(self@ == old(self)@.append_child_at(whole, value));
                    }
                    return None;
                },
                Some(v) => {
                    proof {
                        lemma_trees_view_update(prevc, i as int, self.children@[i as int]);
                        assert(self@.children =~= cs0);
                        assert(self@ == old(self)@);
                    }
                    leftover = v;
                },
            }
            i = i + 1;
        }
        proof {
            assert(SpecTree::find_path_in(cs0, n as int, pred) is None);
        }
        Some(leftover)
    }

    /// Appends `value` as a new leaf under the first node, in preorder, that
    /// the predicate accepts; an error when no node matches.
    pub fn insert_below<P: Fn(&T) -> bool>(&mut self, predicate: &P, value: T) -> (r: Result<
        (),
        Error,
    >)
        requires
            total_pred(*predicate),
        ensures
            match r {
                Ok(()) => old(self)@.find_path(pred_of(*predicate)) matches Some(path)
                    && final(self)@ == old(self)@.append_child_at(path, value),
                Err(e) => final(self)@ == old(self)@ && old(self)@.find_path(pred_of(*predicate))
                    is None && e.spec_kind() == ErrorKind::BackendError,
            },
    {
        let r = self.insert_below_first(predicate, value);
        match r {
            None => Ok(()),
            Some(_) => Err(Error::new("Couldn't find parent to insert below")),
        }
    }
}

/// The first index at or after `i` of a tree that holds a node accepted by
/// `pred`.
pub open spec fn forest_find_root<T>(ts: Seq<SpecTree<T>>, i: int, pred: spec_fn(T) -> bool) -> Option<
    int,
>
    recommends
        0 <= i <= ts.len(),
    decreases ts.len() - i,
{
    if i < 0 || i >= ts.len() {
        None
    } else if ts[i].find_path(pred) is Some {
        Some(i)
    } else {
        forest_find_root(ts, i + 1, pred)
    }
}

/// An ordered list of trees.
///
/// A value is inserted below the first matching node over all trees in
/// order; when no tree has one, the value starts a new root tree at the end.
pub struct Forest<T>(Vec<Tree<T>>);

impl<T> View for Forest<T> {
    type V = Seq<SpecTree<T>>;

    closed spec fn view(&self) -> Seq<SpecTree<T>> {
        trees_view(self.0@)
    }
}

impl<T> Forest<T> {
    pub fn new() -> (r: Self)
        ensures
            r@ == Seq::<SpecTree<T>>::empty(),
    {
        let r = Forest(Vec::new());
        proof {
            assert(r@ =~= Seq::<SpecTree<T>>::empty());
        }
        r
    }

    /// Appends `value` as a new leaf under the first node, over all trees in
    /// order, that the predicate accepts; when no node matches, `value`
    /// becomes a new root tree at the end.
    pub fn insert_below<P: Fn(&T) -> bool>(&mut self, predicate: &P, value: T)
        requires
            total_pred(*predicate),
        ensures
            match forest_find_root(old(self)@, 0, pred_of(*predicate)) {
                Some(k) => old(self)@[k].find_path(pred_of(*predicate)) matches Some(path)
                    && final(self)@ == old(self)@.update(
                    k,
                    old(self)@[k].append_child_at(path, value),
                ),
                None => final(self)@ == old(self)@.push(SpecTree::leaf(value)),
            },
    {
        let ghost pred = pred_of(*predicate);
        let ghost ts0 = self@;
        proof {
            lemma_trees_view_len(self.0@);
        }
        let n = self.0.len();
        let mut leftover = value;
        let mut i: usize = 0;
        while i < n
            invariant
                total_pred(*predicate),
                pred == pred_of(*predicate),
                i <= n,
                self@ == old(self)@,
                n == self.0@.len(),
                ts0 == self@,
                ts0.len() == n,
                leftover == value,
                forest_find_root(ts0, 0, pred) == forest_find_root(ts0, i as int, pred),
            decreases n - i,
        {
            let ghost prevc = self.0@;
            proof {
                lemma_trees_view_index(self.0@, i as int);
            }
            let r = self.0[i].insert_below_first(predicate, leftover);
            match r {
                None => {
                    proof {
                        assert(forest_find_root(ts0, i as int, pred) == Some(i as int));
                        lemma_trees_view_update(prevc, i as int, self.0@[i as int]);
                        assert(self@ =~= old(self)@.update(
                            i as int,
                            ts0[i as int].append_child_at(
                                ts0[i as int].find_path(pred)->Some_0,
                                value,
                            ),
                        ));
                    }
                    return ;
                },
                Some(v) => {
                    proof {
                        lemma_trees_view_update(prevc, i as int, self.0@[i as int]);
                        assert(self@ =~= ts0);
                    }
                    leftover = v;
                },
            }
            i = i + 1;
        }
        proof {
            assert(forest_find_root(ts0, n as int, pred) is None);
        }
        let ghost prevc = self.0@;
        self.0.push(Tree::new(leftover));
        proof {
            lemma_trees_view_len(prevc);
            lemma_trees_view_len(self.0@);
            assert forall|j: int| 0 <= j < self.0@.len() implies trees_view(self.0@)[j]
                == trees_view(prevc).push(SpecTree::leaf(value))[j] by {
                lemma_trees_view_index(self.0@, j);
                if j < prevc.len() {
                    lemma_trees_view_index(prevc, j);
                }
            }
            assert(self@ =~= old(self)@.push(SpecTree::leaf(value)));
        }
    }

    pub fn trees(&self) -> (r: &Vec<Tree<T>>)
        ensures
            trees_view(r@) == self@,
            r@.len() == self@.len(),
    {
        proof {
            lemma_trees_view_len(self.0@);
        }
        &self.0
    }

    pub fn into_trees(self) -> (r: Vec<Tree<T>>)
        ensures
            trees_view(r@) == self@,
            r@.len() == self@.len(),
    {
        proof {
            lemma_trees_view_len(self.0@);
        }
        self.0
    }
}

/// The order in which an iterator hands out the values of a tree: the node
/// itself first, then the subtrees of its children, last child first.
pub open spec fn rev_preorder<T>(t: SpecTree<T>) -> Seq<T>
    decreases t,
{
    seq![t.value].add(seq_rev_preorder(t.children))
}

/// `rev_preorder` over a sequence of trees, last tree first.
pub open spec fn seq_rev_preorder<T>(ts: Seq<SpecTree<T>>) -> Seq<T>
    decreases ts,
{
    if ts.len() == 0 {
        Seq::empty()
    } else {
        rev_preorder(ts.last()).add(seq_rev_preorder(ts.drop_last()))
    }
}

/// A consuming iterator over a tree, handing the values out in
/// `rev_preorder` order.
pub struct TreeIterator<T> {
    value: Option<T>,
    children: Vec<TreeIterator<T>>,
}

/// The values an iterator has still to hand out, in order.
pub open spec fn iter_remaining<T>(it: TreeIterator<T>) -> Seq<T>
    decreases it,
{
    (match it.spec_value() {
        Some(v) => seq![v],
        None => Seq::empty(),
    }).add(iters_remaining(it.spec_children()))
}

/// `iter_remaining` over a stack of iterators, topmost (last) first.
pub open spec fn iters_remaining<T>(its: Seq<TreeIterator<T>>) -> Seq<T>
    decreases its,
{
    if its.len() == 0 {
        Seq::empty()
    } else {
        iter_remaining(its.last()).add(iters_remaining(its.drop_last()))
    }
}

/// The number of nodes of an iterator, spent or not; only for termination.
pub open spec fn iter_size<T>(it: TreeIterator<T>) -> nat
    decreases it,
{
    1 + iters_size(it.spec_children())
}

/// Total `iter_size` of a stack of iterators.
pub open spec fn iters_size<T>(its: Seq<TreeIterator<T>>) -> nat
    decreases its,
{
    if its.len() == 0 {
        0
    } else {
        iter_size(its.last()) + iters_size(its.drop_last())
    }
}

impl<T> TreeIterator<T> {
    pub closed spec fn spec_value(&self) -> Option<T> {
        self.value
    }

    pub closed spec fn spec_children(&self) -> Seq<TreeIterator<T>> {
        self.children@
    }

    /// The next value of the tree, or `None` when all are spent.
    pub fn next(&mut self) -> (r: Option<T>)
        ensures
            match r {
                Some(v) => iter_remaining(*old(self)).len() > 0 && v == iter_remaining(
                    *old(self),
                )[0] && iter_remaining(*final(self)) == iter_remaining(*old(self)).drop_first(),
                None => iter_remaining(*old(self)).len() == 0 && iter_remaining(*final(self)).len()
                    == 0,
            },
        decreases iter_size(*self),
    {
        let taken = self.value.take();
        match taken {
            Some(v) => {
                proof {
                    assert(iter_remaining(*final(self)) =~= iter_remaining(
                        *old(self),
                    ).drop_first());
                }
                Some(v)
            },
            None => {
                let k = self.children.len();
                if k == 0 {
                    proof {
                        assert(iter_remaining(*old(self)).len() == 0);
                    }
                    None
                } else {
                    let ghost prevc = self.children@;
                    let r = self.children[k - 1].next();
                    match r {
                        Some(v) => {
                            proof {
                                assert(self.children@ == prevc.update(k - 1, self.children@[k - 1 as int]));
                                assert(self.children@.drop_last() =~= prevc.drop_last());
                                assert(self.children@.last() == self.children@[k - 1 as int]);
                                assert(iter_remaining(*final(self)) =~= iter_remaining(
                                    *old(self),
                                ).drop_first());
                            }
                            Some(v)
                        },
                        None => {
                            self.children.pop();
                            proof {
                                assert(self.children@ =~= prevc.drop_last());
                                assert(iters_remaining(prevc) =~= iters_remaining(
                                    prevc.drop_last(),
                                ));
                                assert(iter_size(*self) < iter_size(*old(self)));
                            }
                            self.next()
                        },
                    }
                }
            },
        }
    }
}

impl<T> Tree<T> {
    /// A consuming iterator over this tree; see `rev_preorder` for the
    /// order.
    pub fn into_iter(self) -> (r: TreeIterator<T>)
        ensures
            iter_remaining(r) == rev_preorder(tree_view(self)),
        decreases tree_view(self).size(),
    {
        let Tree { value, children } = self;
        let ghost cs = children@;
        proof {
            lemma_trees_view_len(cs);
        }
        let mut children = children;
        let mut its: Vec<TreeIterator<T>> = Vec::new();
        let n = children.len();
        let mut i: usize = 0;
        proof {
            assert(tree_view(self).children == trees_view(cs));
        }
        while i < n
            invariant
                i <= n,
                n == cs.len(),
                children@ == cs.skip(i as int),
                its@.len() == i,
                tree_view(self).children == trees_view(cs),
                tree_view(self).size() == 1 + SpecTree::seq_size(trees_view(cs)),
                forall|j: int|
                    0 <= j < i ==> iter_remaining(#[trigger] its@[j]) == rev_preorder(
                        trees_view(cs)[j],
                    ),
            decreases n - i,
        {
            proof {
                lemma_trees_view_index(cs, i as int);
                lemma_seq_size_index(trees_view(cs), i as int);
                assert(cs.skip(i as int)[0] == cs[i as int]);
                assert(cs.skip(i as int).drop_first() =~= cs.skip(i as int + 1));
                assert(tree_view(cs[i as int]).size() < tree_view(self).size());
            }
            let child = children.remove(0);
            its.push(child.into_iter());
            i = i + 1;
        }
        let r = TreeIterator { value: Some(value), children: its };
        proof {
            lemma_iters_pointwise(its@, trees_view(cs));
            assert(iter_remaining(r) =~= rev_preorder(tree_view(self)));
        }
        r
    }
}

/// When two stacks line up pointwise, their remaining values line up too.
proof fn lemma_iters_pointwise<T>(its: Seq<TreeIterator<T>>, ts: Seq<SpecTree<T>>)
    requires
        its.len() == ts.len(),
        forall|j: int| 0 <= j < its.len() ==> iter_remaining(#[trigger] its[j]) == rev_preorder(ts[j]),
    ensures
        iters_remaining(its) == seq_rev_preorder(ts),
    decreases its.len(),
{
    if its.len() > 0 {
        lemma_iters_pointwise(its.drop_last(), ts.drop_last());
    }
}

/// A consuming iterator over a forest, handing out each tree's values in
/// `rev_preorder` order, last tree first.
pub struct ForestIterator<T> {
    data: Vec<TreeIterator<T>>,
}

impl<T> ForestIterator<T> {
    pub closed spec fn spec_data(&self) -> Seq<TreeIterator<T>> {
        self.data@
    }

    /// The next value of the forest, or `None` when all are spent.
    pub fn next(&mut self) -> (r: Option<T>)
        ensures
            match r {
                Some(v) => iters_remaining(old(self).spec_data()).len() > 0 && v
                    == iters_remaining(old(self).spec_data())[0] && iters_remaining(
                    final(self).spec_data(),
                ) == iters_remaining(old(self).spec_data()).drop_first(),
                None => iters_remaining(old(self).spec_data()).len() == 0 && iters_remaining(
                    final(self).spec_data(),
                ).len() == 0,
            },
        decreases iters_size(self.spec_data()),
    {
        let k = self.data.len();
        if k == 0 {
            None
        } else {
            let ghost prevc = self.data@;
            let r = self.data[k - 1].next();
            match r {
                Some(v) => {
                    proof {
                        assert(self.data@.drop_last() =~= prevc.drop_last());
                        assert(self.data@.last() == self.data@[k - 1 as int]);
                        assert(iters_remaining(final(self).spec_data()) =~= iters_remaining(
                            old(self).spec_data(),
                        ).drop_first());
                    }
                    Some(v)
                },
                None => {
                    self.data.pop();
                    proof {
                        assert(self.data@ =~= prevc.drop_last());
                        assert(iters_remaining(prevc) =~= iters_remaining(prevc.drop_last()));
                        assert(iters_size(prevc) == iter_size(prevc.last()) + iters_size(
                            prevc.drop_last(),
                        ));
                        assert(iter_size(prevc.last()) >= 1);
                        assert(iters_size(self.data@) < iters_size(prevc));
                    }
                    self.next()
                },
            }
        }
    }
}

impl<T> Forest<T> {
    /// A consuming iterator over this forest.
    pub fn into_iter(self) -> (r: ForestIterator<T>)
        ensures
            iters_remaining(r.spec_data()) == seq_rev_preorder(self@),
    {
        let trees = self.into_trees();
        let ghost cs = trees@;
        proof {
            lemma_trees_view_len(cs);
        }
        let mut trees = trees;
        let mut its: Vec<TreeIterator<T>> = Vec::new();
        let n = trees.len();
        let mut i: usize = 0;
        while i < n
            invariant
                i <= n,
                n == cs.len(),
                trees@ == cs.skip(i as int),
                its@.len() == i,
                forall|j: int|
                    0 <= j < i ==> iter_remaining(#[trigger] its@[j]) == rev_preorder(
                        trees_view(cs)[j],
                    ),
            decreases n - i,
        {
            proof {
                lemma_trees_view_index(cs, i as int);
                assert(cs.skip(i as int)[0] == cs[i as int]);
                assert(cs.skip(i as int).drop_first() =~= cs.skip(i as int + 1));
            }
            let tree = trees.remove(0);
            its.push(tree.into_iter());
            i = i + 1;
        }
        let r = ForestIterator { data: its };
        proof {
            lemma_iters_pointwise(its@, trees_view(cs));
        }
        r
    }
}

} // verus!
