use vstd::prelude::*;

verus! {

/// One node of the tree, with its subtree height cached in `depth`.
struct Node {
    k: i32,
    l: Option<Box<Node>>,
    r: Option<Box<Node>>,
    depth: u32,
}

/// A binary search tree of 32-bit keys that rebalances by depth: every
/// insertion applies at most one rotation where one side is more than one
/// level deeper than the other.
pub struct Tree {
    root: Option<Box<Node>>,
}

/// The larger of two heights.
spec fn max2(a: nat, b: nat) -> nat {
    if a >= b {
        a
    } else {
        b
    }
}

/// The keys stored under a subtree.
spec fn sub_keys(n: Option<Box<Node>>) -> Set<i32>
    decreases n,
{
    match n {
        None => Set::empty(),
        Some(b) => sub_keys(b.l).union(sub_keys(b.r)).insert(b.k),
    }
}

/// Number of nodes of a subtree.
spec fn size(n: Option<Box<Node>>) -> nat
    decreases n,
{
    match n {
        None => 0,
        Some(b) => 1 + size(b.l) + size(b.r),
    }
}

/// The height of a subtree.
spec fn spec_depth(n: Option<Box<Node>>) -> nat
    decreases n,
{
    match n {
        None => 0,
        Some(b) => 1 + max2(spec_depth(b.l), spec_depth(b.r)),
    }
}

/// The in-order key sequence of a subtree.
spec fn inorder(n: Option<Box<Node>>) -> Seq<i32>
    decreases n,
{
    match n {
        None => Seq::empty(),
        Some(b) => inorder(b.l) + seq![b.k] + inorder(b.r),
    }
}

/// Well-formed: the search ordering holds at every node and every cached
/// depth is the height of its subtree.
spec fn wf_node(n: Option<Box<Node>>) -> bool
    decreases n,
{
    match n {
        None => true,
        Some(b) => {
            &&& wf_node(b.l)
            &&& wf_node(b.r)
            &&& (forall|x: i32| sub_keys(b.l).contains(x) ==> x < b.k)
            &&& (forall|x: i32| sub_keys(b.r).contains(x) ==> x > b.k)
            &&& b.depth == spec_depth(n)
        },
    }
}

/// A subtree is never deeper than its node count.
proof fn lemma_depth_le_size(n: Option<Box<Node>>)
    ensures
        spec_depth(n) <= size(n),
    decreases n,
{
    match n {
        None => {},
        Some(b) => {
            lemma_depth_le_size(b.l);
            lemma_depth_le_size(b.r);
        },
    }
}

/// Make a leaf node holding `k`.
fn new_node(k: i32) -> (r: Box<Node>)
    ensures
        wf_node(Some(r)),
        sub_keys(Some(r)) == Set::empty().insert(k),
        size(Some(r)) == 1,
        spec_depth(Some(r)) == 1,
{
    let r = Box::new(Node { k, l: None, r: None, depth: 1 });
    proof {
        reveal_with_fuel(sub_keys, 2);
        reveal_with_fuel(spec_depth, 2);
        reveal_with_fuel(size, 2);
        reveal_with_fuel(wf_node, 2);
        assert(sub_keys(Some(r)) =~= Set::empty().insert(k));
    }
    r
}

/// The height of a subtree, read from the root's cached depth.
fn depth_(n: &Option<Box<Node>>) -> (r: u32)
    requires
        wf_node(*n),
    ensures
        r == spec_depth(*n),
{
    match n {
        None => 0,
        Some(nr) => nr.depth,
    }
}

/// Recompute a node's cached depth from its children's.
fn update_depth(n: &mut Node)
    requires
        wf_node(old(n).l),
        wf_node(old(n).r),
        spec_depth(old(n).l) < u32::MAX,
        spec_depth(old(n).r) < u32::MAX,
    ensures
        final(n).k == old(n).k,
        final(n).l == old(n).l,
        final(n).r == old(n).r,
        final(n).depth == 1 + max2(spec_depth(old(n).l), spec_depth(old(n).r)),
{
    let dl = depth_(&n.l);
    let dr = depth_(&n.r);
    n.depth = (if dl >= dr {
        dl
    } else {
        dr
    }) + 1;
}

/// Rebalance a node whose children are well formed and correctly ordered
/// around its key: where one side is more than one level deeper, rotate it
/// to the top. The stored keys are exactly preserved and the height does not
/// grow past one above the deeper child.
fn rebalance(n: Box<Node>) -> (r: Box<Node>)
    requires
        wf_node(n.l),
        wf_node(n.r),
        forall|x: i32| sub_keys(n.l).contains(x) ==> x < n.k,
        forall|x: i32| sub_keys(n.r).contains(x) ==> x > n.k,
        spec_depth(n.l) < u32::MAX - 1,
        spec_depth(n.r) < u32::MAX - 1,
    ensures
        wf_node(Some(r)),
        sub_keys(Some(r)) == sub_keys(n.l).union(sub_keys(n.r)).insert(n.k),
        size(Some(r)) == 1 + size(n.l) + size(n.r),
        spec_depth(Some(r)) <= 1 + max2(spec_depth(n.l), spec_depth(n.r)),
{
    let mut nn: Node = *n;
    let dl = depth_(&nn.l);
    let dr = depth_(&nn.r);
    if dl + 1 < dr {
        // the right side is too deep: rotate it to the root,
        // with this node as its left child
        let mut rr: Node = match nn.r.take() {
            Some(b) => *b,
            None => vstd::pervasive::unreached(),
        };
        let ghost r0 = rr;
        proof {
            assert(wf_node(r0.l) && wf_node(r0.r));
            assert(sub_keys(n.r) == sub_keys(r0.l).union(sub_keys(r0.r)).insert(r0.k));
            assert(spec_depth(n.r) == 1 + max2(spec_depth(r0.l), spec_depth(r0.r)));
            assert(sub_keys(n.r).contains(r0.k));
        }
        nn.r = rr.l.take();
        update_depth(&mut nn);
        proof {
            // the rotated-down node keeps the search ordering
            assert forall|x: i32| sub_keys(nn.r).contains(x) implies x > nn.k by {
                assert(sub_keys(n.r).contains(x));
            }
            assert(nn.depth == spec_depth(Some(Box::new(nn))));
        }
        rr.l = Some(Box::new(nn));
        update_depth(&mut rr);
        let out = Box::new(rr);
        proof {
            assert(sub_keys(rr.l) == sub_keys(n.l).union(sub_keys(r0.l)).insert(n.k));
            // everything under the new left child sits below the new root key
            assert forall|x: i32| sub_keys(out.l).contains(x) implies x < out.k by {
                if sub_keys(n.l).contains(x) {
                    assert(x < n.k);
                }
                if sub_keys(r0.l).contains(x) {
                    assert(x < r0.k);
                }
                assert(n.k < r0.k);
            }
            assert(out.depth == spec_depth(Some(out)));
            assert(wf_node(out.l));
            assert(size(out.l) == 1 + size(n.l) + size(r0.l));
            assert(size(Some(out)) == 1 + size(out.l) + size(out.r));
            assert(size(n.r) == 1 + size(r0.l) + size(r0.r));
            assert(sub_keys(Some(out)) =~= sub_keys(n.l).union(sub_keys(n.r)).insert(n.k));
        }
        out
    } else if dl > dr + 1 {
        // the left side is too deep: rotate it to the root,
        // with this node as its right child
        let mut ll: Node = match nn.l.take() {
            Some(b) => *b,
            None => vstd::pervasive::unreached(),
        };
        let ghost l0 = ll;
        proof {
            assert(wf_node(l0.l) && wf_node(l0.r));
            assert(sub_keys(n.l) == sub_keys(l0.l).union(sub_keys(l0.r)).insert(l0.k));
            assert(spec_depth(n.l) == 1 + max2(spec_depth(l0.l), spec_depth(l0.r)));
            assert(sub_keys(n.l).contains(l0.k));
        }
        nn.l = ll.r.take();
        update_depth(&mut nn);
        proof {
            assert forall|x: i32| sub_keys(nn.l).contains(x) implies x < nn.k by {
                assert(sub_keys(n.l).contains(x));
            }
            assert(nn.depth == spec_depth(Some(Box::new(nn))));
        }
        ll.r = Some(Box::new(nn));
        update_depth(&mut ll);
        let out = Box::new(ll);
        proof {
            assert(sub_keys(ll.r) == sub_keys(l0.r).union(sub_keys(n.r)).insert(n.k));
            // everything under the new right child sits above the new root key
            assert forall|x: i32| sub_keys(out.r).contains(x) implies x > out.k by {
                if sub_keys(n.r).contains(x) {
                    assert(x > n.k);
                }
                if sub_keys(l0.r).contains(x) {
                    assert(x > l0.k);
                }
                assert(l0.k < n.k);
            }
            assert(out.depth == spec_depth(Some(out)));
            assert(wf_node(out.r));
            assert(size(out.r) == 1 + size(l0.r) + size(n.r));
            assert(size(Some(out)) == 1 + size(out.l) + size(out.r));
            assert(size(n.l) == 1 + size(l0.l) + size(l0.r));
            assert(sub_keys(Some(out)) =~= sub_keys(n.l).union(sub_keys(n.r)).insert(n.k));
        }
        out
    } else {
        update_depth(&mut nn);
        let out = Box::new(nn);
        proof {
            assert(size(Some(out)) == 1 + size(out.l) + size(out.r));
            assert(sub_keys(Some(out)) =~= sub_keys(n.l).union(sub_keys(n.r)).insert(n.k));
            assert(wf_node(Some(out)));
        }
        out
    }
}

/// Insert `k` under `n`, rebalancing on the way back up. The stored keys
/// gain exactly `k`; a key already present is left alone.
fn add_rec_(n: Option<Box<Node>>, k: i32) -> (r: Box<Node>)
    requires
        wf_node(n),
        size(n) < u32::MAX - 2,
    ensures
        wf_node(Some(r)),
        sub_keys(Some(r)) == sub_keys(n).insert(k),
        size(Some(r)) <= size(n) + 1,
    decreases n,
{
    match n {
        Some(nb) => {
            let mut nd: Node = *nb;
            if nd.k == k {
                let out = Box::new(nd);
                proof {
                    assert(sub_keys(Some(out)) =~= sub_keys(n).insert(k));
                }
                out
            } else if k < nd.k {
                let l2 = add_rec_(nd.l.take(), k);
                proof {
                    lemma_depth_le_size(Some(l2));
                    lemma_depth_le_size(nd.r);
                }
                nd.l = Some(l2);
                let out = rebalance(Box::new(nd));
                proof {
                    assert(sub_keys(Some(out)) =~= sub_keys(n).insert(k));
                }
                out
            } else {
                let r2 = add_rec_(nd.r.take(), k);
                proof {
                    lemma_depth_le_size(Some(r2));
                    lemma_depth_le_size(nd.l);
                }
                nd.r = Some(r2);
                let out = rebalance(Box::new(nd));
                proof {
                    assert(sub_keys(Some(out)) =~= sub_keys(n).insert(k));
                }
                out
            }
        },
        None => {
            let out = new_node(k);
            proof {
                assert(sub_keys(Some(out)) =~= sub_keys(n).insert(k));
            }
            out
        },
    }
}

/// Append the in-order key sequence of a subtree to `res`.
fn traverse_rec_(n: &Option<Box<Node>>, res: &mut Vec<i32>)
    requires
        old(res)@.len() + size(*n) <= usize::MAX,
    ensures
        final(res)@ == old(res)@ + inorder(*n),
    decreases *n,
{
    match n {
        None => {
            proof {
                assert(final(res)@ =~= old(res)@ + inorder(*n));
            }
        },
        Some(b) => {
            proof {
                lemma_inorder_len(b.l);
                lemma_inorder_len(b.r);
            }
            traverse_rec_(&b.l, res);
            res.push(b.k);
            traverse_rec_(&b.r, res);
            proof {
                assert(final(res)@ =~= old(res)@ + inorder(*n));
            }
        },
    }
}

/// A subtree's in-order sequence has one entry per node.
proof fn lemma_inorder_len(n: Option<Box<Node>>)
    ensures
        inorder(n).len() == size(n),
    decreases n,
{
    match n {
        None => {},
        Some(b) => {
            lemma_inorder_len(b.l);
            lemma_inorder_len(b.r);
        },
    }
}

/// In a well-formed subtree the in-order sequence is strictly increasing and
/// lists exactly the stored keys.
proof fn lemma_inorder_sorted(n: Option<Box<Node>>)
    requires
        wf_node(n),
    ensures
        inorder(n).to_set() == sub_keys(n),
        forall|i: int, j: int|
            0 <= i < j < inorder(n).len() ==> inorder(n)[i] < inorder(n)[j],
    decreases n,
{
    match n {
        None => {
            assert(inorder(n).to_set() =~= sub_keys(n));
        },
        Some(b) => {
            lemma_inorder_sorted(b.l);
            lemma_inorder_sorted(b.r);
            let a = inorder(b.l);
            let c = inorder(b.r);
            let s = inorder(n);
            assert(s == a + seq![b.k] + c);
            assert forall|i: int, j: int| 0 <= i < j < s.len() implies s[i] < s[j] by {
                if j < a.len() {
                } else if i < a.len() && j == a.len() {
                    assert(a.to_set().contains(a[i]));
                } else if i < a.len() && j > a.len() {
                    assert(a.to_set().contains(a[i]));
                    assert(c.to_set().contains(c[j - a.len() - 1]));
                } else if i == a.len() {
                    assert(c.to_set().contains(c[j - a.len() - 1]));
                } else {
                    assert(s[i] == c[i - a.len() - 1]);
                    assert(s[j] == c[j - a.len() - 1]);
                }
            }
            assert forall|x: i32| s.to_set().contains(x) implies sub_keys(n).contains(x) by {
                let i = choose|i: int| 0 <= i < s.len() && s[i] == x;
                if i < a.len() {
                    assert(a.to_set().contains(x));
                } else if i > a.len() {
                    assert(c.to_set().contains(c[i - a.len() - 1]));
                }
            }
            assert forall|x: i32| sub_keys(n).contains(x) implies s.to_set().contains(x) by {
                if sub_keys(b.l).contains(x) {
                    assert(a.to_set().contains(x));
                    let i = choose|i: int| 0 <= i < a.len() && a[i] == x;
                    assert(s[i] == x);
                } else if sub_keys(b.r).contains(x) {
                    assert(c.to_set().contains(x));
                    let i = choose|i: int| 0 <= i < c.len() && c[i] == x;
                    assert(s[a.len() + 1 + i] == x);
                } else {
                    assert(s[a.len() as int] == x);
                }
            }
            assert(s.to_set() =~= sub_keys(n));
        },
    }
}

impl Tree {
    /// The set of keys the tree stores.
    pub closed spec fn spec_keys(self) -> Set<i32> {
        sub_keys(self.root)
    }

    /// Number of nodes of the tree.
    pub closed spec fn num_nodes(self) -> nat {
        size(self.root)
    }

    /// The height of the tree.
    pub closed spec fn spec_height(self) -> nat {
        spec_depth(self.root)
    }

    /// The in-order key sequence of the tree.
    pub closed spec fn spec_inorder(self) -> Seq<i32> {
        inorder(self.root)
    }

    /// The internal invariant: search ordering and cached depths hold
    /// everywhere.
    pub closed spec fn wf(self) -> bool {
        wf_node(self.root)
    }

    /// An empty tree.
    pub fn new() -> (t: Self)
        ensures
            t.wf(),
            t.spec_keys() == Set::<i32>::empty(),
            t.num_nodes() == 0,
    {
        Tree { root: None }
    }

    /// The keys of the tree, in ascending order without repeats.
    pub fn traverse(&self) -> (r: Vec<i32>)
        requires
            self.wf(),
            self.num_nodes() <= usize::MAX,
        ensures
            r@ == self.spec_inorder(),
            r@.to_set() == self.spec_keys(),
            forall|i: int, j: int| 0 <= i < j < r@.len() ==> r@[i] < r@[j],
    {
        let mut res: Vec<i32> = Vec::new();
        proof {
            lemma_inorder_len(self.root);
            lemma_inorder_sorted(self.root);
        }
        traverse_rec_(&self.root, &mut res);
        proof {
            assert(res@ =~= self.spec_inorder());
        }
        res
    }

    /// Add a key; a key already present is left alone.
    pub fn add(&mut self, k: i32)
        requires
            old(self).wf(),
            old(self).num_nodes() < u32::MAX - 2,
        ensures
            final(self).wf(),
            final(self).spec_keys() == old(self).spec_keys().insert(k),
            final(self).num_nodes() <= old(self).num_nodes() + 1,
    {
        let root = self.root.take();
        let n = add_rec_(root, k);
        self.root = Some(n);
    }

    /// The tree containing every key from 0 up to (excluding) `upto`.
    pub fn range(upto: i32) -> (t: Self)
        requires
            upto >= 0,
        ensures
            t.wf(),
            t.spec_keys() == Set::new(|x: i32| 0 <= x < upto),
            t.num_nodes() <= upto,
    {
        let mut tree = Tree::new();
        let mut i: i32 = upto;
        proof {
            assert(tree.spec_keys() =~= Set::new(|x: i32| i <= x < upto));
        }
        while i > 0
            invariant
                0 <= i <= upto,
                tree.wf(),
                tree.spec_keys() == Set::new(|x: i32| i <= x < upto),
                tree.num_nodes() <= upto - i,
            decreases i,
    {
            i = i - 1;
            tree.add(i);
            proof {
                assert(tree.spec_keys() =~= Set::new(|x: i32| i <= x < upto));
            }
        }
        tree
    }

    /// The height of the tree.
    pub fn depth(&self) -> (r: u32)
        requires
            self.wf(),
        ensures
            r == self.spec_height(),
    {
        depth_(&self.root)
    }
}

/// Whether a slice of keys is in non-decreasing order.
pub fn sorted(r: &[i32]) -> (b: bool)
    ensures
        b <==> (forall|i: int| 0 < i < r@.len() ==> #[trigger] r@[i - 1] <= r@[i]),
{
    if r.len() <= 1 {
        return true;
    }
    let mut i: usize = 1;
    while i < r.len()
        invariant
            1 <= i <= r@.len(),
            forall|j: int| 0 < j < i ==> #[trigger] r@[j - 1] <= r@[j],
        decreases r@.len() - i,
    {
        if r[i] < r[i - 1] {
            return false;
        }
        i = i + 1;
    }
    true
}

} // verus!
