//! A rope: a binary tree whose leaves hold views of shared text and whose
//! inner nodes record how many grapheme clusters lie to their left.

use crate::graphemes::segments;
use crate::rc_substr::RcSubstr;
use std::rc::Rc;
use vstd::prelude::*;
use vstd::seq_lib::lemma_flatten_concat;
use vstd::string::*;

verus! {

/// The most grapheme clusters that leaves are merged into.
pub const LEAF_LEN: usize = 3;

/// A node of a rope. A leaf holds a view of shared text; an inner node
/// holds up to two children. A node with neither is an empty rope.
#[derive(Debug)]
pub struct Node {
    weight: usize,
    length: usize,
    depth: usize,
    str_content: Option<RcSubstr>,
    left: Option<Box<Node>>,
    right: Option<Box<Node>>,
}

/// The Fibonacci sequence 0, 1, 1, 2, 3, 5, 8, ...
pub open spec fn fibonacci(n: nat) -> nat
    decreases n,
{
    if n == 0 {
        0
    } else if n == 1 {
        1
    } else {
        fibonacci((n - 1) as nat) + fibonacci((n - 2) as nat)
    }
}

/// The Fibonacci sequence never decreases.
pub proof fn lemma_fibonacci_monotonic(i: nat, j: nat)
    requires
        i <= j,
    ensures
        fibonacci(i) <= fibonacci(j),
    decreases j,
{
    if i < j {
        lemma_fibonacci_monotonic(i, (j - 1) as nat);
    }
}

/// The grapheme clusters below an optional child: none where it is absent.
pub open spec fn child_graphemes(child: Option<Box<Node>>) -> Seq<Seq<char>> {
    match child {
        Some(node) => node@,
        None => Seq::empty(),
    }
}

/// The length recorded in an optional child: 0 where it is absent.
pub open spec fn child_length(child: Option<Box<Node>>) -> nat {
    match child {
        Some(node) => node.spec_length(),
        None => 0,
    }
}

/// The depth recorded in an optional child: 0 where it is absent.
pub open spec fn child_depth(child: Option<Box<Node>>) -> nat {
    match child {
        Some(node) => node.spec_depth(),
        None => 0,
    }
}

/// The depth of a node with the given children: one more than the
/// deeper child, as far as a `usize` can hold it, and 0 without children.
pub open spec fn parent_depth(left: Option<Box<Node>>, right: Option<Box<Node>>) -> nat {
    if left is None && right is None {
        0
    } else {
        let deeper = if child_depth(left) >= child_depth(right) {
            child_depth(left)
        } else {
            child_depth(right)
        };
        if deeper < usize::MAX {
            deeper + 1
        } else {
            deeper
        }
    }
}

/// The grapheme clusters held by a list of nodes, in order.
pub open spec fn nodes_graphemes(nodes: Seq<Box<Node>>) -> Seq<Seq<char>>
    decreases nodes.len(),
{
    if nodes.len() == 0 {
        Seq::empty()
    } else {
        nodes_graphemes(nodes.drop_last()) + nodes.last()@
    }
}

/// Every node of the list is well formed.
pub open spec fn nodes_well_formed(nodes: Seq<Box<Node>>) -> bool {
    forall|i: int| 0 <= i < nodes.len() ==> (#[trigger] nodes[i]).well_formed()
}

impl View for Node {
    type V = Seq<Seq<char>>;

    /// The grapheme clusters of the rope, in order, each as its
    /// characters.
    closed spec fn view(&self) -> Seq<Seq<char>> {
        self.graphemes()
    }
}

impl Node {
    /// The grapheme clusters of the rope, in order.
    pub closed spec fn graphemes(&self) -> Seq<Seq<char>>
        decreases self,
    {
        match self.str_content {
            Some(content) => content@,
            None => (match self.left {
                Some(node) => node.graphemes(),
                None => Seq::empty(),
            }) + (match self.right {
                Some(node) => node.graphemes(),
                None => Seq::empty(),
            }),
        }
    }

    /// The text of the rope: its grapheme clusters laid end to end.
    pub open spec fn text(&self) -> Seq<char> {
        self@.flatten()
    }

    /// Whether the node is a leaf.
    pub closed spec fn is_leaf(&self) -> bool {
        self.str_content is Some
    }

    /// The weight recorded in the node.
    pub closed spec fn spec_weight(&self) -> nat {
        self.weight as nat
    }

    /// The length recorded in the node.
    pub closed spec fn spec_length(&self) -> nat {
        self.length as nat
    }

    /// The depth recorded in the node.
    pub closed spec fn spec_depth(&self) -> nat {
        self.depth as nat
    }

    /// The left child.
    pub closed spec fn spec_left(&self) -> Option<Box<Node>> {
        self.left
    }

    /// The right child.
    pub closed spec fn spec_right(&self) -> Option<Box<Node>> {
        self.right
    }

    /// The invariant of a rope. In every node the recorded length is the
    /// number of grapheme clusters below it. A leaf has no children,
    /// depth 0, and a weight equal to its length. In an inner node the
    /// weight is the length of the left child, the length is the sum of
    /// the children's lengths, and the depth is one more than the deeper
    /// child's.
    pub closed spec fn well_formed(&self) -> bool
        decreases self,
    {
        &&& self.length == self.graphemes().len()
        &&& match self.str_content {
            Some(content) => {
                &&& content.well_formed()
                &&& self.left is None
                &&& self.right is None
                &&& self.weight == self.length
                &&& self.depth == 0
            },
            None => {
                &&& (match self.left {
                    Some(node) => node.well_formed(),
                    None => true,
                })
                &&& (match self.right {
                    Some(node) => node.well_formed(),
                    None => true,
                })
                &&& self.weight == child_length(self.left)
                &&& self.length == self.weight + child_length(self.right)
                &&& self.depth == parent_depth(self.left, self.right)
            },
        }
    }

    /// The balance criterion at this node: its length is at least the
    /// Fibonacci number two places past its depth.
    pub open spec fn balanced(&self) -> bool {
        self.spec_length() >= fibonacci(self.spec_depth() + 2)
    }

    /// The balance criterion holds at this node and at every node below.
    pub closed spec fn all_balanced(&self) -> bool
        decreases self,
    {
        &&& self.balanced()
        &&& match self.left {
            Some(node) => node.all_balanced(),
            None => true,
        }
        &&& match self.right {
            Some(node) => node.all_balanced(),
            None => true,
        }
    }

    /// No leaf of the rope holds more than `bound` grapheme clusters.
    pub closed spec fn leaves_hold_at_most(&self, bound: nat) -> bool
        decreases self,
    {
        match self.str_content {
            Some(content) => content@.len() <= bound,
            None => {
                &&& match self.left {
                    Some(node) => node.leaves_hold_at_most(bound),
                    None => true,
                }
                &&& match self.right {
                    Some(node) => node.leaves_hold_at_most(bound),
                    None => true,
                }
            },
        }
    }

    /// A rope without text.
    pub fn empty() -> (node: Node)
        ensures
            node.well_formed(),
            node@ == Seq::<Seq<char>>::empty(),
            !node.is_leaf(),
            node.spec_left() is None,
            node.spec_right() is None,
            node.spec_depth() == 0,
    {
        Node { weight: 0, length: 0, depth: 0, str_content: None, left: None, right: None }
    }

    /// A leaf that holds `content`.
    pub fn new(content: RcSubstr) -> (node: Node)
        requires
            content.well_formed(),
        ensures
            node.well_formed(),
            node@ == content@,
            node.is_leaf(),
            node.spec_depth() == 0,
            forall|bound: nat|
                content@.len() <= bound ==> #[trigger] node.leaves_hold_at_most(bound),
    {
        let length: usize = content.len();
        Node {
            weight: length,
            length,
            depth: 0,
            str_content: Some(content),
            left: None,
            right: None,
        }
    }

    /// The right child, where there is one.
    pub fn right(&self) -> (child: Option<&Box<Node>>)
        ensures
            self.spec_right() matches Some(node) ==> child == Some(&node),
            self.spec_right() is None ==> child is None,
    {
        self.right.as_ref()
    }

    /// The number of grapheme clusters in the rope.
    pub fn len(&self) -> (length: usize)
        requires
            self.well_formed(),
        ensures
            length == self@.len(),
    {
        self.length
    }

    /// The depth of the rope: 0 for a leaf or an empty rope.
    pub fn depth(&self) -> (depth: usize)
        ensures
            depth == self.spec_depth(),
    {
        self.depth
    }

    /// Whether the node meets the balance criterion.
    pub fn is_balanced(&self) -> (balanced: bool)
        ensures
            balanced == self.balanced(),
    {
        if self.length < 1 {
            proof {
                reveal_with_fuel(fibonacci, 3);
                lemma_fibonacci_monotonic(2, (self.depth + 2) as nat);
            }
            return false;
        }
        let mut previous: usize = 1;
        let mut current: usize = 1;
        let mut step: usize = 0;
        proof {
            reveal_with_fuel(fibonacci, 3);
        }
        while step < self.depth
            invariant
                step <= self.depth,
                previous == fibonacci((step + 1) as nat),
                current == fibonacci((step + 2) as nat),
                current <= self.length,
            decreases self.depth - step,
        {
            if previous > self.length - current {
                proof {
                    lemma_fibonacci_monotonic((step + 3) as nat, (self.depth + 2) as nat);
                }
                return false;
            }
            let next: usize = previous + current;
            previous = current;
            current = next;
            step = step + 1;
        }
        true
    }

    /// Whether every node of the rope meets the balance criterion.
    pub fn is_all_balanced(&self) -> (balanced: bool)
        ensures
            balanced == self.all_balanced(),
        decreases self,
    {
        if !self.is_balanced() {
            return false;
        }
        let left_balanced: bool = match &self.left {
            Some(node) => node.is_all_balanced(),
            None => true,
        };
        if !left_balanced {
            return false;
        }
        match &self.right {
            Some(node) => node.is_all_balanced(),
            None => true,
        }
    }
}

/// What the invariant of a rope says of a node. Its children are well
/// formed, so that all of this holds of every node below it too. The
/// recorded length is the number of grapheme clusters. In an inner node
/// the clusters are those of the left child followed by those of the
/// right, the weight is the length of the left child, the length is the
/// sum of the lengths of the children, and the depth is one more than
/// the depth of the deeper child.
pub proof fn lemma_well_formed_parts(node: Node)
    requires
        node.well_formed(),
    ensures
        node.spec_length() == node@.len(),
        node.spec_left() matches Some(child) ==> child.well_formed(),
        node.spec_right() matches Some(child) ==> child.well_formed(),
        child_length(node.spec_left()) == child_graphemes(node.spec_left()).len(),
        child_length(node.spec_right()) == child_graphemes(node.spec_right()).len(),
        !node.is_leaf() ==> node@ == child_graphemes(node.spec_left()) + child_graphemes(
            node.spec_right(),
        ),
        !node.is_leaf() ==> node.spec_weight() == child_length(node.spec_left()),
        !node.is_leaf() ==> node.spec_length() == child_length(node.spec_left()) + child_length(
            node.spec_right(),
        ),
        !node.is_leaf() ==> node.spec_depth() == parent_depth(node.spec_left(), node.spec_right()),
        node.is_leaf() ==> node.spec_depth() == 0 && node.spec_weight() == node.spec_length()
            && node.spec_left() is None && node.spec_right() is None,
{
    reveal_with_fuel(Node::well_formed, 2);
}

/// The number of grapheme clusters in the rope, found by walking down
/// its right spine and adding up the weights.
pub fn find_length(node: &Node) -> (length: usize)
    requires
        node.well_formed(),
    ensures
        length == node@.len(),
    decreases node,
{
    let left_weight: usize = node.weight;
    proof {
        lemma_well_formed_parts(*node);
    }
    match &node.right {
        Some(right_child) => {
            let right_weight: usize = find_length(right_child);
            left_weight + right_weight
        },
        None => left_weight,
    }
}

/// Appends the text of the rope to `content`.
pub fn collect_string(node: &Node, content: &mut String)
    requires
        node.well_formed(),
    ensures
        final(content)@ == old(content)@ + node.text(),
    decreases node,
{
    proof {
        lemma_well_formed_parts(*node);
    }
    match &node.str_content {
        Some(current) => {
            content.append(current.as_str());
        },
        None => {
            if let Some(left_node) = &node.left {
                collect_string(left_node, content);
            }
            if let Some(right_node) = &node.right {
                collect_string(right_node, content);
            }
            proof {
                lemma_flatten_concat(
                    child_graphemes(node.left),
                    child_graphemes(node.right),
                );
                assert(child_graphemes(None).flatten() =~= Seq::<char>::empty());
            }
        },
    }
}

/// Grapheme cluster `at` of the rope, or nothing where the rope has no
/// such cluster.
pub fn index(node: &Node, at: usize) -> (grapheme: Option<&str>)
    requires
        node.well_formed(),
    ensures
        at < node@.len() ==> (grapheme matches Some(cluster) && cluster@ == node@[at as int]),
        at >= node@.len() ==> grapheme is None,
{
    if at >= node.length {
        return None;
    }
    let mut position: usize = at;
    let mut current_node: &Node = node;
    loop
        invariant
            at < node@.len(),
            current_node.well_formed(),
            position < current_node@.len(),
            current_node@[position as int] == node@[at as int],
        decreases current_node,
    {
        proof {
            lemma_well_formed_parts(*current_node);
        }
        match &current_node.str_content {
            Some(content) => {
                return Some(content.grapheme(position));
            },
            None => {
                if position < current_node.weight {
                    match &current_node.left {
                        Some(left) => {
                            current_node = left;
                        },
                        None => {
                            return None;
                        },
                    }
                } else {
                    match &current_node.right {
                        Some(right) => {
                            position = position - current_node.weight;
                            current_node = right;
                        },
                        None => {
                            return None;
                        },
                    }
                }
            },
        }
    }
}

/// Adding a node to a list adds its grapheme clusters at the end.
pub proof fn lemma_nodes_graphemes_push(nodes: Seq<Box<Node>>, node: Box<Node>)
    ensures
        nodes_graphemes(nodes.push(node)) == nodes_graphemes(nodes) + node@,
{
    assert(nodes.push(node).drop_last() =~= nodes);
}

/// The depth of a subtree that `build_rope` makes over `count` grapheme
/// clusters when a leaf holds up to `leaf_len` of them.
pub open spec fn build_depth(count: nat, leaf_len: nat) -> nat
    decreases count,
{
    if count <= leaf_len || count <= 1 {
        0
    } else {
        1 + build_depth(((count - 1) / 2 + 1) as nat, leaf_len)
    }
}

/// A larger count never gives a shallower tree.
pub proof fn lemma_build_depth_monotonic(smaller: nat, larger: nat, leaf_len: nat)
    requires
        smaller <= larger,
    ensures
        build_depth(smaller, leaf_len) <= build_depth(larger, leaf_len),
    decreases larger,
{
    if !(larger <= leaf_len || larger <= 1) && !(smaller <= leaf_len || smaller <= 1) {
        lemma_build_depth_monotonic(
            ((smaller - 1) / 2 + 1) as nat,
            ((larger - 1) / 2 + 1) as nat,
            leaf_len,
        );
    }
}

/// The depth of a built tree is below the count it was built over.
pub proof fn lemma_build_depth_bound(count: nat, leaf_len: nat)
    requires
        count >= 1,
    ensures
        build_depth(count, leaf_len) < count,
    decreases count,
{
    if !(count <= leaf_len || count <= 1) {
        lemma_build_depth_bound(((count - 1) / 2 + 1) as nat, leaf_len);
    }
}

/// A tree built by halving is balanced: the count it was built over is
/// at least the Fibonacci number two places past its depth.
pub proof fn lemma_build_depth_balanced(count: nat, leaf_len: nat)
    requires
        count >= 1,
        leaf_len >= 1,
    ensures
        count >= fibonacci(build_depth(count, leaf_len) + 2),
    decreases count,
{
    reveal_with_fuel(fibonacci, 4);
    if !(count <= leaf_len || count <= 1) {
        let half = ((count - 1) / 2 + 1) as nat;
        let below = build_depth(half, leaf_len);
        lemma_build_depth_balanced(half, leaf_len);
        if below >= 1 {
            lemma_fibonacci_monotonic(1, below);
            assert(fibonacci(below + 2) == fibonacci(below + 1) + fibonacci(below));
        }
        assert(fibonacci(below + 3) == fibonacci(below + 2) + fibonacci(below + 1));
    }
}

/// The depth to record in a node with the given children.
fn depth_over(left: &Option<Box<Node>>, right: &Option<Box<Node>>) -> (depth: usize)
    ensures
        depth == parent_depth(*left, *right),
{
    let left_depth: usize = match left {
        Some(node) => node.depth,
        None => 0,
    };
    let right_depth: usize = match right {
        Some(node) => node.depth,
        None => 0,
    };
    if left.is_none() && right.is_none() {
        0
    } else if left_depth >= right_depth {
        left_depth.saturating_add(1)
    } else {
        right_depth.saturating_add(1)
    }
}

/// An inner node over the given children, with its weight, length and
/// depth worked out from theirs. Nothing is merged or rebalanced.
pub fn assemble(left: Option<Box<Node>>, right: Option<Box<Node>>) -> (node: Node)
    requires
        left matches Some(child) ==> child.well_formed(),
        right matches Some(child) ==> child.well_formed(),
        child_graphemes(left).len() + child_graphemes(right).len() <= usize::MAX,
    ensures
        node.well_formed(),
        node@ == child_graphemes(left) + child_graphemes(right),
        !node.is_leaf(),
        node.spec_left() == left,
        node.spec_right() == right,
        node.spec_depth() == parent_depth(left, right),
        forall|bound: nat|
            (left matches Some(child) ==> child.leaves_hold_at_most(bound)) && (right matches Some(
                child,
            ) ==> child.leaves_hold_at_most(bound)) ==> #[trigger] node.leaves_hold_at_most(bound),
{
    proof {
        if left is Some {
            lemma_well_formed_parts(*left.unwrap());
        }
        if right is Some {
            lemma_well_formed_parts(*right.unwrap());
        }
    }
    let weight: usize = match &left {
        Some(child) => child.length,
        None => 0,
    };
    let right_length: usize = match &right {
        Some(child) => child.length,
        None => 0,
    };
    let depth: usize = depth_over(&left, &right);
    Node { weight, length: weight + right_length, depth, str_content: None, left, right }
}

/// Builds a rope over the grapheme clusters `starting..=ending` of
/// `content`, halving the range until a leaf can hold it. Returns the
/// rope and its depth. The leaves are views of `content`.
pub fn build_rope(content: &RcSubstr, starting: usize, ending: usize) -> (built: (Box<Node>, usize))
    requires
        content.well_formed(),
        starting <= ending < content@.len(),
    ensures
        built.0.well_formed(),
        built.0@ == content@.subrange(starting as int, ending + 1),
        built.1 == built.0.spec_depth(),
        built.1 == build_depth((ending - starting + 1) as nat, LEAF_LEN as nat),
        built.0.all_balanced(),
        built.0.leaves_hold_at_most(LEAF_LEN as nat),
    decreases ending - starting,
{
    let ghost count = (ending - starting + 1) as nat;
    proof {
        content.lemma_view();
        lemma_build_depth_balanced(count, LEAF_LEN as nat);
    }
    if ending - starting >= LEAF_LEN {
        let mid_point: usize = starting + (ending - starting) / 2;
        let (left, _) = build_rope(content, starting, mid_point);
        let (right, _) = build_rope(content, mid_point + 1, ending);
        proof {
            lemma_build_depth_monotonic(
                (ending - mid_point) as nat,
                (mid_point - starting + 1) as nat,
                LEAF_LEN as nat,
            );
            lemma_build_depth_bound((mid_point - starting + 1) as nat, LEAF_LEN as nat);
            assert(content@.subrange(starting as int, mid_point + 1) + content@.subrange(
                mid_point + 1,
                ending + 1,
            ) =~= content@.subrange(starting as int, ending + 1));
        }
        let rope = assemble(Some(left), Some(right));
        let depth: usize = rope.depth;
        (Box::new(rope), depth)
    } else {
        let rope = Node::new(content.substr(starting..ending + 1));
        (Box::new(rope), 0)
    }
}

/// Cuts the rope before grapheme cluster `at`. The rope keeps the
/// clusters before `at`; the rest is appended to `cut_nodes` as whole
/// subtrees, in order. Where `at` is 0 the whole rope is moved to
/// `cut_nodes` and an empty rope is left; where `at` is not below the
/// length nothing changes.
///
/// Returns the number of clusters cut away, whether the rope was left
/// empty, and whether its depth grew.
pub fn split(rope: &mut Node, at: usize, cut_nodes: &mut Vec<Box<Node>>) -> (outcome: (
    usize,
    bool,
    bool,
))
    requires
        old(rope).well_formed(),
        nodes_well_formed(old(cut_nodes)@),
    ensures
        final(rope).well_formed(),
        nodes_well_formed(final(cut_nodes)@),
        at >= old(rope)@.len() ==> {
            &&& *final(rope) == *old(rope)
            &&& final(cut_nodes)@ == old(cut_nodes)@
            &&& outcome == (0usize, false, false)
        },
        at < old(rope)@.len() ==> {
            &&& final(rope)@ == old(rope)@.subrange(0, at as int)
            &&& final(cut_nodes)@.len() > old(cut_nodes)@.len()
            &&& final(cut_nodes)@.subrange(0, old(cut_nodes)@.len() as int) == old(cut_nodes)@
            &&& nodes_graphemes(final(cut_nodes)@) == nodes_graphemes(old(cut_nodes)@)
                + old(rope)@.subrange(at as int, old(rope)@.len() as int)
            &&& outcome.0 == old(rope)@.len() - at
            &&& outcome.1 == (at == 0)
            &&& outcome.2 == (final(rope).spec_depth() > old(rope).spec_depth())
        },
        final(rope).spec_depth() <= old(rope).spec_depth() + 1,
        old(rope).is_leaf() && 0 < at < old(rope)@.len() ==> {
            &&& !final(rope).is_leaf()
            &&& final(rope).spec_right() is None
            &&& final(rope).spec_left() matches Some(left) && left.is_leaf()
            &&& final(cut_nodes)@.len() == old(cut_nodes)@.len() + 1
            &&& final(cut_nodes)@.last().is_leaf()
        },
    decreases *old(rope),
{
    let total: usize = rope.length;
    let old_depth: usize = rope.depth;
    let ghost before = old(rope)@;
    let ghost cut_before = old(cut_nodes)@;
    proof {
        lemma_well_formed_parts(*rope);
    }
    if at >= total {
        return (0, false, false);
    }
    if at == 0 {
        let mut whole = Node::empty();
        std::mem::swap(rope, &mut whole);
        let moved = Box::new(whole);
        proof {
            lemma_nodes_graphemes_push(cut_before, moved);
            assert(before.subrange(0, 0) =~= Seq::<Seq<char>>::empty());
            assert(before.subrange(0, before.len() as int) =~= before);
        }
        cut_nodes.push(moved);
        assert(cut_nodes@.subrange(0, cut_before.len() as int) =~= cut_before);
        return (total, true, false);
    }
    let content = rope.str_content.take();
    match content {
        Some(text) => {
            let left = Node::new(text.substr(0..at));
            let right = Box::new(Node::new(text.substr(at..total)));
            proof {
                lemma_nodes_graphemes_push(cut_before, right);
            }
            cut_nodes.push(right);
            assert(cut_nodes@.subrange(0, cut_before.len() as int) =~= cut_before);
            *rope = assemble(Some(Box::new(left)), None);
            return (total - at, false, true);
        },
        None => {},
    }
    let weight: usize = rope.weight;
    let left = rope.left.take();
    let right = rope.right.take();
    let ghost left_view = child_graphemes(left);
    let ghost right_view = child_graphemes(right);
    assert(before == left_view + right_view);
    if at < weight {
        let mut left_node = left.unwrap();
        split(&mut *left_node, at, cut_nodes);
        let ghost cut_middle = cut_nodes@;
        match right {
            Some(right_node) => {
                proof {
                    lemma_nodes_graphemes_push(cut_middle, right_node);
                }
                cut_nodes.push(right_node);
            },
            None => {},
        }
        proof {
            assert(cut_nodes@.subrange(0, cut_before.len() as int) =~= cut_middle.subrange(
                0,
                cut_before.len() as int,
            ));
            assert(left_view.subrange(at as int, left_view.len() as int) + right_view
                =~= before.subrange(at as int, before.len() as int));
            assert(left_view.subrange(0, at as int) =~= before.subrange(0, at as int));
        }
        *rope = assemble(Some(left_node), None);
    } else {
        let mut right_node = right.unwrap();
        let (_, emptied, _) = split(&mut *right_node, at - weight, cut_nodes);
        proof {
            assert(right_view.subrange(at - weight, right_view.len() as int) =~= before.subrange(
                at as int,
                before.len() as int,
            ));
            assert(left_view + right_view.subrange(0, at - weight) =~= before.subrange(
                0,
                at as int,
            ));
        }
        if emptied {
            *rope = assemble(left, None);
        } else {
            *rope = assemble(left, Some(right_node));
        }
    }
    (total - at, false, rope.depth > old_depth)
}

/// The grapheme clusters held by a list of leaf contents, in order.
pub open spec fn leaves_graphemes(leaves: Seq<RcSubstr>) -> Seq<Seq<char>>
    decreases leaves.len(),
{
    if leaves.len() == 0 {
        Seq::empty()
    } else {
        leaves_graphemes(leaves.drop_last()) + leaves.last()@
    }
}

/// Every entry of the list is a well-formed view that is not empty.
pub open spec fn leaves_well_formed(leaves: Seq<RcSubstr>) -> bool {
    forall|i: int|
        0 <= i < leaves.len() ==> (#[trigger] leaves[i]).well_formed() && leaves[i]@.len() >= 1
}

/// Adding a leaf to a list adds its grapheme clusters at the end.
pub proof fn lemma_leaves_graphemes_push(leaves: Seq<RcSubstr>, leaf: RcSubstr)
    ensures
        leaves_graphemes(leaves.push(leaf)) == leaves_graphemes(leaves) + leaf@,
{
    assert(leaves.push(leaf).drop_last() =~= leaves);
}

/// The clusters of two lists joined are the clusters of each, joined.
pub proof fn lemma_leaves_graphemes_concat(first: Seq<RcSubstr>, second: Seq<RcSubstr>)
    ensures
        leaves_graphemes(first + second) == leaves_graphemes(first) + leaves_graphemes(second),
    decreases second.len(),
{
    if second.len() == 0 {
        assert(first + second =~= first);
        assert(leaves_graphemes(first) + leaves_graphemes(second) =~= leaves_graphemes(first));
    } else {
        assert((first + second).drop_last() =~= first + second.drop_last());
        lemma_leaves_graphemes_concat(first, second.drop_last());
        assert(leaves_graphemes(first + second) =~= leaves_graphemes(first) + leaves_graphemes(
            second,
        ));
    }
}

/// A list of non-empty leaves holds at least as many clusters as leaves.
pub proof fn lemma_leaves_graphemes_count(leaves: Seq<RcSubstr>)
    requires
        leaves_well_formed(leaves),
    ensures
        leaves_graphemes(leaves).len() >= leaves.len(),
    decreases leaves.len(),
{
    if leaves.len() > 0 {
        assert(leaves.last() == leaves[leaves.len() - 1]);
        lemma_leaves_graphemes_count(leaves.drop_last());
    }
}

/// A range of a list holds the clusters of its two halves, and no more
/// clusters than the whole list.
pub proof fn lemma_leaves_graphemes_range(leaves: Seq<RcSubstr>, from: int, mid: int, to: int)
    requires
        0 <= from <= mid <= to <= leaves.len(),
    ensures
        leaves_graphemes(leaves.subrange(from, to)) == leaves_graphemes(leaves.subrange(from, mid))
            + leaves_graphemes(leaves.subrange(mid, to)),
        leaves_graphemes(leaves.subrange(from, to)).len() <= leaves_graphemes(leaves).len(),
{
    assert(leaves.subrange(from, to) =~= leaves.subrange(from, mid) + leaves.subrange(mid, to));
    lemma_leaves_graphemes_concat(leaves.subrange(from, mid), leaves.subrange(mid, to));
    assert(leaves =~= leaves.subrange(0, from) + leaves.subrange(from, to) + leaves.subrange(
        to,
        leaves.len() as int,
    ));
    lemma_leaves_graphemes_concat(
        leaves.subrange(0, from) + leaves.subrange(from, to),
        leaves.subrange(to, leaves.len() as int),
    );
    lemma_leaves_graphemes_concat(leaves.subrange(0, from), leaves.subrange(from, to));
}

/// Appends the contents of the non-empty leaves of the rope to `leaves`,
/// from left to right. The entries are views; no text is copied.
pub fn flatten_leaves(node: &Node, leaves: &mut Vec<RcSubstr>)
    requires
        node.well_formed(),
        leaves_well_formed(old(leaves)@),
    ensures
        leaves_well_formed(final(leaves)@),
        leaves_graphemes(final(leaves)@) == leaves_graphemes(old(leaves)@) + node@,
    decreases node,
{
    proof {
        lemma_well_formed_parts(*node);
    }
    match &node.str_content {
        Some(content) => {
            let count: usize = content.len();
            if count > 0 {
                let leaf = content.substr(0..count);
                proof {
                    lemma_leaves_graphemes_push(leaves@, leaf);
                    assert(content@.subrange(0, count as int) =~= content@);
                }
                leaves.push(leaf);
            } else {
                assert(leaves_graphemes(leaves@) + node@ =~= leaves_graphemes(leaves@));
            }
        },
        None => {
            let ghost before = leaves_graphemes(leaves@);
            if let Some(left_node) = &node.left {
                flatten_leaves(left_node, leaves);
            }
            if let Some(right_node) = &node.right {
                flatten_leaves(right_node, leaves);
            }
            assert(leaves_graphemes(leaves@) =~= before + node@);
        },
    }
}

/// The Fibonacci bucket of a length: the largest index whose Fibonacci
/// number is not above the length.
pub fn fibonacci_bucket(length: usize) -> (bucket: usize)
    requires
        length >= 1,
    ensures
        bucket >= 2,
        fibonacci(bucket as nat) <= length < fibonacci((bucket + 1) as nat),
{
    let mut previous: usize = 1;
    let mut current: usize = 1;
    let mut bucket: usize = 2;
    proof {
        reveal_with_fuel(fibonacci, 3);
    }
    while previous <= length - current
        invariant
            2 <= bucket <= current + 1,
            previous >= 1,
            previous + 2 >= bucket,
            previous == fibonacci((bucket - 1) as nat),
            current == fibonacci(bucket as nat),
            current <= length,
        decreases length - current,
    {
        let next: usize = previous + current;
        previous = current;
        current = next;
        bucket = bucket + 1;
    }
    bucket
}

/// Joins two ropes under one node, without rebalancing. Two leaves that
/// together hold no more than `LEAF_LEN` clusters become one leaf, and so
/// do the right child of `left`, where it is a leaf, and a leaf `right`.
/// An empty side is dropped.
pub fn join(left: Box<Node>, right: Box<Node>) -> (joined: Node)
    requires
        left.well_formed(),
        right.well_formed(),
        left@.len() + right@.len() <= usize::MAX,
    ensures
        joined.well_formed(),
        joined@ == left@ + right@,
        left@.len() == 0 ==> joined == *right,
        left@.len() > 0 && right@.len() == 0 ==> joined == *left,
        left.is_leaf() && right.is_leaf() && left@.len() > 0 && right@.len() > 0 && left@.len()
            + right@.len() <= LEAF_LEN ==> joined.is_leaf(),
        joined.spec_depth() <= parent_depth(Some(left), Some(right)),
{
    proof {
        lemma_well_formed_parts(*left);
        lemma_well_formed_parts(*right);
    }
    if left.length == 0 {
        assert(left@ + right@ =~= right@);
        return *right;
    }
    if right.length == 0 {
        assert(left@ + right@ =~= left@);
        return *left;
    }
    if let Some(right_content) = &right.str_content {
        if let Some(left_content) = &left.str_content {
            if right.length <= LEAF_LEN && left.length <= LEAF_LEN - right.length {
                return Node::new(left_content.concat(right_content));
            }
        }
        if left.str_content.is_none() {
            let mut merged: Option<RcSubstr> = None;
            if let Some(last) = &left.right {
                proof {
                    lemma_well_formed_parts(**last);
                }
                if let Some(last_content) = &last.str_content {
                    if right.length <= LEAF_LEN && last.length <= LEAF_LEN - right.length {
                        merged = Some(last_content.concat(right_content));
                    }
                }
            }
            if let Some(content) = merged {
                let Node { left: first, right: last, .. } = *left;
                assert(child_graphemes(first) + (child_graphemes(last) + right@)
                    =~= (child_graphemes(first) + child_graphemes(last)) + right@);
                return assemble(first, Some(Box::new(Node::new(content))));
            }
        }
    }
    assemble(Some(left), Some(right))
}

/// Adds a leaf to a forest of ropes kept in Fibonacci buckets. The
/// forest lists its occupied buckets from the left of the text to the
/// right; `buckets` holds the bucket index of each.
///
/// The ropes in buckets below the leaf's own are joined and the leaf is
/// put to their right. The result then moves up: it is joined with each
/// occupied bucket that its length has reached, and comes to rest in the
/// bucket of the length it then has.
fn add_leaf_to_forest(forest: &mut Vec<Box<Node>>, buckets: &mut Vec<usize>, leaf: Box<Node>)
    requires
        nodes_well_formed(old(forest)@),
        old(buckets)@.len() == old(forest)@.len(),
        leaf.well_formed(),
        leaf@.len() >= 1,
        nodes_graphemes(old(forest)@).len() + leaf@.len() <= usize::MAX,
    ensures
        nodes_well_formed(final(forest)@),
        final(buckets)@.len() == final(forest)@.len(),
        nodes_graphemes(final(forest)@) == nodes_graphemes(old(forest)@) + leaf@,
{
    let ghost target = nodes_graphemes(old(forest)@) + leaf@;
    let own_bucket: usize = fibonacci_bucket(leaf.len());
    let mut small: Option<Box<Node>> = None;
    while forest.len() > 0 && buckets[buckets.len() - 1] < own_bucket
        invariant
            nodes_well_formed(forest@),
            buckets@.len() == forest@.len(),
            small matches Some(node) ==> node.well_formed(),
            leaf.well_formed(),
            nodes_graphemes(forest@) + child_graphemes(small) + leaf@ == target,
            target.len() <= usize::MAX,
        decreases forest@.len(),
    {
        let ghost stack = forest@;
        let top = forest.pop().unwrap();
        buckets.pop();
        assert(forest@ =~= stack.drop_last());
        assert(top == stack.last());
        let merged = match small {
            Some(rest) => {
                assert(nodes_graphemes(forest@) + (top@ + rest@) + leaf@ =~= (nodes_graphemes(
                    forest@,
                ) + top@) + rest@ + leaf@);
                Box::new(join(top, rest))
            },
            None => {
                assert(child_graphemes(small) =~= Seq::<Seq<char>>::empty());
                assert(nodes_graphemes(forest@) + top@ + leaf@ =~= (nodes_graphemes(forest@)
                    + top@) + Seq::<Seq<char>>::empty() + leaf@);
                top
            },
        };
        small = Some(merged);
    }
    let mut insertee: Box<Node> = match small {
        Some(rest) => {
            assert(nodes_graphemes(forest@) + (rest@ + leaf@) =~= nodes_graphemes(forest@) + rest@
                + leaf@);
            Box::new(join(rest, leaf))
        },
        None => {
            assert(nodes_graphemes(forest@) + leaf@ =~= nodes_graphemes(forest@)
                + Seq::<Seq<char>>::empty() + leaf@);
            leaf
        },
    };
    loop
        invariant_except_break
            nodes_well_formed(forest@),
            buckets@.len() == forest@.len(),
            insertee.well_formed(),
            insertee@.len() >= 1,
            nodes_graphemes(forest@) + insertee@ == target,
            target.len() <= usize::MAX,
        ensures
            nodes_well_formed(forest@),
            buckets@.len() == forest@.len(),
            nodes_graphemes(forest@) == target,
        decreases forest@.len(),
    {
        let reached: usize = fibonacci_bucket(insertee.len());
        if forest.len() > 0 && buckets[buckets.len() - 1] <= reached {
            let ghost stack = forest@;
            let top = forest.pop().unwrap();
            buckets.pop();
            assert(forest@ =~= stack.drop_last());
            assert(top == stack.last());
            assert(nodes_graphemes(forest@) + (top@ + insertee@) =~= (nodes_graphemes(forest@)
                + top@) + insertee@);
            insertee = Box::new(join(top, insertee));
        } else {
            proof {
                lemma_nodes_graphemes_push(forest@, insertee);
            }
            forest.push(insertee);
            buckets.push(reached);
            break ;
        }
    }
}

/// Joins the ropes of a forest into one, in the order of the text.
fn join_forest(forest: Vec<Box<Node>>) -> (joined: Node)
    requires
        nodes_well_formed(forest@),
        nodes_graphemes(forest@).len() <= usize::MAX,
    ensures
        joined.well_formed(),
        joined@ == nodes_graphemes(forest@),
{
    let ghost target = nodes_graphemes(forest@);
    let mut forest = forest;
    let mut joined: Node = Node::empty();
    while forest.len() > 0
        invariant
            nodes_well_formed(forest@),
            joined.well_formed(),
            nodes_graphemes(forest@) + joined@ == target,
            target.len() <= usize::MAX,
        decreases forest@.len(),
    {
        let ghost stack = forest@;
        let top = forest.pop().unwrap();
        assert(forest@ =~= stack.drop_last());
        assert(top == stack.last());
        assert(nodes_graphemes(forest@) + (top@ + joined@) =~= (nodes_graphemes(forest@) + top@)
            + joined@);
        joined = join(top, Box::new(joined));
    }
    assert(nodes_graphemes(forest@) + joined@ =~= joined@);
    joined
}

/// Builds a rope over the leaves `from..=to` of the list by halving the
/// range down to single leaves. Returns the rope and its depth.
fn build_from_leaves(leaves: &Vec<RcSubstr>, from: usize, to: usize) -> (built: (Box<Node>, usize))
    requires
        leaves_well_formed(leaves@),
        from <= to < leaves@.len(),
        leaves_graphemes(leaves@).len() <= usize::MAX,
    ensures
        built.0.well_formed(),
        built.0@ == leaves_graphemes(leaves@.subrange(from as int, to + 1)),
        built.1 == built.0.spec_depth(),
        built.1 == build_depth((to - from + 1) as nat, 1),
        built.0.all_balanced(),
    decreases to - from,
{
    let ghost count = (to - from + 1) as nat;
    proof {
        lemma_build_depth_balanced(count, 1);
        lemma_leaves_graphemes_count(leaves@.subrange(from as int, to + 1));
    }
    if to > from {
        let mid_point: usize = from + (to - from) / 2;
        let (left, _) = build_from_leaves(leaves, from, mid_point);
        let (right, _) = build_from_leaves(leaves, mid_point + 1, to);
        proof {
            lemma_build_depth_monotonic((to - mid_point) as nat, (mid_point - from + 1) as nat, 1);
            lemma_build_depth_bound((mid_point - from + 1) as nat, 1);
            lemma_leaves_graphemes_range(leaves@, from as int, mid_point + 1, to + 1);
        }
        let rope = assemble(Some(left), Some(right));
        let depth: usize = rope.depth;
        (Box::new(rope), depth)
    } else {
        let leaf = &leaves[from];
        let rope = Node::new(leaf.substr(0..leaf.len()));
        proof {
            assert(leaf@.subrange(0, leaf@.len() as int) =~= leaf@);
            reveal_with_fuel(leaves_graphemes, 2);
            let single = leaves@.subrange(from as int, to + 1);
            assert(single.drop_last() =~= Seq::<RcSubstr>::empty());
            assert(single.last() == leaves@[from as int]);
            assert(leaves_graphemes(single) =~= leaf@);
        }
        (Box::new(rope), 0)
    }
}

/// Rebuilds an unbalanced rope. A rope that is empty, or that meets the
/// balance criterion at its root, is handed back as it is.
///
/// Otherwise the rope is taken apart into its leaves, and the leaves are
/// put, from left to right, into a forest kept in Fibonacci buckets,
/// which is joined at the end. Should a node of that tree miss the
/// balance criterion, the tree is built again by halving the list of
/// leaves. Either way every node of the result meets the criterion.
pub fn rebalance(node: Node) -> (balanced: Box<Node>)
    requires
        node.well_formed(),
    ensures
        balanced.well_formed(),
        balanced@ == node@,
        node@.len() == 0 || node.balanced() ==> *balanced == node,
        node@.len() > 0 && !node.balanced() ==> balanced.all_balanced(),
        node@.len() > 0 ==> balanced.balanced(),
{
    if node.len() == 0 || node.is_balanced() {
        return Box::new(node);
    }
    let mut leaves: Vec<RcSubstr> = Vec::new();
    flatten_leaves(&node, &mut leaves);
    assert(leaves_graphemes(leaves@) =~= node@);
    proof {
        lemma_leaves_graphemes_count(leaves@);
    }
    let mut forest: Vec<Box<Node>> = Vec::new();
    let mut buckets: Vec<usize> = Vec::new();
    let mut next: usize = 0;
    while next < leaves.len()
        invariant
            next <= leaves@.len(),
            leaves_well_formed(leaves@),
            leaves_graphemes(leaves@).len() <= usize::MAX,
            nodes_well_formed(forest@),
            buckets@.len() == forest@.len(),
            nodes_graphemes(forest@) == leaves_graphemes(leaves@.subrange(0, next as int)),
        decreases leaves@.len() - next,
    {
        let content = &leaves[next];
        let leaf = Node::new(content.substr(0..content.len()));
        proof {
            assert(content@.subrange(0, content@.len() as int) =~= content@);
            assert(leaves@.subrange(0, next + 1) =~= leaves@.subrange(0, next as int).push(
                leaves@[next as int],
            ));
            lemma_leaves_graphemes_push(leaves@.subrange(0, next as int), leaves@[next as int]);
            lemma_leaves_graphemes_range(leaves@, 0, next + 1, next + 1);
        }
        add_leaf_to_forest(&mut forest, &mut buckets, Box::new(leaf));
        next = next + 1;
    }
    assert(leaves@.subrange(0, next as int) =~= leaves@);
    let rebuilt = join_forest(forest);
    if rebuilt.is_all_balanced() {
        return Box::new(rebuilt);
    }
    let (halved, _) = build_from_leaves(&leaves, 0, leaves.len() - 1);
    halved
}

/// Joins two ropes: `join`, followed by `rebalance` where the result
/// fails the balance criterion.
pub fn concatenate(left: Box<Node>, right: Box<Node>) -> (joined: Node)
    requires
        left.well_formed(),
        right.well_formed(),
        left@.len() + right@.len() <= usize::MAX,
    ensures
        joined.well_formed(),
        joined@ == left@ + right@,
        joined@.len() > 0 ==> joined.balanced(),
{
    *rebalance(join(left, right))
}

/// A document after `content` is put in before grapheme cluster `at`.
/// An `at` past the end counts as the end.
pub open spec fn inserted(document: Seq<Seq<char>>, at: int, content: Seq<Seq<char>>) -> Seq<
    Seq<char>,
> {
    let place = if at < document.len() {
        at
    } else {
        document.len() as int
    };
    document.subrange(0, place) + content + document.subrange(place, document.len() as int)
}

/// A document after `count` grapheme clusters are taken out, starting
/// with cluster `at`. A range that runs past the end stops at the end; an
/// `at` that is not below the length leaves the document as it is.
pub open spec fn removed(document: Seq<Seq<char>>, at: int, count: int) -> Seq<Seq<char>> {
    if at >= document.len() {
        document
    } else {
        let stop = if at + count < document.len() {
            at + count
        } else {
            document.len() as int
        };
        document.subrange(0, at) + document.subrange(stop, document.len() as int)
    }
}

/// The grapheme clusters `start..=end` of a document. An `end` past the
/// last cluster counts as the last; a `start` that is not below the
/// length, or that lies after `end`, gives nothing.
pub open spec fn extracted(document: Seq<Seq<char>>, start: int, end: int) -> Seq<Seq<char>> {
    if start < document.len() && start <= end {
        let last = if end < document.len() {
            end
        } else {
            document.len() - 1
        };
        document.subrange(start, last + 1)
    } else {
        Seq::empty()
    }
}

/// A rope over the grapheme clusters of `content`.
pub fn from_text(content: String) -> (rope: Box<Node>)
    ensures
        rope.well_formed(),
        rope@ == segments(content@),
        rope.text() == content@,
{
    let shared = RcSubstr::new(Rc::new(content));
    let count: usize = shared.len();
    if count == 0 {
        let rope = Node::new(shared);
        Box::new(rope)
    } else {
        let (rope, _) = build_rope(&shared, 0, count - 1);
        assert(shared@.subrange(0, count as int) =~= shared@);
        rope
    }
}

/// Puts the grapheme clusters of the rope `piece` into the rope before
/// cluster `at`; an `at` past the end counts as the end.
///
/// An empty rope is replaced by `piece`. At either end `piece` is joined
/// to that side. Elsewhere the rope is cut at `at`, `piece` is joined
/// with the pieces cut away, and the result is joined to what was kept;
/// each part is rebalanced.
pub fn insert_rope(at: usize, rope: Box<Node>, piece: Box<Node>) -> (result: Node)
    requires
        rope.well_formed(),
        piece.well_formed(),
        rope@.len() + piece@.len() <= usize::MAX,
    ensures
        result.well_formed(),
        result@ == inserted(rope@, at as int, piece@),
        piece@.len() == 0 ==> result == *rope,
        piece@.len() > 0 && rope@.len() == 0 ==> result == *piece,
        piece@.len() > 0 && rope@.len() > 0 ==> result.balanced(),
{
    let count: usize = piece.len();
    let total: usize = rope.len();
    let ghost document = rope@;
    let ghost content = piece@;
    if count == 0 {
        assert(inserted(document, at as int, content) =~= document);
        return *rope;
    }
    if total == 0 {
        assert(inserted(document, at as int, content) =~= content);
        return *piece;
    }
    if at == 0 {
        assert(inserted(document, at as int, content) =~= content + document);
        return concatenate(piece, rope);
    }
    if at >= total {
        assert(inserted(document, at as int, content) =~= document + content);
        return concatenate(rope, piece);
    }
    let mut kept_rope = rope;
    let mut cut_nodes: Vec<Box<Node>> = Vec::new();
    split(&mut *kept_rope, at, &mut cut_nodes);
    assert(nodes_graphemes(cut_nodes@) =~= document.subrange(at as int, total as int));
    let suffix = join_forest(cut_nodes);
    let merged_cut_nodes = concatenate(piece, Box::new(suffix));
    let prefix = rebalance(*kept_rope);
    assert(inserted(document, at as int, content) =~= document.subrange(0, at as int) + (content
        + document.subrange(at as int, total as int)));
    concatenate(prefix, Box::new(merged_cut_nodes))
}

/// Puts the grapheme clusters of `content` into the rope before cluster
/// `at`, as [`insert_rope`] does with a rope built over them by
/// [`build_rope`].
pub fn insert_graphemes(at: usize, rope: Box<Node>, content: &RcSubstr) -> (result: Node)
    requires
        rope.well_formed(),
        content.well_formed(),
        rope@.len() + content@.len() <= usize::MAX,
    ensures
        result.well_formed(),
        result@ == inserted(rope@, at as int, content@),
{
    let count: usize = content.len();
    if count == 0 {
        assert(inserted(rope@, at as int, content@) =~= rope@);
        return *rope;
    }
    let (built, _) = build_rope(content, 0, count - 1);
    assert(content@.subrange(0, count as int) =~= content@);
    insert_rope(at, rope, built)
}

/// Puts the text `content` into the rope before grapheme cluster `at`; an
/// `at` past the end counts as the end. The text is segmented into
/// grapheme clusters first. A text with more clusters than the rope has
/// room for leaves the rope as it is.
pub fn insert(at: usize, rope: Box<Node>, content: String) -> (result: Node)
    requires
        rope.well_formed(),
    ensures
        result.well_formed(),
        rope@.len() + segments(content@).len() <= usize::MAX ==> result@ == inserted(
            rope@,
            at as int,
            segments(content@),
        ),
        rope@.len() + segments(content@).len() > usize::MAX ==> result@ == rope@,
{
    let shared = RcSubstr::new(Rc::new(content));
    if shared.len() > usize::MAX - rope.len() {
        return *rope;
    }
    insert_graphemes(at, rope, &shared)
}

/// Takes `count` grapheme clusters out of one leaf of the rope, starting
/// with cluster `at`, where the range lies within a single leaf and does
/// not empty it. The leaf gets a fresh text without the range. Says
/// whether it did so; a rope that it could not serve keeps its text.
fn splice(node: Box<Node>, at: usize, count: usize) -> (outcome: (Box<Node>, bool))
    requires
        node.well_formed(),
        count >= 1,
        at + count <= node@.len(),
    ensures
        outcome.0.well_formed(),
        outcome.1 ==> outcome.0@ == removed(node@, at as int, count as int),
        !outcome.1 ==> outcome.0@ == node@,
    decreases node,
{
    proof {
        lemma_well_formed_parts(*node);
    }
    let ghost document = node@;
    let total: usize = node.length;
    if let Some(content) = &node.str_content {
        if count == total {
            return (node, false);
        }
        let kept_before = content.substr(0..at);
        let kept_after = content.substr(at + count..total);
        let spliced = Node::new(kept_before.concat(&kept_after));
        return (Box::new(spliced), true);
    }
    let Node { weight, left, right, .. } = *node;
    if at >= weight {
        match right {
            Some(right_node) => {
                let ghost right_view = right_node@;
                let (changed, done) = splice(right_node, at - weight, count);
                proof {
                    if done {
                        assert(child_graphemes(left) + removed(
                            right_view,
                            at - weight,
                            count as int,
                        ) =~= removed(document, at as int, count as int));
                    }
                }
                (Box::new(assemble(left, Some(changed))), done)
            },
            None => (Box::new(assemble(left, None)), false),
        }
    } else if count <= weight - at {
        match left {
            Some(left_node) => {
                let ghost left_view = left_node@;
                let (changed, done) = splice(left_node, at, count);
                proof {
                    if done {
                        assert(removed(left_view, at as int, count as int) + child_graphemes(right)
                            =~= removed(document, at as int, count as int));
                    }
                }
                (Box::new(assemble(Some(changed), right)), done)
            },
            None => (Box::new(assemble(None, right)), false),
        }
    } else {
        (Box::new(assemble(left, right)), false)
    }
}

/// Takes `length_to_cut` grapheme clusters out of the rope, starting with
/// cluster `at`. A range that runs past the end stops at the end. An `at`
/// that is not below the length leaves the rope as it is.
///
/// Taking out everything gives an empty rope. A range within one leaf is
/// taken out of that leaf alone. Otherwise the rope is cut at `at`, the
/// pieces cut away are joined and cut again after the range, and what
/// follows the range is joined to what was kept; each part is rebalanced.
pub fn remove(at: usize, rope: Box<Node>, length_to_cut: usize) -> (result: Box<Node>)
    requires
        rope.well_formed(),
    ensures
        result.well_formed(),
        result@ == removed(rope@, at as int, length_to_cut as int),
        at >= rope@.len() || length_to_cut == 0 ==> result == rope,
        at == 0 && 0 < rope@.len() <= length_to_cut ==> {
            &&& !result.is_leaf()
            &&& result.spec_left() is None
            &&& result.spec_right() is None
            &&& result.spec_depth() == 0
        },
{
    let total: usize = rope.len();
    let ghost document = rope@;
    if at >= total {
        return rope;
    }
    if length_to_cut == 0 {
        assert(removed(document, at as int, 0) =~= document);
        return rope;
    }
    let count: usize = if length_to_cut < total - at {
        length_to_cut
    } else {
        total - at
    };
    assert(removed(document, at as int, length_to_cut as int) == removed(
        document,
        at as int,
        count as int,
    ));
    if at == 0 && count == total {
        assert(removed(document, 0, count as int) =~= Seq::<Seq<char>>::empty());
        return Box::new(Node::empty());
    }
    let (kept_rope, done) = splice(rope, at, count);
    if done {
        return kept_rope;
    }
    let mut kept_rope = kept_rope;
    let mut cut_nodes: Vec<Box<Node>> = Vec::new();
    split(&mut *kept_rope, at, &mut cut_nodes);
    assert(nodes_graphemes(cut_nodes@) =~= document.subrange(at as int, total as int));
    let prefix = rebalance(*kept_rope);
    let mut merged_cut_nodes = rebalance(join_forest(cut_nodes));
    let mut cut_nodes: Vec<Box<Node>> = Vec::new();
    split(&mut *merged_cut_nodes, count, &mut cut_nodes);
    let remainder = rebalance(join_forest(cut_nodes));
    proof {
        let tail = document.subrange(at as int, total as int);
        if count < tail.len() {
            assert(nodes_graphemes(cut_nodes@) =~= tail.subrange(count as int, tail.len() as int));
            assert(tail.subrange(count as int, tail.len() as int) =~= document.subrange(
                at + count,
                total as int,
            ));
        } else {
            assert(document.subrange(at + count, total as int) =~= Seq::<Seq<char>>::empty());
        }
    }
    if prefix.len() == 0 {
        assert(prefix@ + remainder@ =~= remainder@);
        return remainder;
    }
    Box::new(concatenate(prefix, remainder))
}

/// Appends the text of the grapheme clusters `start..=end` of the rope to
/// `content`. An `end` past the last cluster counts as the last; a
/// `start` that is not below the length, or that lies after `end`,
/// appends nothing.
pub fn sub_str(node: &Node, start: usize, end: usize, content: &mut String)
    requires
        node.well_formed(),
    ensures
        final(content)@ == old(content)@ + extracted(node@, start as int, end as int).flatten(),
    decreases node,
{
    proof {
        lemma_well_formed_parts(*node);
    }
    if start >= node.length || start > end {
        assert(old(content)@ + Seq::<Seq<char>>::empty().flatten() =~= old(content)@);
        return ;
    }
    let last: usize = if end < node.length {
        end
    } else {
        node.length - 1
    };
    match &node.str_content {
        Some(current) => {
            content.append(current.substr(start..last + 1).as_str());
        },
        None => {
            let weight: usize = node.weight;
            let ghost left_view = child_graphemes(node.left);
            let ghost right_view = child_graphemes(node.right);
            let ghost left_part = extracted(left_view, start as int, last as int);
            let ghost right_part = if last >= weight {
                extracted(
                    right_view,
                    if start > weight {
                        start - weight
                    } else {
                        0
                    },
                    last - weight,
                )
            } else {
                Seq::<Seq<char>>::empty()
            };
            if start < weight {
                if let Some(left_node) = &node.left {
                    sub_str(left_node, start, last, content);
                }
            }
            if last >= weight {
                if let Some(right_node) = &node.right {
                    let from: usize = if start > weight {
                        start - weight
                    } else {
                        0
                    };
                    sub_str(right_node, from, last - weight, content);
                }
            }
            proof {
                assert(left_part + right_part =~= extracted(node@, start as int, end as int));
                lemma_flatten_concat(left_part, right_part);
                assert(Seq::<Seq<char>>::empty().flatten() =~= Seq::<char>::empty());
            }
        },
    }
}

/// A rope over the grapheme clusters `start..=end` of the rope, with the
/// bounds read as in [`sub_str`]. Its leaves are views of the same text.
pub fn sub_rope(node: &Node, start: usize, end: usize) -> (part: Node)
    requires
        node.well_formed(),
    ensures
        part.well_formed(),
        part@ == extracted(node@, start as int, end as int),
    decreases node,
{
    proof {
        lemma_well_formed_parts(*node);
    }
    if start >= node.length || start > end {
        return Node::empty();
    }
    let last: usize = if end < node.length {
        end
    } else {
        node.length - 1
    };
    match &node.str_content {
        Some(current) => Node::new(current.substr(start..last + 1)),
        None => {
            let weight: usize = node.weight;
            let left_part: Node = match &node.left {
                Some(left_node) => {
                    if start < weight {
                        sub_rope(left_node, start, last)
                    } else {
                        Node::empty()
                    }
                },
                None => Node::empty(),
            };
            let right_part: Node = match &node.right {
                Some(right_node) => {
                    if last >= weight {
                        let from: usize = if start > weight {
                            start - weight
                        } else {
                            0
                        };
                        sub_rope(right_node, from, last - weight)
                    } else {
                        Node::empty()
                    }
                },
                None => Node::empty(),
            };
            assert(left_part@ + right_part@ =~= extracted(node@, start as int, end as int));
            join(Box::new(left_part), Box::new(right_part))
        },
    }
}

/// The number of characters before grapheme cluster `at` of a document.
pub open spec fn char_offset(document: Seq<Seq<char>>, at: int) -> int {
    document.subrange(0, at).flatten().len() as int
}

/// The text of a document is the text before cluster `at` followed by
/// the text from cluster `at` on.
pub proof fn lemma_text_split(document: Seq<Seq<char>>, at: int)
    requires
        0 <= at <= document.len(),
    ensures
        document.flatten() == document.subrange(0, at).flatten() + document.subrange(
            at,
            document.len() as int,
        ).flatten(),
        document.flatten().subrange(0, char_offset(document, at)) == document.subrange(
            0,
            at,
        ).flatten(),
        document.flatten().subrange(char_offset(document, at), document.flatten().len() as int)
            == document.subrange(at, document.len() as int).flatten(),
{
    let head = document.subrange(0, at);
    let tail = document.subrange(at, document.len() as int);
    assert(document =~= head + tail);
    lemma_flatten_concat(head, tail);
    assert((head.flatten() + tail.flatten()).subrange(0, head.flatten().len() as int)
        =~= head.flatten());
    assert((head.flatten() + tail.flatten()).subrange(
        head.flatten().len() as int,
        (head.flatten() + tail.flatten()).len() as int,
    ) =~= tail.flatten());
}

/// Every node of a rope in which all nodes are balanced has a length of
/// at least the Fibonacci number two places past its depth, and so has
/// every node below it.
pub proof fn lemma_all_balanced_parts(node: Node)
    requires
        node.all_balanced(),
    ensures
        node.balanced(),
        node.spec_length() >= fibonacci(node.spec_depth() + 2),
        node.spec_left() matches Some(child) ==> child.all_balanced(),
        node.spec_right() matches Some(child) ==> child.all_balanced(),
{
}

/// Inserting into a rope is inserting into its text: the text of the
/// document after an insertion is the old text up to the characters
/// before cluster `at`, then the text put in, then the rest of the old
/// text.
pub proof fn lemma_inserted_text(document: Seq<Seq<char>>, at: int, content: Seq<Seq<char>>)
    requires
        0 <= at,
    ensures
        ({
            let place = if at < document.len() {
                at
            } else {
                document.len() as int
            };
            let offset = char_offset(document, place);
            let text = document.flatten();
            inserted(document, at, content).flatten() == text.subrange(0, offset)
                + content.flatten() + text.subrange(offset, text.len() as int)
        }),
{
    let place = if at < document.len() {
        at
    } else {
        document.len() as int
    };
    let head = document.subrange(0, place);
    let tail = document.subrange(place, document.len() as int);
    lemma_text_split(document, place);
    lemma_flatten_concat(head + content, tail);
    lemma_flatten_concat(head, content);
}

/// Removing from a rope is removing from its text: the text of the
/// document after a removal is the old text without the characters of
/// the clusters taken out.
pub proof fn lemma_removed_text(document: Seq<Seq<char>>, at: int, count: int)
    requires
        0 <= at < document.len(),
        0 <= count,
    ensures
        ({
            let stop = if at + count < document.len() {
                at + count
            } else {
                document.len() as int
            };
            let text = document.flatten();
            removed(document, at, count).flatten() == text.subrange(0, char_offset(document, at))
                + text.subrange(char_offset(document, stop), text.len() as int)
        }),
{
    let stop = if at + count < document.len() {
        at + count
    } else {
        document.len() as int
    };
    lemma_text_split(document, at);
    lemma_text_split(document, stop);
    lemma_flatten_concat(document.subrange(0, at), document.subrange(stop, document.len() as int));
}

/// A point query agrees with the text: grapheme cluster `at` of a
/// document is the piece of its text that starts after the characters of
/// the clusters before it.
pub proof fn lemma_cluster_in_text(document: Seq<Seq<char>>, at: int)
    requires
        0 <= at < document.len(),
    ensures
        char_offset(document, at + 1) == char_offset(document, at) + document[at].len(),
        char_offset(document, at + 1) <= document.flatten().len(),
        document.flatten().subrange(char_offset(document, at), char_offset(document, at + 1))
            == document[at],
{
    let head = document.subrange(0, at);
    let upto = document.subrange(0, at + 1);
    assert(upto =~= head.push(document[at]));
    head.lemma_flatten_push(document[at]);
    lemma_text_split(document, at + 1);
    assert((head.flatten() + document[at]).subrange(
        head.flatten().len() as int,
        upto.flatten().len() as int,
    ) =~= document[at]);
    assert(document.flatten().subrange(char_offset(document, at), char_offset(document, at + 1))
        =~= document.flatten().subrange(0, char_offset(document, at + 1)).subrange(
        char_offset(document, at),
        char_offset(document, at + 1),
    ));
}

} // verus!
