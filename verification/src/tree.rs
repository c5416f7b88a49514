//! The directory tree: nodes for path components, find-or-insert building in
//! first-encountered order, upward aggregation of size and token totals, and
//! rendering as an indented report.

use vstd::prelude::*;

use crate::classify::{classification_of, Classification};
use crate::tokenizer::Scheme;
use crate::tokenizer::Tokenizer;
use crate::report::{dir_annotation, dir_annotation_of, file_annotation, file_annotation_of};

verus! {

/// Whether a node stands for a directory or a file.
#[derive(Clone, Copy, Debug, PartialEq, Eq, Structural)]
pub enum NodeKind {
    Directory,
    File,
}

/// Size and token totals attributed to a node. On a directory they accumulate
/// the contributions of descendant files; on a file node they hold that
/// file's own contribution.
#[derive(Clone, Copy, Debug, PartialEq, Eq, Structural)]
pub struct Aggregate {
    pub total_size: u64,
    pub total_tokens: u64,
}

/// One path component: a directory or file node with its children in
/// first-encountered order.
pub struct TreeNode {
    pub label: String,
    pub kind: NodeKind,
    pub children: Vec<TreeNode>,
    pub annotation: Option<String>,
    pub aggregate: Aggregate,
}

/// The mathematical model of a tree node.
#[verifier::ext_equal]
pub struct NodeV {
    pub label: Seq<char>,
    pub kind: NodeKind,
    pub children: Seq<NodeV>,
    pub annotation: Option<Seq<char>>,
    pub size: nat,
    pub tokens: nat,
}

pub open spec fn node_view(n: TreeNode) -> NodeV
    decreases n,
{
    NodeV {
        label: n.label@,
        kind: n.kind,
        children: Seq::new(
            n.children@.len(),
            |i: int|
                if 0 <= i < n.children@.len() {
                    node_view(n.children@[i])
                } else {
                    arbitrary()
                },
        ),
        annotation: match n.annotation {
            Some(a) => Some(a@),
            None => None,
        },
        size: n.aggregate.total_size as nat,
        tokens: n.aggregate.total_tokens as nat,
    }
}

impl View for TreeNode {
    type V = NodeV;

    open spec fn view(&self) -> NodeV {
        node_view(*self)
    }
}

/// The models of a sequence of nodes.
pub open spec fn children_view(cs: Seq<TreeNode>) -> Seq<NodeV> {
    Seq::new(
        cs.len(),
        |i: int|
            if 0 <= i < cs.len() {
                node_view(cs[i])
            } else {
                arbitrary()
            },
    )
}

/// The view of a sequence of path components.
pub open spec fn strings_view(ss: Seq<String>) -> Seq<Seq<char>> {
    Seq::new(
        ss.len(),
        |i: int|
            if 0 <= i < ss.len() {
                ss[i]@
            } else {
                arbitrary()
            },
    )
}

/// The sum of the sizes that the nodes of `cs` contribute.
pub open spec fn sum_sizes(cs: Seq<NodeV>) -> nat
    decreases cs.len(),
{
    if cs.len() == 0 {
        0
    } else {
        cs[0].size + sum_sizes(cs.drop_first())
    }
}

/// The sum of the token counts that the nodes of `cs` contribute.
pub open spec fn sum_tokens(cs: Seq<NodeV>) -> nat
    decreases cs.len(),
{
    if cs.len() == 0 {
        0
    } else {
        cs[0].tokens + sum_tokens(cs.drop_first())
    }
}

/// Well-formedness: files are leaves, and every directory's totals equal the
/// sums of its children's contributions — so, unfolded, the totals of all
/// descendant file nodes, each counted exactly once.
pub open spec fn wf_node(n: NodeV) -> bool
    decreases n,
{
    &&& (forall|i: int| 0 <= i < n.children.len() ==> wf_node(#[trigger] n.children[i]))
    &&& (n.kind is File ==> n.children.len() == 0)
    &&& (n.kind is Directory ==> n.size == sum_sizes(n.children) && n.tokens == sum_tokens(
        n.children,
    ))
}

/// The index of the first child of `cs` labelled `label`, searching from
/// `from`; `-1` when there is none.
pub open spec fn find_idx(cs: Seq<NodeV>, label: Seq<char>, from: int) -> int
    decreases cs.len() - from,
{
    if from < 0 || from >= cs.len() {
        -1
    } else if cs[from].label == label {
        from
    } else {
        find_idx(cs, label, from + 1)
    }
}

pub proof fn lemma_find_idx(cs: Seq<NodeV>, label: Seq<char>, from: int)
    requires
        0 <= from <= cs.len(),
    ensures
        ({
            let k = find_idx(cs, label, from);
            if k == -1 {
                forall|j: int| from <= j < cs.len() ==> cs[j].label != label
            } else {
                from <= k < cs.len() && cs[k].label == label && (forall|j: int|
                    from <= j < k ==> cs[j].label != label)
            }
        }),
    decreases cs.len() - from,
{
    if from < cs.len() && cs[from].label != label {
        lemma_find_idx(cs, label, from + 1);
    }
}

/// `find_idx` looks only at labels, so an update that keeps the found label
/// keeps the found index.
pub proof fn lemma_find_idx_update(cs: Seq<NodeV>, label: Seq<char>, k: int, c: NodeV)
    requires
        find_idx(cs, label, 0) == k,
        0 <= k < cs.len(),
        c.label == cs[k].label,
    ensures
        find_idx(cs.update(k, c), label, 0) == k,
{
    lemma_find_idx(cs, label, 0);
    lemma_find_idx_from(cs.update(k, c), label, 0, k);
}

proof fn lemma_find_idx_from(cs: Seq<NodeV>, label: Seq<char>, from: int, k: int)
    requires
        0 <= from <= k < cs.len(),
        cs[k].label == label,
        forall|j: int| 0 <= j < k ==> cs[j].label != label,
    ensures
        find_idx(cs, label, from) == k,
    decreases k - from,
{
    if from < k {
        lemma_find_idx_from(cs, label, from + 1, k);
    }
}

/// When no child carries the label, a pushed child with that label is found
/// at the end.
pub proof fn lemma_find_idx_push(cs: Seq<NodeV>, label: Seq<char>, c: NodeV)
    requires
        find_idx(cs, label, 0) == -1,
        c.label == label,
    ensures
        find_idx(cs.push(c), label, 0) == cs.len(),
{
    lemma_find_idx(cs, label, 0);
    assert(cs.push(c)[cs.len() as int].label == label);
    assert(forall|j: int| 0 <= j < cs.len() ==> cs.push(c)[j] == cs[j]);
    lemma_find_idx_from(cs.push(c), label, 0, cs.len() as int);
}

pub proof fn lemma_sum_element_le(cs: Seq<NodeV>, i: int)
    requires
        0 <= i < cs.len(),
    ensures
        cs[i].size <= sum_sizes(cs),
        cs[i].tokens <= sum_tokens(cs),
    decreases cs.len(),
{
    if i == 0 {
    } else {
        lemma_sum_element_le(cs.drop_first(), i - 1);
        assert(cs.drop_first()[i - 1] == cs[i]);
    }
}

pub proof fn lemma_sum_push(cs: Seq<NodeV>, c: NodeV)
    ensures
        sum_sizes(cs.push(c)) == sum_sizes(cs) + c.size,
        sum_tokens(cs.push(c)) == sum_tokens(cs) + c.tokens,
    decreases cs.len(),
{
    if cs.len() == 0 {
        reveal_with_fuel(sum_sizes, 2);
        reveal_with_fuel(sum_tokens, 2);
        assert(cs.push(c)[0] == c);
        assert(cs.push(c).drop_first() =~= Seq::<NodeV>::empty());
    } else {
        lemma_sum_push(cs.drop_first(), c);
        assert(cs.push(c).drop_first() =~= cs.drop_first().push(c));
        assert(cs.push(c)[0] == cs[0]);
    }
}

pub proof fn lemma_sum_update(cs: Seq<NodeV>, i: int, c: NodeV)
    requires
        0 <= i < cs.len(),
    ensures
        sum_sizes(cs.update(i, c)) == sum_sizes(cs) - cs[i].size + c.size,
        sum_tokens(cs.update(i, c)) == sum_tokens(cs) - cs[i].tokens + c.tokens,
    decreases cs.len(),
{
    if i == 0 {
        assert(cs.update(0, c)[0] == c);
        assert(cs.update(0, c).drop_first() =~= cs.drop_first());
    } else {
        lemma_sum_update(cs.drop_first(), i - 1, c);
        assert(cs.update(i, c).drop_first() =~= cs.drop_first().update(i - 1, c));
        assert(cs.update(i, c)[0] == cs[0]);
        assert(cs.drop_first()[i - 1] == cs[i]);
    }
}

/// A directory node as first created: no children, no annotation, zero
/// totals.
pub open spec fn empty_dir_v(label: Seq<char>) -> NodeV {
    NodeV {
        label,
        kind: NodeKind::Directory,
        children: Seq::empty(),
        annotation: None,
        size: 0,
        tokens: 0,
    }
}

/// Inserting a file leaf along the path `comps[i..]`: intermediate components
/// are found by label or created as directory nodes, and the leaf's own
/// contribution is added to the totals of every node passed through. When the
/// final component already exists, or a file node stands where the path would
/// descend, nothing changes and the second component is false.
pub open spec fn insert_file_v(n: NodeV, comps: Seq<Seq<char>>, i: int, leaf: NodeV) -> (NodeV,
    bool)
    decreases comps.len() - i,
{
    let k = find_idx(n.children, comps[i], 0);
    if i >= comps.len() - 1 {
        if k >= 0 {
            (n, false)
        } else {
            (
                NodeV {
                    children: n.children.push(leaf),
                    size: n.size + leaf.size,
                    tokens: n.tokens + leaf.tokens,
                    ..n
                },
                true,
            )
        }
    } else {
        if k >= 0 {
            if n.children[k].kind is File {
                (n, false)
            } else {
                let r = insert_file_v(n.children[k], comps, i + 1, leaf);
                if r.1 {
                    (
                        NodeV {
                            children: n.children.update(k, r.0),
                            size: n.size + leaf.size,
                            tokens: n.tokens + leaf.tokens,
                            ..n
                        },
                        true,
                    )
                } else {
                    (n, false)
                }
            }
        } else {
            let r = insert_file_v(empty_dir_v(comps[i]), comps, i + 1, leaf);
            (
                NodeV {
                    children: n.children.push(r.0),
                    size: n.size + leaf.size,
                    tokens: n.tokens + leaf.tokens,
                    ..n
                },
                true,
            )
        }
    }
}

/// Into a freshly created directory the leaf always goes.
pub proof fn lemma_insert_file_fresh(comps: Seq<Seq<char>>, i: int, leaf: NodeV, label: Seq<char>)
    requires
        0 <= i < comps.len(),
    ensures
        insert_file_v(empty_dir_v(label), comps, i, leaf).1,
    decreases comps.len() - i,
{
    if i < comps.len() - 1 {
        lemma_insert_file_fresh(comps, i + 1, leaf, comps[i]);
    }
}

/// Inserting a file leaf preserves well-formedness; when the leaf goes in,
/// the totals of the node grow by exactly the leaf's contribution, and
/// nothing else about the node itself changes; when it does not, the tree is
/// unchanged.
pub proof fn lemma_insert_file_wf(n: NodeV, comps: Seq<Seq<char>>, i: int, leaf: NodeV)
    requires
        wf_node(n),
        n.kind is Directory,
        0 <= i < comps.len(),
        leaf.kind is File,
        leaf.children.len() == 0,
    ensures
        ({
            let r = insert_file_v(n, comps, i, leaf);
            &&& wf_node(r.0)
            &&& r.0.label == n.label
            &&& r.0.kind == n.kind
            &&& r.0.annotation == n.annotation
            &&& (r.1 ==> r.0.size == n.size + leaf.size && r.0.tokens == n.tokens + leaf.tokens)
            &&& (!r.1 ==> r.0 == n)
        }),
    decreases comps.len() - i,
{
    let k = find_idx(n.children, comps[i], 0);
    lemma_find_idx(n.children, comps[i], 0);
    if i >= comps.len() - 1 {
        if k < 0 {
            lemma_sum_push(n.children, leaf);
            let n2 = insert_file_v(n, comps, i, leaf).0;
            assert(wf_node(leaf));
            assert forall|j: int| 0 <= j < n2.children.len() implies wf_node(
                #[trigger] n2.children[j],
            ) by {
                if j < n.children.len() {
                    assert(n2.children[j] == n.children[j]);
                    assert(wf_node(n.children[j]));
                } else {
                    assert(n2.children[j] == leaf);
                }
            }
            assert(wf_node(n2));
        }
    } else {
        if k >= 0 {
            if !(n.children[k].kind is File) {
                let child = n.children[k];
                assert(wf_node(child));
                lemma_insert_file_wf(child, comps, i + 1, leaf);
                let r = insert_file_v(child, comps, i + 1, leaf);
                if r.1 {
                    lemma_sum_update(n.children, k, r.0);
                    let n2 = insert_file_v(n, comps, i, leaf).0;
                    assert forall|j: int| 0 <= j < n2.children.len() implies wf_node(
                        #[trigger] n2.children[j],
                    ) by {
                        if j == k {
                            assert(n2.children[j] == r.0);
                        } else {
                            assert(n2.children[j] == n.children[j]);
                            assert(wf_node(n.children[j]));
                        }
                    }
                    assert(wf_node(n2));
                }
            }
        } else {
            let fresh = empty_dir_v(comps[i]);
            assert(wf_node(fresh));
            lemma_insert_file_wf(fresh, comps, i + 1, leaf);
            lemma_insert_file_fresh(comps, i + 1, leaf, comps[i]);
            let r = insert_file_v(fresh, comps, i + 1, leaf);
            lemma_sum_push(n.children, r.0);
            let n2 = insert_file_v(n, comps, i, leaf).0;
            assert forall|j: int| 0 <= j < n2.children.len() implies wf_node(
                #[trigger] n2.children[j],
            ) by {
                if j < n.children.len() {
                    assert(n2.children[j] == n.children[j]);
                    assert(wf_node(n.children[j]));
                } else {
                    assert(n2.children[j] == r.0);
                }
            }
            assert(wf_node(n2));
        }
    }
}

/// Inserting a directory chain along `comps[i..]`: components are found by
/// label or created as empty directory nodes; totals nowhere change.
pub open spec fn insert_dir_v(n: NodeV, comps: Seq<Seq<char>>, i: int) -> NodeV
    decreases comps.len() - i,
{
    if i >= comps.len() {
        n
    } else {
        let k = find_idx(n.children, comps[i], 0);
        if k >= 0 {
            if n.children[k].kind is File {
                n
            } else {
                NodeV { children: n.children.update(k, insert_dir_v(n.children[k], comps, i + 1)), ..n }
            }
        } else {
            NodeV { children: n.children.push(insert_dir_v(empty_dir_v(comps[i]), comps, i + 1)), ..n }
        }
    }
}

/// Inserting a directory chain preserves well-formedness and changes no
/// totals.
pub proof fn lemma_insert_dir_wf(n: NodeV, comps: Seq<Seq<char>>, i: int)
    requires
        wf_node(n),
        n.kind is Directory,
        0 <= i <= comps.len(),
    ensures
        ({
            let n2 = insert_dir_v(n, comps, i);
            &&& wf_node(n2)
            &&& n2.label == n.label
            &&& n2.kind == n.kind
            &&& n2.annotation == n.annotation
            &&& n2.size == n.size
            &&& n2.tokens == n.tokens
        }),
    decreases comps.len() - i,
{
    if i < comps.len() {
        let k = find_idx(n.children, comps[i], 0);
        lemma_find_idx(n.children, comps[i], 0);
        if k >= 0 {
            if !(n.children[k].kind is File) {
                let child = n.children[k];
                assert(wf_node(child));
                lemma_insert_dir_wf(child, comps, i + 1);
                let c2 = insert_dir_v(child, comps, i + 1);
                lemma_sum_update(n.children, k, c2);
                let n2 = insert_dir_v(n, comps, i);
                assert forall|j: int| 0 <= j < n2.children.len() implies wf_node(
                    #[trigger] n2.children[j],
                ) by {
                    if j == k {
                        assert(n2.children[j] == c2);
                    } else {
                        assert(n2.children[j] == n.children[j]);
                        assert(wf_node(n.children[j]));
                    }
                }
                assert(wf_node(n2));
            }
        } else {
            let fresh = empty_dir_v(comps[i]);
            assert(wf_node(fresh));
            lemma_insert_dir_wf(fresh, comps, i + 1);
            let c2 = insert_dir_v(fresh, comps, i + 1);
            lemma_sum_push(n.children, c2);
            let n2 = insert_dir_v(n, comps, i);
            assert forall|j: int| 0 <= j < n2.children.len() implies wf_node(
                #[trigger] n2.children[j],
            ) by {
                if j < n.children.len() {
                    assert(n2.children[j] == n.children[j]);
                    assert(wf_node(n.children[j]));
                } else {
                    assert(n2.children[j] == c2);
                }
            }
            assert(wf_node(n2));
        }
    }
}

/// A freshly created directory node.
pub fn new_dir_node(label: String) -> (n: TreeNode)
    ensures
        n@ == empty_dir_v(label@),
{
    let n = TreeNode {
        label,
        kind: NodeKind::Directory,
        children: Vec::new(),
        annotation: None,
        aggregate: Aggregate { total_size: 0, total_tokens: 0 },
    };
    proof {
        assert(n.children@.len() == 0);
        assert(node_view(n).children =~= Seq::<NodeV>::empty());
        assert(node_view(n) =~~= empty_dir_v(n.label@));
        assert(n@ =~~= empty_dir_v(n.label@));
    }
    n
}

fn find_child(children: &Vec<TreeNode>, label: &String) -> (r: Option<usize>)
    ensures
        match r {
            Some(k) => k as int == find_idx(children_view(children@), label@, 0),
            None => find_idx(children_view(children@), label@, 0) == -1,
        },
{
    let ghost cv = children_view(children@);
    let mut j: usize = 0;
    while j < children.len()
        invariant
            j <= children@.len(),
            cv == children_view(children@),
            forall|q: int| 0 <= q < j ==> cv[q].label != label@,
        decreases children@.len() - j,
    {
        if children[j].label == *label {
            proof {
                assert(cv[j as int].label == label@);
                lemma_find_idx_from(cv, label@, 0, j as int);
            }
            return Some(j);
        }
        assert(cv[j as int].label != label@);
        j += 1;
    }
    proof {
        lemma_find_idx(cv, label@, 0);
        let k = find_idx(cv, label@, 0);
        if k != -1 {
            assert(cv[k].label != label@);
        }
    }
    None
}

fn insert_file_node(node: &mut TreeNode, comps: &Vec<String>, i: usize, leaf: TreeNode) -> (ins:
    bool)
    requires
        wf_node(old(node)@),
        old(node)@.kind is Directory,
        i < comps@.len(),
        leaf@.kind is File,
        leaf@.children.len() == 0,
        old(node)@.size + leaf@.size <= u64::MAX,
        old(node)@.tokens + leaf@.tokens <= u64::MAX,
    ensures
        ({
            let r = insert_file_v(old(node)@, strings_view(comps@), i as int, leaf@);
            final(node)@ == r.0 && ins == r.1
        }),
    decreases comps@.len() - i,
{
    let ghost n0 = node@;
    let ghost cw = strings_view(comps@);
    let ghost leafv = leaf@;
    proof {
        assert(n0.children =~= children_view(old(node).children@));
    }
    let s = leaf.aggregate.total_size;
    let t = leaf.aggregate.total_tokens;
    let found = find_child(&node.children, &comps[i]);
    let ghost k = find_idx(n0.children, cw[i as int], 0);
    proof {
        lemma_find_idx(n0.children, cw[i as int], 0);
    }
    if i == comps.len() - 1 {
        match found {
            Some(_) => false,
            None => {
                node.children.push(leaf);
                node.aggregate.total_size = node.aggregate.total_size + s;
                node.aggregate.total_tokens = node.aggregate.total_tokens + t;
                proof {
                    let r = insert_file_v(n0, cw, i as int, leafv);
                    assert(node@.children =~= n0.children.push(leafv));
                    assert(node@ =~~= r.0);
                }
                true
            },
        }
    } else {
        match found {
            Some(pos) => {
                proof {
                    assert(n0.children[pos as int] == node.children@[pos as int]@);
                }
                let is_file = match node.children[pos].kind {
                    NodeKind::File => true,
                    NodeKind::Directory => false,
                };
                if is_file {
                    proof {
                        assert(insert_file_v(n0, cw, i as int, leafv).0 == n0);
                    }
                    false
                } else {
                    let mut child = node.children.remove(pos);
                    proof {
                        assert(child@ == n0.children[pos as int]);
                        assert(wf_node(child@));
                        lemma_sum_element_le(n0.children, pos as int);
                    }
                    let ins = insert_file_node(&mut child, comps, i + 1, leaf);
                    node.children.insert(pos, child);
                    proof {
                        assert(node.children@ =~= old(node).children@.update(
                            pos as int,
                            child,
                        ));
                    }
                    if ins {
                        node.aggregate.total_size = node.aggregate.total_size + s;
                        node.aggregate.total_tokens = node.aggregate.total_tokens + t;
                    }
                    proof {
                        let r = insert_file_v(n0, cw, i as int, leafv);
                        let rc = insert_file_v(n0.children[pos as int], cw, i + 1, leafv);
                        if ins {
                            assert(node@.children =~= n0.children.update(pos as int, rc.0));
                            assert(node@ =~~= r.0);
                        } else {
                            assert(node@.children =~= n0.children);
                            assert(node@ =~~= n0);
                        }
                    }
                    ins
                }
            },
            None => {
                let mut child = new_dir_node(comps[i].clone());
                proof {
                    assert(child@ == empty_dir_v(cw[i as int]));
                    assert(wf_node(child@));
                    lemma_insert_file_fresh(cw, i + 1, leafv, cw[i as int]);
                }
                let ins = insert_file_node(&mut child, comps, i + 1, leaf);
                assert(ins);
                node.children.push(child);
                node.aggregate.total_size = node.aggregate.total_size + s;
                node.aggregate.total_tokens = node.aggregate.total_tokens + t;
                proof {
                    let r = insert_file_v(n0, cw, i as int, leafv);
                    let rc = insert_file_v(empty_dir_v(cw[i as int]), cw, i + 1, leafv);
                    assert(node@.children =~= n0.children.push(rc.0));
                    assert(node@ =~~= r.0);
                }
                true
            },
        }
    }
}

fn insert_dir_node(node: &mut TreeNode, comps: &Vec<String>, i: usize)
    requires
        wf_node(old(node)@),
        old(node)@.kind is Directory,
        i <= comps@.len(),
    ensures
        final(node)@ == insert_dir_v(old(node)@, strings_view(comps@), i as int),
    decreases comps@.len() - i,
{
    let ghost n0 = node@;
    let ghost cw = strings_view(comps@);
    proof {
        assert(n0.children =~= children_view(old(node).children@));
    }
    if i == comps.len() {
        return ;
    }
    let found = find_child(&node.children, &comps[i]);
    proof {
        lemma_find_idx(n0.children, cw[i as int], 0);
    }
    match found {
        Some(pos) => {
            proof {
                assert(n0.children[pos as int] == node.children@[pos as int]@);
            }
            let is_file = match node.children[pos].kind {
                NodeKind::File => true,
                NodeKind::Directory => false,
            };
            if is_file {
                proof {
                    assert(insert_dir_v(n0, cw, i as int) == n0);
                }
                return ;
            }
            let mut child = node.children.remove(pos);
            proof {
                assert(child@ == n0.children[pos as int]);
                assert(wf_node(child@));
            }
            insert_dir_node(&mut child, comps, i + 1);
            node.children.insert(pos, child);
            proof {
                assert(node.children@ =~= old(node).children@.update(pos as int, child));
                let c2 = insert_dir_v(n0.children[pos as int], cw, i + 1);
                assert(node@.children =~= n0.children.update(pos as int, c2));
                assert(node@ =~~= insert_dir_v(n0, cw, i as int));
            }
        },
        None => {
            let mut child = new_dir_node(comps[i].clone());
            proof {
                assert(child@ == empty_dir_v(cw[i as int]));
                assert(wf_node(child@));
            }
            insert_dir_node(&mut child, comps, i + 1);
            node.children.push(child);
            proof {
                let c2 = insert_dir_v(empty_dir_v(cw[i as int]), cw, i + 1);
                assert(node@.children =~= n0.children.push(c2));
                assert(node@ =~~= insert_dir_v(n0, cw, i as int));
            }
        },
    }
}

/// Every directory node annotated with its accumulated totals; file nodes
/// keep the annotation they were inserted with.
pub open spec fn annotate_v(n: NodeV) -> NodeV
    decreases n,
{
    NodeV {
        annotation: if n.kind is Directory {
            Some(dir_annotation_of(n.size, n.tokens))
        } else {
            n.annotation
        },
        children: Seq::new(
            n.children.len(),
            |i: int|
                if 0 <= i < n.children.len() {
                    annotate_v(n.children[i])
                } else {
                    arbitrary()
                },
        ),
        ..n
    }
}

/// Annotating settles on the first pass: a second pass changes nothing.
pub proof fn lemma_annotate_idempotent(n: NodeV)
    ensures
        annotate_v(annotate_v(n)) == annotate_v(n),
    decreases n,
{
    reveal_with_fuel(annotate_v, 3);
    let a = annotate_v(n);
    assert forall|i: int| 0 <= i < a.children.len() implies #[trigger] annotate_v(a).children[i]
        == a.children[i] by {
        assert(annotate_v(a).children[i] == annotate_v(a.children[i]));
        assert(a.children[i] == annotate_v(n.children[i]));
        lemma_annotate_idempotent(n.children[i]);
    }
    assert(annotate_v(a).children.len() == a.children.len());
    assert(annotate_v(a).children =~= a.children);
    assert(annotate_v(a) =~~= a);
}

fn annotate_node(node: &mut TreeNode)
    ensures
        final(node)@ == annotate_v(old(node)@),
    decreases *node,
{
    let ghost n0 = node@;
    proof {
        assert(n0.children =~= children_view(old(node).children@));
    }
    let mut j: usize = 0;
    while j < node.children.len()
        invariant
            j <= node.children@.len(),
            node.children@.len() == old(node).children@.len(),
            node.label == old(node).label,
            node.kind == old(node).kind,
            node.annotation == old(node).annotation,
            node.aggregate == old(node).aggregate,
            n0 == old(node)@,
            forall|q: int|
                0 <= q < j ==> #[trigger] node.children@[q]@ == annotate_v(n0.children[q]),
            forall|q: int|
                j <= q < node.children@.len() ==> #[trigger] node.children@[q] == old(
                    node,
                ).children@[q],
        decreases node.children@.len() - j,
    {
        let ghost pre = node.children@;
        let mut c = node.children.remove(j);
        proof {
            assert(c == old(node).children@[j as int]);
            assert(c@ == n0.children[j as int]);
        }
        annotate_node(&mut c);
        node.children.insert(j, c);
        proof {
            assert(node.children@ =~= pre.update(j as int, c));
        }
        j += 1;
    }
    match node.kind {
        NodeKind::Directory => {
            let ann = dir_annotation(node.aggregate.total_size, node.aggregate.total_tokens);
            node.annotation = Some(ann);
        },
        NodeKind::File => {},
    }
    proof {
        assert forall|q: int| 0 <= q < node.children@.len() implies node@.children[q]
            == annotate_v(n0).children[q] by {
            assert(node@.children[q] == node.children@[q]@);
            assert(node.children@[q]@ == annotate_v(n0.children[q]));
            assert(annotate_v(n0).children[q] == annotate_v(n0.children[q]));
        }
        assert(node@.children =~= annotate_v(n0).children);
        assert(node@ =~~= annotate_v(n0));
    }
}

/// The line a node prints: its indentation, its label, and its annotation in
/// parentheses.
pub open spec fn render_line_v(n: NodeV, indent: Seq<char>) -> Seq<char> {
    match n.annotation {
        Some(a) => indent + n.label + " ("@ + a + ")"@ + "\n"@,
        None => indent + n.label + "\n"@,
    }
}

/// Depth-first, pre-order rendering: a node's line, then its children one
/// indentation step deeper. A file node without an annotation was suppressed
/// from display and prints nothing.
pub open spec fn render_v(n: NodeV, indent: Seq<char>) -> Seq<char>
    decreases n, 0int,
{
    if n.kind is File && n.annotation is None {
        Seq::empty()
    } else {
        render_line_v(n, indent) + render_range_v(
            n.children,
            0,
            n.children.len() as int,
            indent + "    "@,
        )
    }
}

/// The renderings of `cs[from..to]`, concatenated.
pub open spec fn render_range_v(cs: Seq<NodeV>, from: int, to: int, indent: Seq<char>) -> Seq<
    char,
>
    decreases cs, to - from,
{
    if from < 0 || from >= to || to > cs.len() {
        Seq::empty()
    } else {
        render_v(cs[from], indent) + render_range_v(cs, from + 1, to, indent)
    }
}

proof fn lemma_render_range_snoc(cs: Seq<NodeV>, from: int, to: int, indent: Seq<char>)
    requires
        0 <= from <= to < cs.len(),
    ensures
        render_range_v(cs, from, to + 1, indent) == render_range_v(cs, from, to, indent)
            + render_v(cs[to], indent),
    decreases to - from,
{
    if from == to {
        assert(render_range_v(cs, from, to, indent) =~= Seq::<char>::empty());
        assert(render_range_v(cs, to + 1, to + 1, indent) =~= Seq::<char>::empty());
        assert(render_range_v(cs, from, to + 1, indent) =~= render_v(cs[to], indent));
    } else {
        lemma_render_range_snoc(cs, from + 1, to, indent);
        assert(render_range_v(cs, from, to + 1, indent) =~= render_range_v(cs, from, to, indent)
            + render_v(cs[to], indent));
    }
}

fn render_node(node: &TreeNode, indent: &String, out: &mut String)
    ensures
        final(out)@ == old(out)@ + render_v(node@, indent@),
    decreases *node,
{
    let ghost n0 = node@;
    proof {
        assert(n0.children =~= children_view(node.children@));
    }
    let skip = match (&node.kind, &node.annotation) {
        (NodeKind::File, Option::None) => true,
        _ => false,
    };
    if skip {
        proof {
            assert(final(out)@ =~= old(out)@ + render_v(n0, indent@));
        }
        return ;
    }
    out.append(indent.as_str());
    out.append(node.label.as_str());
    match &node.annotation {
        Some(a) => {
            out.append(" (");
            out.append(a.as_str());
            out.append(")");
        },
        None => {},
    }
    out.append("\n");
    proof {
        assert(out@ =~= old(out)@ + render_line_v(n0, indent@));
    }
    let mut child_indent = indent.clone();
    child_indent.append("    ");
    let ghost ci = indent@ + "    "@;
    let mut j: usize = 0;
    while j < node.children.len()
        invariant
            j <= node.children@.len(),
            n0 == node@,
            n0.children == children_view(node.children@),
            child_indent@ == ci,
            out@ == old(out)@ + render_line_v(n0, indent@) + render_range_v(
                n0.children,
                0,
                j as int,
                ci,
            ),
        decreases node.children@.len() - j,
    {
        proof {
            assert(node.children@[j as int]@ == n0.children[j as int]);
        }
        render_node(&node.children[j], &child_indent, out);
        proof {
            lemma_render_range_snoc(n0.children, 0, j as int, ci);
            assert(out@ =~= old(out)@ + render_line_v(n0, indent@) + render_range_v(
                n0.children,
                0,
                j as int + 1,
                ci,
            ));
        }
        j += 1;
    }
    proof {
        assert(out@ =~= old(out)@ + render_v(n0, indent@));
    }
}

/// The size and token contribution that a classified file of raw size `size`
/// makes to the totals of every ancestor directory: size and tokens for a
/// tokenizable file in range, size alone for binary, invalidly encoded and
/// oversized files, and nothing at all for an empty file — that asymmetry
/// (an empty file's size not counting, unlike the other non-tokenizable
/// cases) is deliberate policy.
pub open spec fn contribution_of(c: Classification, size: u64) -> (nat, nat) {
    match c {
        Classification::Valid { token_count } => (size as nat, token_count as nat),
        Classification::Empty => (0, 0),
        Classification::Binary => (size as nat, 0),
        Classification::InvalidEncoding => (size as nat, 0),
        Classification::Oversized => (size as nat, 0),
    }
}

/// Whether a tokenizable file's token count passes the configured range; the
/// range never applies to the other classifications.
pub open spec fn passes_range(c: Classification, min_token: usize, max_token: usize) -> bool {
    match c {
        Classification::Valid { token_count } => min_token <= token_count && token_count
            <= max_token,
        _ => true,
    }
}

/// Whether a classified file's node is displayed: a tokenizable file always,
/// the rest only when suppression of non-valid files is off.
pub open spec fn displayed_of(c: Classification, only_valid: bool) -> bool {
    match c {
        Classification::Valid { .. } => true,
        _ => !only_valid,
    }
}

/// The file leaf that a classified file becomes: it carries its own
/// contribution as its totals, and its annotation only when displayed.
pub open spec fn leaf_of(
    c: Classification,
    size: u64,
    label: Seq<char>,
    max_size_str: Seq<char>,
    only_valid: bool,
) -> NodeV {
    NodeV {
        label,
        kind: NodeKind::File,
        children: Seq::empty(),
        annotation: if displayed_of(c, only_valid) {
            Some(file_annotation_of(c, size, max_size_str))
        } else {
            None
        },
        size: contribution_of(c, size).0,
        tokens: contribution_of(c, size).1,
    }
}

/// The effect of recording one classified file on the tree: a tokenizable
/// file whose token count misses the range changes nothing; otherwise its
/// leaf is inserted along the path with its contribution.
pub open spec fn add_classified_v(
    root: NodeV,
    comps: Seq<Seq<char>>,
    c: Classification,
    size: u64,
    max_size_str: Seq<char>,
    min_token: usize,
    max_token: usize,
    only_valid: bool,
) -> (NodeV, bool) {
    if comps.len() == 0 || !passes_range(c, min_token, max_token) {
        (root, false)
    } else {
        insert_file_v(root, comps, 0, leaf_of(c, size, comps.last(), max_size_str, only_valid))
    }
}

/// Builds the directory tree one walked entry at a time, then renders it.
pub struct TreeBuilder {
    pub root: TreeNode,
    pub max_size: u64,
    pub max_size_str: String,
    pub min_token: usize,
    pub max_token: usize,
    pub only_valid: bool,
}

impl TreeBuilder {
    /// Whether the builder's configuration is unchanged from `other`'s.
    pub open spec fn same_config(&self, other: &TreeBuilder) -> bool {
        &&& self.max_size == other.max_size
        &&& self.max_size_str == other.max_size_str
        &&& self.min_token == other.min_token
        &&& self.max_token == other.max_token
        &&& self.only_valid == other.only_valid
    }

    pub fn new(
        root_label: String,
        max_size: u64,
        max_size_str: String,
        min_token: usize,
        max_token: usize,
        only_valid: bool,
    ) -> (b: TreeBuilder)
        ensures
            b.root@ == empty_dir_v(root_label@),
            wf_node(b.root@),
            b.root@.kind is Directory,
            b.max_size == max_size,
            b.max_size_str == max_size_str,
            b.min_token == min_token,
            b.max_token == max_token,
            b.only_valid == only_valid,
    {
        TreeBuilder {
            root: new_dir_node(root_label),
            max_size,
            max_size_str,
            min_token,
            max_token,
            only_valid,
        }
    }

    /// The tree's accumulated totals at the root.
    pub fn totals(&self) -> (r: (u64, u64))
        ensures
            r.0 as nat == self.root@.size,
            r.1 as nat == self.root@.tokens,
    {
        (self.root.aggregate.total_size, self.root.aggregate.total_tokens)
    }

    /// Records one directory entry of the walk, given as its path components
    /// relative to the root.
    pub fn add_directory(&mut self, comps: &Vec<String>)
        requires
            wf_node(old(self).root@),
            old(self).root@.kind is Directory,
        ensures
            final(self).same_config(old(self)),
            final(self).root@ == insert_dir_v(old(self).root@, strings_view(comps@), 0),
            wf_node(final(self).root@),
            final(self).root@.kind is Directory,
            final(self).root@.size == old(self).root@.size,
            final(self).root@.tokens == old(self).root@.tokens,
    {
        proof {
            lemma_insert_dir_wf(self.root@, strings_view(comps@), 0);
        }
        insert_dir_node(&mut self.root, comps, 0);
    }

    /// Records one file entry of the walk, already classified. A tokenizable
    /// file whose token count misses the range is left out entirely; every
    /// other classification contributes per the policy and its node goes in,
    /// annotated when displayed. Nothing changes either when the final
    /// component already exists in the tree.
    pub fn add_classified(&mut self, comps: &Vec<String>, c: Classification, size: u64) -> (ins:
        bool)
        requires
            wf_node(old(self).root@),
            old(self).root@.kind is Directory,
            old(self).root@.size + contribution_of(c, size).0 <= u64::MAX,
            old(self).root@.tokens + contribution_of(c, size).1 <= u64::MAX,
        ensures
            final(self).same_config(old(self)),
            wf_node(final(self).root@),
            final(self).root@.kind is Directory,
            ({
                let r = add_classified_v(
                    old(self).root@,
                    strings_view(comps@),
                    c,
                    size,
                    old(self).max_size_str@,
                    old(self).min_token,
                    old(self).max_token,
                    old(self).only_valid,
                );
                final(self).root@ == r.0 && ins == r.1
            }),
            ins ==> final(self).root@.size == old(self).root@.size + contribution_of(c, size).0
                && final(self).root@.tokens == old(self).root@.tokens + contribution_of(
                c,
                size,
            ).1,
            !ins ==> final(self).root@ == old(self).root@,
    {
        if comps.len() == 0 {
            return false;
        }
        let in_range = match c {
            Classification::Valid { token_count } => self.min_token <= token_count && token_count
                <= self.max_token,
            _ => true,
        };
        if !in_range {
            return false;
        }
        let shown = match c {
            Classification::Valid { .. } => true,
            _ => !self.only_valid,
        };
        let st = match c {
            Classification::Valid { token_count } => (size, token_count as u64),
            Classification::Empty => (0u64, 0u64),
            Classification::Binary => (size, 0u64),
            Classification::InvalidEncoding => (size, 0u64),
            Classification::Oversized => (size, 0u64),
        };
        let annotation = if shown {
            Some(file_annotation(c, size, self.max_size_str.as_str()))
        } else {
            None
        };
        let leaf = TreeNode {
            label: comps[comps.len() - 1].clone(),
            kind: NodeKind::File,
            children: Vec::new(),
            annotation,
            aggregate: Aggregate { total_size: st.0, total_tokens: st.1 },
        };
        proof {
            assert(leaf.children@.len() == 0);
            assert(leaf@.children =~= Seq::<NodeV>::empty());
            assert(leaf@ =~~= leaf_of(
                c,
                size,
                strings_view(comps@).last(),
                self.max_size_str@,
                self.only_valid,
            ));
            lemma_insert_file_wf(self.root@, strings_view(comps@), 0, leaf@);
        }
        insert_file_node(&mut self.root, comps, 0, leaf)
    }

    /// Classifies one file entry of the walk from its raw bytes and records
    /// it. When the contribution would not fit into the totals, nothing is
    /// recorded.
    pub fn add_file(&mut self, comps: &Vec<String>, raw: &Vec<u8>, size: u64, tok: &Tokenizer) -> (
        ins: bool)
        requires
            wf_node(old(self).root@),
            old(self).root@.kind is Directory,
        ensures
            final(self).same_config(old(self)),
            wf_node(final(self).root@),
            final(self).root@.kind is Directory,
            ({
                let c = classification_of(raw@, size, old(self).max_size, tok.scheme_spec());
                let cpair = contribution_of(c, size);
                if old(self).root@.size + cpair.0 <= u64::MAX && old(self).root@.tokens
                    + cpair.1 <= u64::MAX {
                    let r = add_classified_v(
                        old(self).root@,
                        strings_view(comps@),
                        c,
                        size,
                        old(self).max_size_str@,
                        old(self).min_token,
                        old(self).max_token,
                        old(self).only_valid,
                    );
                    final(self).root@ == r.0 && ins == r.1 && (ins ==> final(self).root@.size
                        == old(self).root@.size + cpair.0 && final(self).root@.tokens == old(
                        self,
                    ).root@.tokens + cpair.1)
                } else {
                    final(self).root@ == old(self).root@ && !ins
                }
            }),
            !ins ==> final(self).root@ == old(self).root@,
    {
        let c = crate::classify::classify_bytes(raw, size, self.max_size, tok);
        let cpair = match c {
            Classification::Valid { token_count } => (size, token_count as u64),
            Classification::Empty => (0u64, 0u64),
            Classification::Binary => (size, 0u64),
            Classification::InvalidEncoding => (size, 0u64),
            Classification::Oversized => (size, 0u64),
        };
        let totals = self.totals();
        if cpair.0 <= u64::MAX - totals.0 && cpair.1 <= u64::MAX - totals.1 {
            self.add_classified(comps, c, size)
        } else {
            false
        }
    }

    /// Annotates every directory with its accumulated totals and renders the
    /// whole tree, depth first, one line per displayed node.
    pub fn finish(&mut self) -> (r: String)
        ensures
            final(self).same_config(old(self)),
            final(self).root@ == annotate_v(old(self).root@),
            r@ == render_v(annotate_v(old(self).root@), Seq::<char>::empty()),
    {
        annotate_node(&mut self.root);
        let mut out = String::new();
        let indent = String::new();
        render_node(&self.root, &indent, &mut out);
        proof {
            assert(out@ =~= render_v(annotate_v(old(self).root@), Seq::<char>::empty()));
        }
        out
    }
}

/// The node reached from `n` by following the labels `comps[i..e)`.
pub open spec fn lookup_v(n: NodeV, comps: Seq<Seq<char>>, i: int, e: int) -> Option<NodeV>
    decreases e - i,
{
    if i >= e {
        Some(n)
    } else {
        let k = find_idx(n.children, comps[i], 0);
        if k >= 0 {
            lookup_v(n.children[k], comps, i + 1, e)
        } else {
            None
        }
    }
}

/// When a file leaf goes in along `comps`, the totals of every node on the
/// path — the root and each ancestor directory of the leaf — grow by exactly
/// the leaf's contribution; a directory created on the way starts with
/// exactly that contribution; and nothing else changes on the path.
pub proof fn lemma_insert_file_ancestors(
    n: NodeV,
    comps: Seq<Seq<char>>,
    i: int,
    leaf: NodeV,
    e: int,
)
    requires
        wf_node(n),
        n.kind is Directory,
        0 <= i < comps.len(),
        leaf.kind is File,
        leaf.children.len() == 0,
        insert_file_v(n, comps, i, leaf).1,
        i <= e < comps.len(),
    ensures
        ({
            let n2 = insert_file_v(n, comps, i, leaf).0;
            match lookup_v(n, comps, i, e) {
                Some(a) => lookup_v(n2, comps, i, e) matches Some(a2) && a2.size == a.size
                    + leaf.size && a2.tokens == a.tokens + leaf.tokens,
                None => lookup_v(n2, comps, i, e) matches Some(a2) && a2.size == leaf.size
                    && a2.tokens == leaf.tokens,
            }
        }),
    decreases e - i,
{
    let n2 = insert_file_v(n, comps, i, leaf).0;
    let k = find_idx(n.children, comps[i], 0);
    lemma_find_idx(n.children, comps[i], 0);
    if e == i {
        lemma_insert_file_wf(n, comps, i, leaf);
    } else {
        if k >= 0 {
            let child = n.children[k];
            assert(wf_node(child));
            assert(!(child.kind is File));
            let r = insert_file_v(child, comps, i + 1, leaf);
            lemma_insert_file_wf(child, comps, i + 1, leaf);
            lemma_find_idx_update(n.children, comps[i], k, r.0);
            assert(n2.children == n.children.update(k, r.0));
            assert(n2.children[k] == r.0);
            lemma_insert_file_ancestors(child, comps, i + 1, leaf, e);
        } else {
            let fresh = empty_dir_v(comps[i]);
            lemma_insert_file_fresh(comps, i + 1, leaf, comps[i]);
            let r = insert_file_v(fresh, comps, i + 1, leaf);
            lemma_insert_file_wf(fresh, comps, i + 1, leaf);
            lemma_find_idx_push(n.children, comps[i], r.0);
            assert(n2.children == n.children.push(r.0));
            assert(n2.children[n.children.len() as int] == r.0);
            assert(lookup_v(n, comps, i, e) is None);
            lemma_insert_file_ancestors(fresh, comps, i + 1, leaf, e);
        }
    }
}

/// The sizes of all descendant file nodes of the nodes of `cs`, summed.
pub open spec fn files_sizes_of(cs: Seq<NodeV>) -> nat
    decreases cs, 0int,
{
    if cs.len() == 0 {
        0
    } else {
        subtree_file_sizes(cs[0]) + files_sizes_of(cs.subrange(1, cs.len() as int))
    }
}

/// The sizes of all file nodes in the subtree of `n`, summed.
pub open spec fn subtree_file_sizes(n: NodeV) -> nat
    decreases n, 1int,
{
    if n.kind is File {
        n.size
    } else {
        files_sizes_of(n.children)
    }
}

/// The token counts of all descendant file nodes of the nodes of `cs`,
/// summed.
pub open spec fn files_tokens_of(cs: Seq<NodeV>) -> nat
    decreases cs, 0int,
{
    if cs.len() == 0 {
        0
    } else {
        subtree_file_tokens(cs[0]) + files_tokens_of(cs.subrange(1, cs.len() as int))
    }
}

/// The token counts of all file nodes in the subtree of `n`, summed.
pub open spec fn subtree_file_tokens(n: NodeV) -> nat
    decreases n, 1int,
{
    if n.kind is File {
        n.tokens
    } else {
        files_tokens_of(n.children)
    }
}

/// The directory aggregate invariant: in a well-formed tree a directory's
/// totals equal the summed contributions of all its descendant file nodes —
/// each counted exactly once, the directory itself never.
pub proof fn lemma_directory_totals_are_file_totals(n: NodeV)
    requires
        wf_node(n),
        n.kind is Directory,
    ensures
        n.size == subtree_file_sizes(n),
        n.tokens == subtree_file_tokens(n),
    decreases n, 1int,
{
    lemma_sums_are_file_sums(n.children);
}

proof fn lemma_sums_are_file_sums(cs: Seq<NodeV>)
    requires
        forall|i: int| 0 <= i < cs.len() ==> wf_node(#[trigger] cs[i]),
    ensures
        sum_sizes(cs) == files_sizes_of(cs),
        sum_tokens(cs) == files_tokens_of(cs),
    decreases cs, 0int,
{
    if cs.len() > 0 {
        assert(wf_node(cs[0]));
        if cs[0].kind is Directory {
            lemma_directory_totals_are_file_totals(cs[0]);
        }
        assert(subtree_file_sizes(cs[0]) == cs[0].size);
        assert(subtree_file_tokens(cs[0]) == cs[0].tokens);
        let rest = cs.subrange(1, cs.len() as int);
        assert forall|i: int| 0 <= i < rest.len() implies wf_node(#[trigger] rest[i]) by {
            assert(rest[i] == cs[i + 1]);
            assert(wf_node(cs[i + 1]));
        }
        lemma_sums_are_file_sums(rest);
        assert(cs.drop_first() =~= rest);
        assert(sum_sizes(cs) == cs[0].size + sum_sizes(rest));
        assert(files_sizes_of(cs) == subtree_file_sizes(cs[0]) + files_sizes_of(rest));
        assert(sum_tokens(cs) == cs[0].tokens + sum_tokens(rest));
        assert(files_tokens_of(cs) == subtree_file_tokens(cs[0]) + files_tokens_of(rest));
    }
}

/// A built tree rendered twice gives the identical string: annotating
/// settles on the first pass, and rendering is a function of the tree.
/// Recording one classified file changes the totals of exactly the nodes on
/// its path: a file that misses the token range changes nothing at all, and
/// an inserted one adds its contribution — and nothing else — to the root
/// and to every directory along the way, directories created on the way
/// starting with exactly that contribution.
pub proof fn lemma_add_classified_ancestors(
    root: NodeV,
    comps: Seq<Seq<char>>,
    c: Classification,
    size: u64,
    max_size_str: Seq<char>,
    min_token: usize,
    max_token: usize,
    only_valid: bool,
    e: int,
)
    requires
        wf_node(root),
        root.kind is Directory,
        comps.len() > 0,
        0 <= e < comps.len(),
    ensures
        ({
            let r = add_classified_v(
                root,
                comps,
                c,
                size,
                max_size_str,
                min_token,
                max_token,
                only_valid,
            );
            let gain = contribution_of(c, size);
            &&& (!passes_range(c, min_token, max_token) ==> r.0 == root && !r.1)
            &&& (!r.1 ==> r.0 == root)
            &&& (r.1 ==> match lookup_v(root, comps, 0, e) {
                Some(an) => lookup_v(r.0, comps, 0, e) matches Some(an2) && an2.size == an.size
                    + gain.0 && an2.tokens == an.tokens + gain.1,
                None => lookup_v(r.0, comps, 0, e) matches Some(an2) && an2.size == gain.0
                    && an2.tokens == gain.1,
            })
        }),
{
    if passes_range(c, min_token, max_token) {
        let leaf = leaf_of(c, size, comps.last(), max_size_str, only_valid);
        assert(leaf.size == contribution_of(c, size).0);
        assert(leaf.tokens == contribution_of(c, size).1);
        lemma_insert_file_wf(root, comps, 0, leaf);
        if insert_file_v(root, comps, 0, leaf).1 {
            lemma_insert_file_ancestors(root, comps, 0, leaf, e);
        }
    }
}

/// An oversized file — whatever its bytes hold — is classified oversized,
/// its annotation names its size against the cap, and it contributes exactly
/// its raw size and no tokens to the root and to every directory on its
/// path.
pub proof fn lemma_oversized_file_effect(
    root: NodeV,
    comps: Seq<Seq<char>>,
    raw: Seq<u8>,
    size: u64,
    max_size: u64,
    scheme: Scheme,
    max_size_str: Seq<char>,
    min_token: usize,
    max_token: usize,
    only_valid: bool,
    e: int,
)
    requires
        wf_node(root),
        root.kind is Directory,
        comps.len() > 0,
        0 <= e < comps.len(),
        size > max_size,
    ensures
        classification_of(raw, size, max_size, scheme) == Classification::Oversized,
        contribution_of(Classification::Oversized, size) == (size as nat, 0 as nat),
        leaf_of(Classification::Oversized, size, comps.last(), max_size_str, false).annotation
            == Some(file_annotation_of(Classification::Oversized, size, max_size_str)),
        ({
            let r = add_classified_v(
                root,
                comps,
                Classification::Oversized,
                size,
                max_size_str,
                min_token,
                max_token,
                only_valid,
            );
            r.1 ==> match lookup_v(root, comps, 0, e) {
                Some(an) => lookup_v(r.0, comps, 0, e) matches Some(an2) && an2.size == an.size
                    + size && an2.tokens == an.tokens,
                None => lookup_v(r.0, comps, 0, e) matches Some(an2) && an2.size == size
                    && an2.tokens == 0,
            }
        }),
{
    lemma_add_classified_ancestors(
        root,
        comps,
        Classification::Oversized,
        size,
        max_size_str,
        min_token,
        max_token,
        only_valid,
        e,
    );
}

/// The token-range filter: a tokenizable file whose count misses the range
/// is omitted from the tree entirely and changes no node's totals anywhere;
/// one whose count passes contributes exactly its raw size and its token
/// count to the root and to every directory on its path.
pub proof fn lemma_token_range_filter(
    root: NodeV,
    comps: Seq<Seq<char>>,
    count: usize,
    size: u64,
    max_size_str: Seq<char>,
    min_token: usize,
    max_token: usize,
    only_valid: bool,
    e: int,
)
    requires
        wf_node(root),
        root.kind is Directory,
        comps.len() > 0,
        0 <= e < comps.len(),
    ensures
        ({
            let r = add_classified_v(
                root,
                comps,
                Classification::Valid { token_count: count },
                size,
                max_size_str,
                min_token,
                max_token,
                only_valid,
            );
            &&& ((count < min_token || count > max_token) ==> r.0 == root && !r.1)
            &&& (min_token <= count && count <= max_token && r.1 ==> match lookup_v(
                root,
                comps,
                0,
                e,
            ) {
                Some(an) => lookup_v(r.0, comps, 0, e) matches Some(an2) && an2.size == an.size
                    + size && an2.tokens == an.tokens + count,
                None => lookup_v(r.0, comps, 0, e) matches Some(an2) && an2.size == size
                    && an2.tokens == count,
            })
        }),
{
    lemma_add_classified_ancestors(
        root,
        comps,
        Classification::Valid { token_count: count },
        size,
        max_size_str,
        min_token,
        max_token,
        only_valid,
        e,
    );
}

/// The end-to-end scenario: into an empty root go a tokenizable file of
/// twenty tokens at the top and, under one subdirectory, a binary file and a
/// tokenizable file of five tokens, with no range filter and no suppression.
/// The subdirectory's totals come to its two files' sizes and five tokens,
/// the root's to all three sizes and twenty-five tokens, and annotation puts
/// exactly those totals on both directories.
pub proof fn lemma_end_to_end_scenario(
    root_label: Seq<char>,
    a: Seq<char>,
    sub: Seq<char>,
    b: Seq<char>,
    c: Seq<char>,
    sa: u64,
    sb: u64,
    sc: u64,
    max_size_str: Seq<char>,
)
    requires
        a != sub,
        b != c,
    ensures
        ({
            let va = Classification::Valid { token_count: 20 };
            let vc = Classification::Valid { token_count: 5 };
            let t1 = add_classified_v(
                empty_dir_v(root_label),
                seq![a],
                va,
                sa,
                max_size_str,
                0,
                usize::MAX,
                false,
            );
            let t2 = insert_dir_v(t1.0, seq![sub], 0);
            let t3 = add_classified_v(
                t2,
                seq![sub, b],
                Classification::Binary,
                sb,
                max_size_str,
                0,
                usize::MAX,
                false,
            );
            let t4 = add_classified_v(t3.0, seq![sub, c], vc, sc, max_size_str, 0, usize::MAX, false);
            &&& t1.1 && t3.1 && t4.1
            &&& t4.0.size == sa + sb + sc
            &&& t4.0.tokens == 25
            &&& t4.0.children.len() == 2
            &&& t4.0.children[1].label == sub
            &&& t4.0.children[1].size == sb + sc
            &&& t4.0.children[1].tokens == 5
            &&& annotate_v(t4.0).annotation == Some(
                dir_annotation_of((sa + sb + sc) as nat, 25),
            )
            &&& annotate_v(t4.0).children[1].annotation == Some(
                dir_annotation_of((sb + sc) as nat, 5),
            )
        }),
{
    reveal_with_fuel(find_idx, 4);
    reveal_with_fuel(insert_file_v, 3);
    reveal_with_fuel(insert_dir_v, 3);
    let va = Classification::Valid { token_count: 20 };
    let vc = Classification::Valid { token_count: 5 };
    let root0 = empty_dir_v(root_label);
    let leafa = leaf_of(va, sa, a, max_size_str, false);
    assert(leafa.size == sa as nat && leafa.tokens == 20);

    let cw1 = seq![a];
    assert(cw1.len() == 1 && cw1[0] == a && cw1.last() == a);
    assert(passes_range(va, 0, usize::MAX));
    assert(find_idx(root0.children, a, 0) == -1);
    let t1 = add_classified_v(root0, cw1, va, sa, max_size_str, 0, usize::MAX, false);
    assert(t1.1);
    assert(t1.0.children == root0.children.push(leafa));
    assert(t1.0.children.len() == 1 && t1.0.children[0] == leafa);
    assert(t1.0.size == sa as nat && t1.0.tokens == 20 && t1.0.kind is Directory);

    let cw2 = seq![sub];
    assert(cw2.len() == 1 && cw2[0] == sub && cw2.last() == sub);
    assert(t1.0.children[0].label == a);
    assert(find_idx(t1.0.children, sub, 0) == -1);
    let sub0 = insert_dir_v(empty_dir_v(sub), cw2, 1);
    assert(sub0 == empty_dir_v(sub));
    let t2 = insert_dir_v(t1.0, cw2, 0);
    assert(t2.children == t1.0.children.push(sub0));
    assert(t2.children.len() == 2 && t2.children[0] == leafa && t2.children[1] == sub0);
    assert(t2.size == sa as nat && t2.tokens == 20 && t2.kind is Directory);

    let cw3 = seq![sub, b];
    assert(cw3.len() == 2 && cw3[0] == sub && cw3[1] == b && cw3.last() == b);
    let leafb = leaf_of(Classification::Binary, sb, b, max_size_str, false);
    assert(leafb.size == sb as nat && leafb.tokens == 0);
    assert(find_idx(t2.children, sub, 0) == 1);
    assert(find_idx(sub0.children, b, 0) == -1);
    let sub1 = insert_file_v(sub0, cw3, 1, leafb).0;
    assert(insert_file_v(sub0, cw3, 1, leafb).1);
    assert(sub1.children == sub0.children.push(leafb));
    assert(sub1.children.len() == 1 && sub1.children[0] == leafb);
    assert(sub1.label == sub && sub1.size == sb as nat && sub1.tokens == 0 && sub1.kind
        is Directory);
    let t3 = add_classified_v(t2, cw3, Classification::Binary, sb, max_size_str, 0, usize::MAX, false);
    assert(t3.1);
    assert(t3.0.children == t2.children.update(1, sub1));
    assert(t3.0.children.len() == 2 && t3.0.children[0] == leafa && t3.0.children[1] == sub1);
    assert(t3.0.size == sa + sb && t3.0.tokens == 20 && t3.0.kind is Directory);

    let cw4 = seq![sub, c];
    assert(cw4.len() == 2 && cw4[0] == sub && cw4[1] == c && cw4.last() == c);
    let leafc = leaf_of(vc, sc, c, max_size_str, false);
    assert(leafc.size == sc as nat && leafc.tokens == 5);
    assert(passes_range(vc, 0, usize::MAX));
    assert(find_idx(t3.0.children, sub, 0) == 1);
    assert(sub1.children[0].label == b);
    assert(find_idx(sub1.children, c, 0) == -1);
    let sub2 = insert_file_v(sub1, cw4, 1, leafc).0;
    assert(insert_file_v(sub1, cw4, 1, leafc).1);
    assert(sub2.children == sub1.children.push(leafc));
    assert(sub2.label == sub && sub2.size == sb + sc && sub2.tokens == 5);
    let t4 = add_classified_v(t3.0, cw4, vc, sc, max_size_str, 0, usize::MAX, false);
    assert(t4.1);
    assert(t4.0.children == t3.0.children.update(1, sub2));
    assert(t4.0.children.len() == 2 && t4.0.children[1] == sub2);
    assert(t4.0.size == sa + sb + sc && t4.0.tokens == 25 && t4.0.kind is Directory);

    assert(annotate_v(t4.0).annotation == Some(dir_annotation_of((sa + sb + sc) as nat, 25)));
    assert(annotate_v(t4.0).children[1] == annotate_v(sub2));
    assert(annotate_v(sub2).annotation == Some(dir_annotation_of((sb + sc) as nat, 5)));
}

pub proof fn lemma_rerender_identical(t: NodeV, indent: Seq<char>)
    ensures
        render_v(annotate_v(annotate_v(t)), indent) == render_v(annotate_v(t), indent),
{
    lemma_annotate_idempotent(t);
}

} // verus!
