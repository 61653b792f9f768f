//! Tree replication: discovery over the shallow children endpoint,
//! exclusion with propagation to descendants, ordered child lists, and the
//! strictly parent-before-child creation order.
use vstd::prelude::*;
use crate::jsonv::{spec_as_i64, spec_get, spec_str_field, str_field, JsonValue};
use crate::pattern::{glob_match_ci, invalid_glob_text, regex_ci_match_of, spec_glob_regex};
use crate::strutil::{chars_concat, chars_eq, chars_string, str_chars};

verus! {

/// The replication-local projection of a remote page.
pub struct TreeNode {
    pub id: String,
    /// Empty for the root of the walk.
    pub parent_id: Option<String>,
    pub title: String,
    /// The sibling order key the service reported.
    pub child_position: i64,
    /// The page body, once prefetched.
    pub body: Option<String>,
}

/// The index of the first node with the given id.
pub open spec fn spec_find_node(nodes: Seq<TreeNode>, id: Seq<char>) -> Option<int>
    decreases nodes.len(),
{
    if nodes.len() == 0 {
        None
    } else if nodes[0].id@ == id {
        Some(0)
    } else {
        match spec_find_node(nodes.drop_first(), id) {
            Some(k) => Some(k + 1),
            None => None,
        }
    }
}

/// The index of the first node with the given id, if any.
#[verifier::loop_isolation(false)]
pub fn find_node(nodes: &Vec<TreeNode>, id: &String) -> (r: Option<usize>)
    ensures
        match r {
            Some(k) => spec_find_node(nodes@, id@) == Some(k as int) && k < nodes@.len(),
            None => spec_find_node(nodes@, id@) is None,
        },
{
    let idc = str_chars(id.as_str());
    let ghost all = nodes@;
    proof {
        assert(all.subrange(0, all.len() as int) =~= all);
    }
    let mut i: usize = 0;
    while i < nodes.len()
        invariant
            i <= all.len(),
            idc@ == id@,
            forall|j: int| 0 <= j < i ==> #[trigger] all[j].id@ != id@,
        decreases all.len() - i,
    {
        let nc = str_chars(nodes[i].id.as_str());
        if chars_eq(&nc, &idc) {
            proof {
                lemma_find_node_first(all, id@, i as int);
            }
            return Some(i);
        }
        i += 1;
    }
    proof {
        match spec_find_node(all, id@) {
            Some(k) => {
                lemma_find_node_hit(all, id@);
                assert(all[k].id@ == id@);
                assert(false);
            },
            None => {},
        }
    }
    None
}

/// Where `spec_find_node` answers, it points at a node with that id.
proof fn lemma_find_node_hit(nodes: Seq<TreeNode>, id: Seq<char>)
    ensures
        spec_find_node(nodes, id) matches Some(k) ==> 0 <= k < nodes.len() && nodes[k].id@ == id,
    decreases nodes.len(),
{
    if nodes.len() > 0 && nodes[0].id@ != id {
        lemma_find_node_hit(nodes.drop_first(), id);
        match spec_find_node(nodes.drop_first(), id) {
            Some(k) => {
                assert(nodes.drop_first()[k] == nodes[k + 1]);
            },
            None => {},
        }
    }
}

/// The first index whose id matches is what `spec_find_node` names.
proof fn lemma_find_node_first(nodes: Seq<TreeNode>, id: Seq<char>, i: int)
    requires
        0 <= i < nodes.len(),
        nodes[i].id@ == id,
        forall|j: int| 0 <= j < i ==> #[trigger] nodes[j].id@ != id,
    ensures
        spec_find_node(nodes, id) == Some(i),
    decreases nodes.len(),
{
    if i == 0 {
    } else {
        assert forall|j: int| 0 <= j < i - 1 implies #[trigger] nodes.drop_first()[j].id@
            != id by {
            assert(nodes.drop_first()[j] == nodes[j + 1]);
        }
        assert(nodes.drop_first()[i - 1] == nodes[i]);
        lemma_find_node_first(nodes.drop_first(), id, i - 1);
    }
}

/// The parent's index for each node: the first node carrying the parent id,
/// or nothing for a root or an unknown parent.
#[verifier::loop_isolation(false)]
pub fn build_parent_idx(nodes: &Vec<TreeNode>) -> (r: Vec<Option<usize>>)
    ensures
        r@.len() == nodes@.len(),
        forall|i: int|
            0 <= i < nodes@.len() ==> #[trigger] r@[i] == (match nodes@[i].parent_id {
                Some(pid) => match spec_find_node(nodes@, pid@) {
                    Some(k) => Some(k as usize),
                    None => None::<usize>,
                },
                None => None::<usize>,
            }),
        forall|i: int|
            0 <= i < r@.len() ==> (match #[trigger] r@[i] {
                Some(p) => p < nodes@.len(),
                None => true,
            }),
{
    let mut r: Vec<Option<usize>> = Vec::new();
    let mut i: usize = 0;
    while i < nodes.len()
        invariant
            i <= nodes@.len(),
            r@.len() == i,
            forall|j: int|
                0 <= j < i ==> #[trigger] r@[j] == (match nodes@[j].parent_id {
                    Some(pid) => match spec_find_node(nodes@, pid@) {
                        Some(k) => Some(k as usize),
                        None => None::<usize>,
                    },
                    None => None::<usize>,
                }),
            forall|j: int|
                0 <= j < r@.len() ==> (match #[trigger] r@[j] {
                    Some(p) => p < nodes@.len(),
                    None => true,
                }),
        decreases nodes@.len() - i,
    {
        let entry: Option<usize> = match &nodes[i].parent_id {
            Some(pid) => find_node(nodes, pid),
            None => None,
        };
        r.push(entry);
        i += 1;
    }
    r
}

/// Which nodes the exclusion glob blocks directly: a non-root node whose
/// title matches. The root is never blocked.
#[verifier::loop_isolation(false)]
pub fn match_blocked(nodes: &Vec<TreeNode>, root: usize, glob: &str) -> (r: Result<
    Vec<bool>,
    String,
>)
    requires
        root < nodes@.len(),
    ensures
        match r {
            Ok(b) => {
                &&& b@.len() == nodes@.len()
                &&& forall|i: int|
                    0 <= i < b@.len() && i != root ==> regex_ci_match_of(
                        spec_glob_regex(glob@),
                        nodes@[i].title@,
                    ) == Some(#[trigger] b@[i])
                &&& !b@[root as int]
            },
            Err(e) => e@ == invalid_glob_text() && (exists|i: int|
                0 <= i < nodes@.len() && i != root && regex_ci_match_of(
                    spec_glob_regex(glob@),
                    (#[trigger] nodes@[i]).title@,
                ) is None),
        },
{
    let mut b: Vec<bool> = Vec::new();
    let mut i: usize = 0;
    while i < nodes.len()
        invariant
            i <= nodes@.len(),
            b@.len() == i,
            forall|j: int|
                0 <= j < i && j != root ==> regex_ci_match_of(
                    spec_glob_regex(glob@),
                    nodes@[j].title@,
                ) == Some(#[trigger] b@[j]),
            root < i ==> !b@[root as int],
        decreases nodes@.len() - i,
    {
        if i == root {
            b.push(false);
        } else {
            match glob_match_ci(glob, nodes[i].title.as_str()) {
                Ok(m) => {
                    b.push(m);
                },
                Err(e) => {
                    proof {
                        assert(regex_ci_match_of(
                            spec_glob_regex(glob@),
                            (nodes@[i as int]).title@,
                        ) is None);
                    }
                    return Err(e);
                },
            }
        }
        i += 1;
    }
    Ok(b)
}

/// Blocking respects the parent relation: a node whose parent is blocked is
/// blocked too.
pub open spec fn spec_closed(parent_idx: Seq<Option<usize>>, b: Seq<bool>) -> bool {
    forall|i: int|
        0 <= i < parent_idx.len() ==> match #[trigger] parent_idx[i] {
            Some(p) => b[p as int] ==> b[i],
            None => true,
        }
}

/// Every directly blocked node stays blocked.
pub open spec fn spec_includes(a: Seq<bool>, b: Seq<bool>) -> bool {
    forall|i: int| 0 <= i < a.len() && a[i] ==> #[trigger] b[i]
}

pub open spec fn count_true(s: Seq<bool>) -> nat
    decreases s.len(),
{
    if s.len() == 0 {
        0
    } else {
        count_true(s.drop_last()) + if s.last() {
            1nat
        } else {
            0nat
        }
    }
}

proof fn lemma_count_true_bound(s: Seq<bool>)
    ensures
        count_true(s) <= s.len(),
    decreases s.len(),
{
    if s.len() > 0 {
        lemma_count_true_bound(s.drop_last());
    }
}

proof fn lemma_count_true_update(s: Seq<bool>, i: int)
    requires
        0 <= i < s.len(),
        !s[i],
    ensures
        count_true(s.update(i, true)) == count_true(s) + 1,
    decreases s.len(),
{
    if i == s.len() - 1 {
        assert(s.update(i, true).drop_last() =~= s.drop_last());
        assert(s.update(i, true).last());
    } else {
        assert(s.update(i, true).drop_last() =~= s.drop_last().update(i, true));
        lemma_count_true_update(s.drop_last(), i);
        assert(s.update(i, true).last() == s.last());
    }
}

/// The exclusion set closed under the parent relation: blocking propagates
/// to all descendants by fixpoint iteration, since a single pass cannot see
/// grandchildren before their parent's exclusion is recorded.
///
/// The result is exactly the least such set: it contains every directly
/// blocked node, a node with a blocked parent is blocked, and any other
/// set with those two properties contains it.
#[verifier::loop_isolation(false)]
pub fn propagate_blocked(parent_idx: &Vec<Option<usize>>, init: &Vec<bool>) -> (r: Vec<bool>)
    requires
        parent_idx@.len() == init@.len(),
        forall|i: int|
            0 <= i < parent_idx@.len() ==> (match #[trigger] parent_idx@[i] {
                Some(p) => p < init@.len(),
                None => true,
            }),
    ensures
        r@.len() == init@.len(),
        spec_includes(init@, r@),
        spec_closed(parent_idx@, r@),
        forall|other: Seq<bool>, i: int|
            other.len() == init@.len() && spec_closed(parent_idx@, other) && spec_includes(
                init@,
                other,
            ) && 0 <= i < r@.len() && r@[i] ==> #[trigger] other[i],
{
    let n = init.len();
    let mut r: Vec<bool> = Vec::new();
    let mut k: usize = 0;
    while k < n
        invariant
            k <= n,
            r@.len() == k,
            forall|j: int| 0 <= j < k ==> #[trigger] r@[j] == init@[j],
        decreases n - k,
    {
        r.push(init[k]);
        k += 1;
    }
    let mut changed = true;
    proof {
        lemma_count_true_bound(r@);
    }
    while changed
        invariant
            n == init@.len(),
            r@.len() == n,
            spec_includes(init@, r@),
            count_true(r@) <= n,
            forall|other: Seq<bool>, i: int|
                other.len() == init@.len() && spec_closed(parent_idx@, other) && spec_includes(
                    init@,
                    other,
                ) && 0 <= i < r@.len() && r@[i] ==> #[trigger] other[i],
            !changed ==> spec_closed(parent_idx@, r@),
        decreases (n - count_true(r@)) + (if changed {
            1int
        } else {
            0int
        }),
    {
        let ghost pass_start = r@;
        let ghost start_count = count_true(r@);
        let mut pass_changed = false;
        let mut idx: usize = 0;
        while idx < n
            invariant
                n == init@.len(),
                r@.len() == n,
                spec_includes(init@, r@),
                spec_includes(pass_start, r@),
                count_true(r@) >= start_count + (if pass_changed {
                    1int
                } else {
                    0int
                }),
                count_true(r@) <= n,
                idx <= n,
                forall|other: Seq<bool>, i: int|
                    other.len() == init@.len() && spec_closed(parent_idx@, other)
                        && spec_includes(init@, other) && 0 <= i < r@.len() && r@[i]
                        ==> #[trigger] other[i],
                !pass_changed ==> r@ == pass_start,
                !pass_changed ==> forall|j: int|
                    0 <= j < idx ==> match #[trigger] parent_idx@[j] {
                        Some(p) => r@[p as int] ==> r@[j],
                        None => true,
                    },
            decreases n - idx,
        {
            match parent_idx[idx] {
                Some(p) => {
                    if r[p] && !r[idx] {
                        let ghost before = r@;
                        r.set(idx, true);
                        proof {
                            lemma_count_true_update(before, idx as int);
                            lemma_count_true_bound(r@);
                        }
                        pass_changed = true;
                    }
                },
                None => {},
            }
            idx += 1;
        }
        changed = pass_changed;
    }
    r
}

/// The children of each node, among the nodes that survived exclusion,
/// sorted by the captured sibling order key.
#[verifier::loop_isolation(false)]
pub fn build_children(
    nodes: &Vec<TreeNode>,
    parent_idx: &Vec<Option<usize>>,
    blocked: &Vec<bool>,
) -> (r: Vec<Vec<usize>>)
    requires
        parent_idx@.len() == nodes@.len(),
        blocked@.len() == nodes@.len(),
    ensures
        r@.len() == nodes@.len(),
        forall|p: int, t: int|
            0 <= p < r@.len() && 0 <= t < r@[p]@.len() ==> {
                let c = #[trigger] r@[p]@[t];
                &&& c < nodes@.len()
                &&& parent_idx@[c as int] == Some(p as usize)
                &&& !blocked@[c as int]
            },
        forall|p: int, c: int|
            0 <= p < parent_idx@.len() && 0 <= c < parent_idx@.len() && #[trigger] parent_idx@[c]
                == Some(p as usize) && !blocked@[c] ==> #[trigger] r@[p]@.contains(c as usize),
        forall|p: int, a: int, b: int|
            0 <= p < r@.len() && 0 <= a < b < r@[p]@.len() ==> nodes@[#[trigger] r@[p]@[a] as int].child_position
                <= nodes@[#[trigger] r@[p]@[b] as int].child_position,
{
    broadcast use vstd::seq_lib::group_seq_properties;

    let n = nodes.len();
    let mut r: Vec<Vec<usize>> = Vec::new();
    let mut p: usize = 0;
    while p < n
        invariant
            p <= n,
            n == nodes@.len(),
            parent_idx@.len() == n,
            blocked@.len() == n,
            r@.len() == p,
            forall|q: int, t: int|
                0 <= q < r@.len() && 0 <= t < r@[q]@.len() ==> {
                    let c = #[trigger] r@[q]@[t];
                    &&& c < nodes@.len()
                    &&& parent_idx@[c as int] == Some(q as usize)
                    &&& !blocked@[c as int]
                },
            forall|q: int, c: int|
                0 <= q < p && 0 <= c < parent_idx@.len() && #[trigger] parent_idx@[c] == Some(
                    q as usize,
                ) && !blocked@[c] ==> #[trigger] r@[q]@.contains(c as usize),
            forall|q: int, a: int, b: int|
                0 <= q < r@.len() && 0 <= a < b < r@[q]@.len() ==> nodes@[#[trigger] r@[q]@[a] as int].child_position
                    <= nodes@[#[trigger] r@[q]@[b] as int].child_position,
        decreases n - p,
    {
        let mut kids: Vec<usize> = Vec::new();
        let mut c: usize = 0;
        while c < n
            invariant
                c <= n,
                n == nodes@.len(),
                parent_idx@.len() == n,
                blocked@.len() == n,
                p < n,
                forall|t: int|
                    0 <= t < kids@.len() ==> {
                        let k = #[trigger] kids@[t];
                        &&& k < nodes@.len()
                        &&& parent_idx@[k as int] == Some(p as usize)
                        &&& !blocked@[k as int]
                    },
                forall|cc: int|
                    0 <= cc < c && #[trigger] parent_idx@[cc] == Some(p as usize)
                        && !blocked@[cc] ==> kids@.contains(cc as usize),
                forall|a: int, b: int|
                    0 <= a < b < kids@.len()
                        ==> nodes@[#[trigger] kids@[a] as int].child_position
                        <= nodes@[#[trigger] kids@[b] as int].child_position,
            decreases n - c,
        {
            let is_child = match parent_idx[c] {
                Some(q) => q == p,
                None => false,
            };
            if is_child && !blocked[c] {
                let key = nodes[c].child_position;
                let mut pos: usize = 0;
                while pos < kids.len() && nodes[kids[pos]].child_position <= key
                    invariant
                        pos <= kids@.len(),
                        forall|t: int|
                            0 <= t < kids@.len() ==> #[trigger] kids@[t] < nodes@.len(),
                        forall|t: int|
                            0 <= t < pos ==> nodes@[#[trigger] kids@[t] as int].child_position
                                <= key,
                    decreases kids@.len() - pos,
                {
                    pos += 1;
                }
                let ghost kids_before = kids@;
                kids.insert(pos, c);
                proof {
                    assert forall|t: int| 0 <= t < kids@.len() implies {
                        let k = #[trigger] kids@[t];
                        &&& k < nodes@.len()
                        &&& parent_idx@[k as int] == Some(p as usize)
                        &&& !blocked@[k as int]
                    } by {
                        if t < pos {
                            assert(kids@[t] == kids_before[t]);
                        } else if t == pos {
                        } else {
                            assert(kids@[t] == kids_before[t - 1]);
                        }
                    }
                    assert forall|cc: int|
                        0 <= cc < c + 1 && #[trigger] parent_idx@[cc] == Some(p as usize)
                            && !blocked@[cc] implies kids@.contains(cc as usize) by {
                        if cc == c {
                            assert(kids@[pos as int] == c as usize);
                        } else {
                            assert(kids_before.contains(cc as usize));
                            let w = choose|w: int|
                                0 <= w < kids_before.len() && kids_before[w] == cc as usize;
                            if w < pos {
                                assert(kids@[w] == cc as usize);
                            } else {
                                assert(kids@[w + 1] == cc as usize);
                            }
                        }
                    }
                    assert forall|a: int, b: int| 0 <= a < b < kids@.len() implies nodes@[
                        #[trigger] kids@[a] as int
                    ].child_position <= nodes@[#[trigger] kids@[b] as int].child_position by {
                        if b < pos {
                        } else if a == pos && b > pos {
                            assert(kids@[b] == kids_before[b - 1]);
                            assert(pos < kids_before.len());
                            assert(nodes@[kids_before[pos as int] as int].child_position > key
                                || pos as int == kids_before.len());
                            assert(nodes@[kids_before[b - 1] as int].child_position
                                >= nodes@[kids_before[pos as int] as int].child_position);
                        } else if b == pos {
                            assert(kids@[a] == kids_before[a]);
                            assert(nodes@[kids_before[a] as int].child_position <= key);
                        } else if a < pos && b > pos {
                            assert(kids@[a] == kids_before[a]);
                            assert(kids@[b] == kids_before[b - 1]);
                            if b - 1 == a {
                                assert(nodes@[kids_before[a] as int].child_position <= key);
                                assert(pos as int <= b - 1);
                                if pos as int <= a {
                                } else {
                                }
                                assert(nodes@[kids_before[b - 1] as int].child_position > key
                                    || false) by {
                                    assert(pos as int == b - 1 ==> nodes@[kids_before[
                                        pos as int
                                    ] as int].child_position > key);
                                }
                            } else {
                            }
                        } else {
                            assert(kids@[a] == kids_before[a - 1]);
                            assert(kids@[b] == kids_before[b - 1]);
                        }
                    }
                }
            }
            c += 1;
        }
        r.push(kids);
        p += 1;
    }
    r
}

/// Whether `x` is a recorded child of some node already in `out`.
pub open spec fn edge_to(children: Seq<Vec<usize>>, out: Seq<usize>, x: usize) -> bool {
    exists|j: int, t: int|
        0 <= j < out.len() && 0 <= t < children[out[j] as int]@.len() && #[trigger] children[
            out[j] as int
        ]@[t] == x
}

proof fn lemma_edge_to_extend(
    children: Seq<Vec<usize>>,
    out: Seq<usize>,
    out2: Seq<usize>,
    x: usize,
)
    requires
        out.len() <= out2.len(),
        forall|j: int| 0 <= j < out.len() ==> #[trigger] out2[j] == out[j],
        edge_to(children, out, x),
    ensures
        edge_to(children, out2, x),
{
    let (j, t) = choose|j: int, t: int|
        0 <= j < out.len() && 0 <= t < children[out[j] as int]@.len() && #[trigger] children[
            out[j] as int
        ]@[t] == x;
    assert(out2[j] == out[j]);
    assert(children[out2[j] as int]@[t] == x);
}

/// The order nodes are created in: a pre-order walk over an explicit
/// worklist, so the parent of every created node was created before it.
///
/// The result starts at the root, repeats no node, and places every other
/// node after the node whose child list it came from — the order that lets
/// each creation call use its parent's freshly minted id.
#[verifier::rlimit(100)]
pub fn creation_order(children: &Vec<Vec<usize>>, root: usize) -> (r: Vec<usize>)
    requires
        root < children@.len(),
        forall|p: int, t: int|
            0 <= p < children@.len() && 0 <= t < children@[p]@.len() ==> #[trigger] children@[p]@[t]
                < children@.len(),
    ensures
        r@.len() > 0 && r@[0] == root,
        forall|a: int, b: int| 0 <= a < b < r@.len() ==> #[trigger] r@[a] != #[trigger] r@[b],
        forall|k: int|
            0 < k < r@.len() ==> edge_to(children@, r@.take(k), #[trigger] r@[k]),
{
    let n = children.len();
    let mut seen: Vec<bool> = Vec::new();
    let mut k: usize = 0;
    while k < n
        invariant
            k <= n,
            seen@.len() == k,
            forall|j: int| 0 <= j < k ==> !(#[trigger] seen@[j]),
        decreases n - k,
    {
        seen.push(false);
        k += 1;
    }
    proof {
        lemma_count_true_zero(seen@);
    }
    let mut out: Vec<usize> = Vec::new();
    let mut stack: Vec<(usize, Ghost<int>)> = Vec::new();
    stack.push((root, Ghost(-1int)));
    while stack.len() > 0
        invariant
            n == children@.len(),
            seen@.len() == n,
            count_true(seen@) <= n,
            forall|s: int|
                #![trigger stack@[s]]
                0 <= s < stack@.len() ==> {
                    let x = stack@[s].0;
                    let g = stack@[s].1@;
                    &&& x < n
                    &&& ((g == -1 && x == root && out@.len() == 0) || (0 <= g < out@.len()
                        && children@[out@[g] as int]@.contains(x)))
                },
            forall|k2: int|
                #![trigger out@[k2]]
                0 < k2 < out@.len() ==> edge_to(children@, out@.take(k2), out@[k2]),
            out@.len() > 0 ==> out@[0] == root,
            out@.len() == 0 ==> stack@.len() <= 1,
            out@.len() > 0 || (stack@.len() == 1 && stack@[0].0 == root),
            forall|a: int, b: int|
                0 <= a < b < out@.len() ==> #[trigger] out@[a] != #[trigger] out@[b],
            forall|j: int| 0 <= j < out@.len() ==> #[trigger] out@[j] < n,
            forall|j: int| 0 <= j < out@.len() ==> seen@[#[trigger] out@[j] as int],
            out@.len() == count_true(seen@),
            forall|p2: int, t2: int|
                0 <= p2 < children@.len() && 0 <= t2 < children@[p2]@.len()
                    ==> #[trigger] children@[p2]@[t2] < n,
        decreases (n - count_true(seen@)), stack@.len(),
    {
        let ghost stack_before = stack@;
        let (e, ghost_parent) = match stack.pop() {
            Some(p) => p,
            None => {
                proof {
                    assert(stack_before.len() > 0);
                    assert(false);
                }
                (0, Ghost(0int))
            },
        };
        proof {
            assert(stack_before[stack_before.len() - 1].0 == e);
        }
        if seen[e] {
            proof {
                if out@.len() == 0 {
                    lemma_count_zero_all_false(seen@);
                    assert(false);
                }
            }
            continue ;
        }
        let ghost seen_before = seen@;
        let ghost out_before = out@;
        seen.set(e, true);
        proof {
            lemma_count_true_update(seen_before, e as int);
            lemma_count_true_bound(seen@);
        }
        out.push(e);
        proof {
            if out_before.len() == 0 {
                assert(stack_before[stack_before.len() - 1].0 == e);
                assert(e == root);
                assert(out@[0] == root);
            }
            assert forall|s: int|
                #![trigger stack@[s]]
                0 <= s < stack@.len() implies {
                let x = stack@[s].0;
                let g = stack@[s].1@;
                &&& x < n
                &&& ((g == -1 && x == root && out@.len() == 0) || (0 <= g < out@.len()
                    && children@[out@[g] as int]@.contains(x)))
            } by {
                assert(stack@[s] == stack_before[s]);
                let g = stack_before[s].1@;
                if g == -1 {
                    assert(stack_before.len() <= 1);
                    assert(false);
                } else {
                    assert(out@[g] == out_before[g]);
                }
            }
            assert forall|k2: int|
                #![trigger out@[k2]]
                0 < k2 < out@.len() implies edge_to(children@, out@.take(k2), out@[k2]) by {
                if k2 < out_before.len() {
                    assert(out@[k2] == out_before[k2]);
                    assert(out@.take(k2) =~= out_before.take(k2));
                } else {
                    assert(out@[k2] == e);
                    assert(out@.take(k2) =~= out_before);
                    let g = ghost_parent@;
                    if g == -1 {
                        assert(out_before.len() == 0);
                        assert(false);
                    } else {
                        let t = choose|t: int|
                            0 <= t < children@[out_before[g] as int]@.len() && children@[
                                out_before[g] as int
                            ]@[t] == e;
                        assert(children@[out_before[g] as int]@[t] == e);
                        assert(edge_to(children@, out_before, e));
                    }
                }
            }
            assert forall|a: int, b: int| 0 <= a < b < out@.len() implies #[trigger] out@[a]
                != #[trigger] out@[b] by {
                if b == out@.len() - 1 {
                    assert(seen_before[out_before[a] as int]);
                    assert(!seen_before[e as int]);
                }
            }
            assert forall|j: int| 0 <= j < out@.len() implies seen@[
                #[trigger] out@[j] as int
            ] by {
                if j < out_before.len() {
                    assert(out@[j] == out_before[j]);
                    assert(seen_before[out_before[j] as int]);
                } else {
                    assert(out@[j] == e);
                }
            }
        }
        let kids = &children[e];
        let ghost my_pos: int = out@.len() - 1;
        let mut t: usize = kids.len();
        while t > 0
            invariant
                t <= kids@.len(),
                e < n,
                kids@ == children@[e as int]@,
                forall|t2: int| 0 <= t2 < kids@.len() ==> #[trigger] kids@[t2] < n,
                n == children@.len(),
                my_pos == out@.len() - 1,
                out@.len() > 0 && out@[my_pos] == e,
                forall|s: int|
                    #![trigger stack@[s]]
                    0 <= s < stack@.len() ==> {
                        let x = stack@[s].0;
                        let g = stack@[s].1@;
                        &&& x < n
                        &&& ((g == -1 && x == root && out@.len() == 0) || (0 <= g < out@.len()
                            && children@[out@[g] as int]@.contains(x)))
                    },
            decreases t,
        {
            t -= 1;
            let kid = kids[t];
            stack.push((kid, Ghost(my_pos)));
            proof {
                assert(children@[e as int]@[t as int] == kid);
                assert(children@[out@[my_pos] as int]@.contains(kid));
            }
        }
    }
    out
}


/// What one fetched child contributes to the node set: its id (skipped when
/// missing or empty), its title or the empty string, and its sibling order
/// key or zero.
pub open spec fn spec_child_fields(item: JsonValue) -> Option<(Seq<char>, Seq<char>, int)> {
    match spec_str_field(item, "id"@) {
        Some(id) => if id.len() > 0 {
            Some(
                (
                    id,
                    match spec_str_field(item, "title"@) {
                        Some(t) => t,
                        None => Seq::<char>::empty(),
                    },
                    match spec_get(item, "childPosition"@) {
                        Some(p) => match spec_as_i64(p) {
                            Some(n) => n as int,
                            None => 0,
                        },
                        None => 0,
                    },
                ),
            )
        } else {
            None
        },
        None => None,
    }
}

fn child_fields(item: &JsonValue) -> (r: Option<(String, String, i64)>)
    ensures
        match r {
            Some(f) => spec_child_fields(*item) == Some((f.0@, f.1@, f.2 as int)),
            None => spec_child_fields(*item) is None,
        },
{
    match str_field(item, "id") {
        Some(id) => {
            if id.len() > 0 {
                let title: String = match str_field(item, "title") {
                    Some(t) => chars_string(&t),
                    None => String::new(),
                };
                let pos: i64 = match item.get("childPosition") {
                    Some(p) => match p.as_i64() {
                        Some(n) => n,
                        None => 0,
                    },
                    None => 0,
                };
                Some((chars_string(&id), title, pos))
            } else {
                None
            }
        },
        None => None,
    }
}

/// One page met during discovery: the raw child fields, annotated with its
/// parent id and its 1-based depth relative to the root.
pub struct DiscoveredPage {
    pub id: String,
    pub parent_id: String,
    pub depth: u64,
    pub title: String,
    pub child_position: i64,
}

/// Whether some seen id reads exactly `id`.
pub open spec fn seen_has(seen: Seq<String>, id: Seq<char>) -> bool {
    exists|w: int| 0 <= w < seen.len() && (#[trigger] seen[w])@ == id
}

fn seen_lookup(seen: &Vec<String>, id: &Vec<char>) -> (r: bool)
    ensures
        r == seen_has(seen@, id@),
{
    let mut w: usize = 0;
    while w < seen.len()
        invariant
            w <= seen@.len(),
            forall|t: int| 0 <= t < w ==> (#[trigger] seen@[t])@ != id@,
        decreases seen@.len() - w,
    {
        let sv = str_chars(seen[w].as_str());
        if chars_eq(&sv, id) {
            return true;
        }
        w += 1;
    }
    false
}

/// The collected pages are exactly the well-formed children, projected in
/// order: ill-formed children contribute nothing, each well-formed child
/// contributes its fields.
pub open spec fn added_matches(children: Seq<JsonValue>, added: Seq<DiscoveredPage>) -> bool
    decreases children.len(),
{
    if children.len() == 0 {
        added.len() == 0
    } else {
        match spec_child_fields(children.last()) {
            None => added_matches(children.drop_last(), added),
            Some(f) => added.len() > 0 && added.last().id@ == f.0 && added.last().title@ == f.1
                && added.last().child_position as int == f.2 && added_matches(
                children.drop_last(),
                added.drop_last(),
            ),
        }
    }
}

/// A breadth-first walk over the shallow children endpoint, deliberately
/// avoiding the deep descendants endpoint, which silently caps depth. The
/// caller fetches each parent's children between steps.
pub struct DiscoverWalk {
    /// Parents still to expand, with their depths (root depth is zero).
    pub queue: Vec<(String, u64)>,
    /// Every id ever enqueued; it only grows, and blocks re-enqueueing.
    pub seen: Vec<String>,
    /// Every descendant collected so far, in discovery order.
    pub pages: Vec<DiscoveredPage>,
    /// The API page size, and the total cap when `all` is off.
    pub limit: u64,
    /// Whether to walk every page of every listing.
    pub all: bool,
    /// Stop enqueueing below this depth; zero means unlimited.
    pub max_depth: u64,
}

impl DiscoverWalk {
    /// A walk about to expand the root.
    pub fn new(root_id: String, limit: u64, all: bool, max_depth: u64) -> (s: Self)
        ensures
            s.queue@.len() == 1 && s.queue@[0].0 == root_id && s.queue@[0].1 == 0u64,
            s.seen@.len() == 1 && s.seen@[0] == root_id,
            s.pages@.len() == 0,
            s.limit == limit && s.all == all && s.max_depth == max_depth,
    {
        let mut queue: Vec<(String, u64)> = Vec::new();
        queue.push((root_id.clone(), 0));
        let mut seen: Vec<String> = Vec::new();
        seen.push(root_id);
        DiscoverWalk { queue, seen, pages: Vec::new(), limit, all, max_depth }
    }

    /// The next parent to fetch children for, with its depth and the page
    /// size to request; `None` when the walk is over. Queue entries at the
    /// depth bound are dropped, unexpanded, until one below it is found; and
    /// with `all` off the walk stops once enough descendants are collected.
    pub fn next_fetch(&mut self) -> (r: Option<(String, u64, u64)>)
        ensures
            final(self).seen == old(self).seen,
            final(self).pages == old(self).pages,
            final(self).limit == old(self).limit && final(self).all == old(self).all,
            final(self).max_depth == old(self).max_depth,
            r is None ==> final(self).queue@.len() == 0 || (!old(self).all && old(
                self,
            ).pages@.len() >= old(self).limit as nat),
            r is None && (old(self).all || old(self).pages@.len() < old(self).limit as nat)
                ==> final(self).queue@.len() == 0 && (forall|k: int|
                0 <= k < old(self).queue@.len() ==> old(self).max_depth > 0 && (
                #[trigger] old(self).queue@[k]).1 >= old(self).max_depth),
            r matches Some(t) ==> (exists|j: int|
                {
                    &&& 0 <= j < old(self).queue@.len()
                    &&& (#[trigger] old(self).queue@[j]) == (t.0, t.1)
                    &&& final(self).queue@ == old(self).queue@.skip(j + 1)
                    &&& (forall|k: int|
                        0 <= k < j ==> old(self).max_depth > 0 && (
                        #[trigger] old(self).queue@[k]).1 >= old(self).max_depth)
                }),
            r matches Some(t) ==> {
                &&& (old(self).all || old(self).pages@.len() < old(self).limit as nat)
                &&& (old(self).max_depth == 0 || t.1 < old(self).max_depth)
                &&& t.2 >= 1
                &&& (old(self).all ==> t.2 == (if old(self).limit >= 1 {
                    old(self).limit
                } else {
                    1u64
                }))
                &&& (!old(self).all ==> t.2 == (if old(self).limit as nat > old(
                    self,
                ).pages@.len() {
                    (old(self).limit as nat - old(self).pages@.len()) as u64
                } else {
                    1u64
                }))
            },
    {
        let ghost mut popped: int = 0;
        loop
            invariant
                self.seen == old(self).seen,
                self.pages == old(self).pages,
                self.limit == old(self).limit && self.all == old(self).all,
                self.max_depth == old(self).max_depth,
                0 <= popped <= old(self).queue@.len(),
                self.queue@ == old(self).queue@.skip(popped),
                forall|k: int|
                    0 <= k < popped ==> old(self).max_depth > 0 && (
                    #[trigger] old(self).queue@[k]).1 >= old(self).max_depth,
            decreases self.queue@.len(),
        {
            proof {
                assert(old(self).queue@.skip(0) =~= old(self).queue@);
            }
            if self.queue.len() == 0 {
                return None;
            }
            if !self.all && self.pages.len() as u64 >= self.limit {
                return None;
            }
            let ghost qb = self.queue@;
            let (id, depth) = self.queue.remove(0);
            proof {
                assert(qb[0] == old(self).queue@[popped]);
                assert(qb.drop_first() =~= old(self).queue@.skip(popped + 1));
                assert(self.queue@ =~= qb.drop_first());
            }
            if self.max_depth > 0 && depth >= self.max_depth {
                proof {
                    popped = popped + 1;
                }
                continue ;
            }
            let page_size: u64 = if self.all {
                if self.limit >= 1 {
                    self.limit
                } else {
                    1
                }
            } else {
                let collected = self.pages.len() as u64;
                if self.limit > collected {
                    self.limit - collected
                } else {
                    1
                }
            };
            proof {
                assert(old(self).queue@[popped] == (id, depth));
            }
            return Some((id, depth, page_size));
        }
    }

    /// Takes in one parent's fetched children: every well-formed child (up
    /// to the size cut when `all` is off) is collected, in order, with its
    /// parent id and depth; its id joins the queue and the seen set exactly
    /// when it was never seen before. The seen set only grows.
    #[verifier::rlimit(100)]
    pub fn record_children(&mut self, parent_id: &String, depth: u64, children: Vec<JsonValue>)
        requires
            depth < 0xffff_ffff_ffff_ffff,
        ensures
            final(self).limit == old(self).limit && final(self).all == old(self).all,
            final(self).max_depth == old(self).max_depth,
            final(self).seen@.len() >= old(self).seen@.len(),
            forall|j: int|
                0 <= j < old(self).seen@.len() ==> #[trigger] final(self).seen@[j] == old(
                    self,
                ).seen@[j],
            final(self).pages@.len() >= old(self).pages@.len(),
            forall|j: int|
                0 <= j < old(self).pages@.len() ==> #[trigger] final(self).pages@[j] == old(
                    self,
                ).pages@[j],
            forall|j: int|
                old(self).pages@.len() <= j < final(self).pages@.len() ==> {
                    let p = #[trigger] final(self).pages@[j];
                    &&& p.parent_id@ == parent_id@
                    &&& p.depth == depth + 1
                },
            final(self).queue@.len() >= old(self).queue@.len(),
            forall|j: int|
                0 <= j < old(self).queue@.len() ==> #[trigger] final(self).queue@[j] == old(
                    self,
                ).queue@[j],
            exists|m: int|
                {
                    &&& 0 <= m <= children@.len()
                    &&& (m < children@.len() ==> !old(self).all && final(self).pages@.len()
                        >= old(self).limit as nat)
                    &&& added_matches(
                        #[trigger] children@.take(m),
                        final(self).pages@.skip(old(self).pages@.len() as int),
                    )
                },
            final(self).queue@.len() - old(self).queue@.len() == final(self).seen@.len() - old(
                self,
            ).seen@.len(),
            forall|j: int|
                old(self).queue@.len() <= j < final(self).queue@.len() ==> {
                    let entry = #[trigger] final(self).queue@[j];
                    &&& entry.1 == depth + 1
                    &&& entry.0 == final(self).seen@[j - old(self).queue@.len() + old(
                        self,
                    ).seen@.len()]
                    &&& !seen_has(old(self).seen@, entry.0@)
                    &&& (exists|k: int|
                        old(self).pages@.len() <= k < final(self).pages@.len() && (
                        #[trigger] final(self).pages@[k]).id@ == entry.0@)
                },
    {
        let mut rest = children;
        let ghost all_children = rest@;
        let total = rest.len();
        let ghost old_pages = self.pages@.len() as int;
        let ghost old_queue = self.queue@.len() as int;
        let ghost old_seen = self.seen@.len() as int;
        let mut c: usize = 0;
        let mut cut = false;
        proof {
            assert(self.pages@.skip(old_pages) =~= Seq::<DiscoveredPage>::empty());
            assert(all_children.take(0) =~= Seq::<JsonValue>::empty());
        }
        while !cut && rest.len() > 0
            invariant
                depth < 0xffff_ffff_ffff_ffff,
                total == all_children.len(),
                c + rest@.len() == all_children.len(),
                forall|t: int|
                    0 <= t < rest@.len() ==> #[trigger] rest@[t] == all_children[c + t],
                self.limit == old(self).limit && self.all == old(self).all,
                self.max_depth == old(self).max_depth,
                old_pages == old(self).pages@.len(),
                old_queue == old(self).queue@.len(),
                old_seen == old(self).seen@.len(),
                self.seen@.len() >= old(self).seen@.len(),
                forall|j: int|
                    0 <= j < old(self).seen@.len() ==> #[trigger] self.seen@[j] == old(
                        self,
                    ).seen@[j],
                self.pages@.len() >= old(self).pages@.len(),
                forall|j: int|
                    0 <= j < old(self).pages@.len() ==> #[trigger] self.pages@[j] == old(
                        self,
                    ).pages@[j],
                forall|j: int|
                    old_pages <= j < self.pages@.len() ==> {
                        let p = #[trigger] self.pages@[j];
                        &&& p.parent_id@ == parent_id@
                        &&& p.depth == depth + 1
                    },
                self.queue@.len() >= old(self).queue@.len(),
                forall|j: int|
                    0 <= j < old(self).queue@.len() ==> #[trigger] self.queue@[j] == old(
                        self,
                    ).queue@[j],
                added_matches(all_children.take(c as int), self.pages@.skip(old_pages)),
                cut ==> !old(self).all && self.pages@.len() >= old(self).limit as nat,
                self.queue@.len() - old_queue == self.seen@.len() - old_seen,
                forall|j: int|
                    old_queue <= j < self.queue@.len() ==> {
                        let entry = #[trigger] self.queue@[j];
                        &&& entry.1 == depth + 1
                        &&& entry.0 == self.seen@[j - old_queue + old_seen]
                        &&& !seen_has(old(self).seen@, entry.0@)
                        &&& (exists|k: int|
                            old_pages <= k < self.pages@.len() && (
                            #[trigger] self.pages@[k]).id@ == entry.0@)
                    },
            decreases rest@.len(), (if cut {
                0int
            } else {
                1int
            }),
        {
            if !self.all && self.pages.len() as u64 >= self.limit {
                cut = true;
                continue ;
            }
            let ghost rest_before = rest@;
            let child = rest.remove(0);
            proof {
                assert(rest_before[0] == all_children[c as int]);
                assert(forall|t: int|
                    0 <= t < rest@.len() ==> #[trigger] rest@[t] == rest_before[t + 1]);
                assert(all_children.take(c + 1).drop_last() =~= all_children.take(c as int));
                assert(all_children.take(c + 1).last() == all_children[c as int]);
            }
            match child_fields(&child) {
                Some((id, title, pos)) => {
                    let page = DiscoveredPage {
                        id: id.clone(),
                        parent_id: parent_id.clone(),
                        depth: depth + 1,
                        title,
                        child_position: pos,
                    };
                    let ghost pages_before = self.pages@;
                    self.pages.push(page);
                    proof {
                        assert(forall|k: int|
                            0 <= k < pages_before.len() ==> #[trigger] self.pages@[k]
                                == pages_before[k]);
                        assert(spec_child_fields(all_children[c as int]) == Some(
                            (
                                self.pages@[self.pages@.len() - 1].id@,
                                self.pages@[self.pages@.len() - 1].title@,
                                self.pages@[self.pages@.len() - 1].child_position as int,
                            ),
                        ));
                        assert(self.pages@.skip(old_pages).drop_last() =~= pages_before.skip(
                            old_pages,
                        ));
                        assert(self.pages@.skip(old_pages).last() == self.pages@[
                        self.pages@.len() - 1]);
                        assert(added_matches(
                            all_children.take(c + 1),
                            self.pages@.skip(old_pages),
                        ));
                        assert forall|j: int|
                            old_queue <= j < self.queue@.len() implies {
                            let entry = #[trigger] self.queue@[j];
                            &&& entry.1 == depth + 1
                            &&& entry.0 == self.seen@[j - old_queue + old_seen]
                            &&& !seen_has(old(self).seen@, entry.0@)
                            &&& (exists|k: int|
                                old_pages <= k < self.pages@.len() && (
                                #[trigger] self.pages@[k]).id@ == entry.0@)
                        } by {
                            let k = choose|k: int|
                                old_pages <= k < pages_before.len() && (
                                #[trigger] pages_before[k]).id@ == self.queue@[j].0@;
                            assert(self.pages@[k] == pages_before[k]);
                            assert(self.pages@[k].id@ == self.queue@[j].0@);
                        }
                    }
                    let idv = crate::strutil::str_chars(id.as_str());
                    let already = seen_lookup(&self.seen, &idv);
                    if !already {
                        let ghost seen_before = self.seen@;
                        let ghost queue_before = self.queue@;
                        self.seen.push(id.clone());
                        self.queue.push((id, depth + 1));
                        proof {
                            assert(forall|j: int|
                                0 <= j < queue_before.len() ==> #[trigger] self.queue@[j]
                                    == queue_before[j]);
                            assert(forall|t: int|
                                0 <= t < seen_before.len() ==> #[trigger] self.seen@[t]
                                    == seen_before[t]);
                            assert(self.queue@[self.queue@.len() - 1].0 == self.seen@[
                            self.seen@.len() - 1]);
                            assert(self.queue@[self.queue@.len() - 1].0@ == self.pages@[
                            self.pages@.len() - 1].id@);
                            assert(!seen_has(old(self).seen@, self.queue@[self.queue@.len()
                                - 1].0@)) by {
                                if seen_has(old(self).seen@, idv@) {
                                    let w = choose|w: int|
                                        0 <= w < old(self).seen@.len() && (
                                        #[trigger] old(self).seen@[w])@ == idv@;
                                    assert(seen_before[w]@ == idv@);
                                    assert(seen_has(seen_before, idv@));
                                }
                            }
                            assert forall|j: int|
                                old_queue <= j < self.queue@.len() implies {
                                let entry = #[trigger] self.queue@[j];
                                &&& entry.1 == depth + 1
                                &&& entry.0 == self.seen@[j - old_queue + old_seen]
                                &&& !seen_has(old(self).seen@, entry.0@)
                                &&& (exists|k: int|
                                    old_pages <= k < self.pages@.len() && (
                                    #[trigger] self.pages@[k]).id@ == entry.0@)
                            } by {
                                if j < queue_before.len() {
                                    assert(self.queue@[j] == queue_before[j]);
                                    assert(self.seen@[j - old_queue + old_seen] == seen_before[j
                                        - old_queue + old_seen]);
                                    let k = choose|k: int|
                                        old_pages <= k < pages_before.len() && (
                                        #[trigger] pages_before[k]).id@ == queue_before[j].0@;
                                    assert(self.pages@[k].id@ == self.queue@[j].0@);
                                } else {
                                    assert(j == self.queue@.len() - 1);
                                    assert(self.pages@[self.pages@.len() - 1].id@
                                        == self.queue@[j].0@);
                                }
                            }
                        }
                    }
                },
                None => {
                    proof {
                        assert(added_matches(
                            all_children.take(c + 1),
                            self.pages@.skip(old_pages),
                        ));
                    }
                },
            }
            c += 1;
        }
        proof {
            if !cut {
                assert(rest@.len() == 0);
                assert(all_children.take(c as int) =~= all_children);
                assert(added_matches(
                    all_children.take(all_children.len() as int),
                    self.pages@.skip(old_pages),
                ));
            }
        }
    }
}

/// The flat node set for one replication run: the root first (with its
/// prefetched body), then every discovered descendant.
pub fn nodes_from_discovery(
    root_id: String,
    root_title: String,
    root_body: String,
    pages: Vec<DiscoveredPage>,
) -> (r: Vec<TreeNode>)
    ensures
        r@.len() == 1 + pages@.len(),
        r@[0].id == root_id && r@[0].parent_id is None && r@[0].title == root_title && r@[0].body
            == Some(root_body) && r@[0].child_position == 0,
        forall|j: int|
            0 <= j < pages@.len() ==> {
                let n = #[trigger] r@[j + 1];
                &&& n.id == pages@[j].id
                &&& n.parent_id == Some(pages@[j].parent_id)
                &&& n.title == pages@[j].title
                &&& n.child_position == pages@[j].child_position
                &&& n.body is None
            },
{
    let mut r: Vec<TreeNode> = Vec::new();
    r.push(
        TreeNode {
            id: root_id,
            parent_id: None,
            title: root_title,
            child_position: 0,
            body: Some(root_body),
        },
    );
    let mut rest = pages;
    let ghost all = rest@;
    let total = rest.len();
    let mut c: usize = 0;
    while rest.len() > 0
        invariant
            total == all.len(),
            c + rest@.len() == all.len(),
            forall|t: int| 0 <= t < rest@.len() ==> #[trigger] rest@[t] == all[c + t],
            r@.len() == 1 + c,
            r@[0].id == root_id && r@[0].parent_id is None && r@[0].title == root_title
                && r@[0].body == Some(root_body) && r@[0].child_position == 0,
            forall|j: int|
                0 <= j < c ==> {
                    let n = #[trigger] r@[j + 1];
                    &&& n.id == all[j].id
                    &&& n.parent_id == Some(all[j].parent_id)
                    &&& n.title == all[j].title
                    &&& n.child_position == all[j].child_position
                    &&& n.body is None
                },
        decreases rest@.len(),
    {
        let ghost rest_before = rest@;
        let p = rest.remove(0);
        proof {
            assert(rest_before[0] == all[c as int]);
            assert(forall|t: int|
                0 <= t < rest@.len() ==> #[trigger] rest@[t] == rest_before[t + 1]);
        }
        r.push(
            TreeNode {
                id: p.id,
                parent_id: Some(p.parent_id),
                title: p.title,
                child_position: p.child_position,
                body: None,
            },
        );
        c += 1;
    }
    r
}

/// The title a copy is created under: the root may carry an explicit
/// override; everything else gets the copy suffix appended.
pub open spec fn spec_copy_title(
    title: Seq<char>,
    suffix: Seq<char>,
    override_title: Option<Seq<char>>,
    is_root: bool,
) -> Seq<char> {
    if is_root {
        match override_title {
            Some(t) => t,
            None => title + suffix,
        }
    } else {
        title + suffix
    }
}

pub fn copy_title(
    title: &str,
    suffix: &str,
    override_title: Option<&String>,
    is_root: bool,
) -> (r: String)
    ensures
        r@ == spec_copy_title(
            title@,
            suffix@,
            match override_title {
                Some(t) => Some(t@),
                None => None,
            },
            is_root,
        ),
{
    if is_root {
        match override_title {
            Some(t) => {
                return t.clone();
            },
            None => {},
        }
    }
    let tv = str_chars(title);
    let sv = str_chars(suffix);
    let out = chars_concat(&tv, &sv);
    chars_string(&out)
}

pub open spec fn plan_line_text(title: Seq<char>, parent_display: Seq<char>) -> Seq<char> {
    "Would create '"@ + title + "' under "@ + parent_display
}

/// The dry-run plan line for one node, in the same traversal order a real
/// run would create it.
pub fn plan_line(title: &str, parent_display: &str) -> (r: String)
    ensures
        r@ == plan_line_text(title@, parent_display@),
{
    let head = str_chars("Would create '");
    let tv = str_chars(title);
    let mid = str_chars("' under ");
    let pv = str_chars(parent_display);
    let m1 = chars_concat(&head, &tv);
    let m2 = chars_concat(&m1, &mid);
    let m3 = chars_concat(&m2, &pv);
    proof {
        assert(m3@ =~= plan_line_text(title@, parent_display@));
    }
    chars_string(&m3)
}

pub open spec fn dry_run_id_text(id: Seq<char>) -> Seq<char> {
    "<dry-run:"@ + id + ">"@
}

/// The synthetic id a dry run maps a node to, so the plan can still show a
/// mapping without any network write.
pub fn dry_run_placeholder(id: &str) -> (r: String)
    ensures
        r@ == dry_run_id_text(id@),
{
    let head = str_chars("<dry-run:");
    let iv = str_chars(id);
    let tail = str_chars(">");
    let m1 = chars_concat(&head, &iv);
    let m2 = chars_concat(&m1, &tail);
    proof {
        assert(m2@ =~= dry_run_id_text(id@));
    }
    chars_string(&m2)
}

pub open spec fn copy_of_text(id: Seq<char>) -> Seq<char> {
    "(copy of "@ + id + ")"@
}

/// How a dry run displays a parent that does not exist yet.
pub fn copy_of_display(id: &str) -> (r: String)
    ensures
        r@ == copy_of_text(id@),
{
    let head = str_chars("(copy of ");
    let iv = str_chars(id);
    let tail = str_chars(")");
    let m1 = chars_concat(&head, &iv);
    let m2 = chars_concat(&m1, &tail);
    proof {
        assert(m2@ =~= copy_of_text(id@));
    }
    chars_string(&m2)
}

/// The creation payload for one node: its new parent must already exist,
/// which is why creation is strictly parent-before-child.
pub fn create_page_payload(space_id: &str, title: &str, parent_id: &str, body: &str) -> (r:
    JsonValue)
    ensures
        spec_str_field(r, "spaceId"@) == Some(space_id@),
        spec_str_field(r, "title"@) == Some(title@),
        spec_str_field(r, "parentId"@) == Some(parent_id@),
        spec_str_field(r, "status"@) == Some("current"@),
        match spec_get(r, "body"@) {
            Some(b) => spec_str_field(b, "representation"@) == Some("storage"@)
                && spec_str_field(b, "value"@) == Some(body@),
            None => false,
        },
{
    let mut body_obj: Vec<(String, JsonValue)> = Vec::new();
    body_obj.push(
        (String::from_str("representation"), JsonValue::Str(String::from_str("storage"))),
    );
    body_obj.push((String::from_str("value"), JsonValue::Str(String::from_str(body))));
    let mut entries: Vec<(String, JsonValue)> = Vec::new();
    entries.push((String::from_str("spaceId"), JsonValue::Str(String::from_str(space_id))));
    entries.push((String::from_str("title"), JsonValue::Str(String::from_str(title))));
    entries.push((String::from_str("parentId"), JsonValue::Str(String::from_str(parent_id))));
    entries.push((String::from_str("status"), JsonValue::Str(String::from_str("current"))));
    entries.push((String::from_str("body"), JsonValue::Obj(body_obj)));
    let r = JsonValue::Obj(entries);
    proof {
        reveal_strlit("spaceId");
        reveal_strlit("title");
        reveal_strlit("parentId");
        reveal_strlit("status");
        reveal_strlit("body");
        reveal_strlit("representation");
        reveal_strlit("value");
        let es = entries@;
        let e1 = es.drop_first();
        let e2 = e1.drop_first();
        let e3 = e2.drop_first();
        let e4 = e3.drop_first();
        assert(e1[0] == es[1] && e1.len() == 4);
        assert(e2[0] == es[2] && e2.len() == 3);
        assert(e3[0] == es[3] && e3.len() == 2);
        assert(e4[0] == es[4] && e4.len() == 1);
        assert(e1.drop_first() =~= e2);
        assert(e2.drop_first() =~= e3);
        assert(e3.drop_first() =~= e4);
        assert(es[0].0@ == "spaceId"@);
        assert(es[1].0@ == "title"@);
        assert(es[2].0@ == "parentId"@);
        assert(es[3].0@ == "status"@);
        assert(es[4].0@ == "body"@);
        assert("spaceId"@ != "title"@ && "spaceId"@ != "parentId"@ && "spaceId"@ != "status"@
            && "spaceId"@ != "body"@);
        assert("title"@ != "parentId"@ && "title"@ != "status"@ && "title"@ != "body"@);
        assert("parentId"@ != "status"@ && "parentId"@ != "body"@);
        assert("status"@ != "body"@);
        assert(crate::jsonv::spec_obj_get(es, "title"@) == crate::jsonv::spec_obj_get(
            e1,
            "title"@,
        ));
        assert(crate::jsonv::spec_obj_get(e1, "title"@) == Some(es[1].1));
        assert(crate::jsonv::spec_obj_get(es, "parentId"@) == crate::jsonv::spec_obj_get(
            e1,
            "parentId"@,
        ));
        assert(crate::jsonv::spec_obj_get(e1, "parentId"@) == crate::jsonv::spec_obj_get(
            e2,
            "parentId"@,
        ));
        assert(crate::jsonv::spec_obj_get(e2, "parentId"@) == Some(es[2].1));
        assert(crate::jsonv::spec_obj_get(es, "status"@) == crate::jsonv::spec_obj_get(
            e1,
            "status"@,
        ));
        assert(crate::jsonv::spec_obj_get(e1, "status"@) == crate::jsonv::spec_obj_get(
            e2,
            "status"@,
        ));
        assert(crate::jsonv::spec_obj_get(e2, "status"@) == crate::jsonv::spec_obj_get(
            e3,
            "status"@,
        ));
        assert(crate::jsonv::spec_obj_get(e3, "status"@) == Some(es[3].1));
        assert(crate::jsonv::spec_obj_get(es, "body"@) == crate::jsonv::spec_obj_get(
            e1,
            "body"@,
        ));
        assert(crate::jsonv::spec_obj_get(e1, "body"@) == crate::jsonv::spec_obj_get(
            e2,
            "body"@,
        ));
        assert(crate::jsonv::spec_obj_get(e2, "body"@) == crate::jsonv::spec_obj_get(
            e3,
            "body"@,
        ));
        assert(crate::jsonv::spec_obj_get(e3, "body"@) == crate::jsonv::spec_obj_get(
            e4,
            "body"@,
        ));
        assert(crate::jsonv::spec_obj_get(e4, "body"@) == Some(es[4].1));
        let bs = body_obj@;
        assert(bs.drop_first()[0] == bs[1] && bs.drop_first().len() == 1);
        assert(bs[0].0@ == "representation"@);
        assert(bs[1].0@ == "value"@);
        assert("representation"@ != "value"@);
        assert(crate::jsonv::spec_obj_get(bs, "value"@) == crate::jsonv::spec_obj_get(
            bs.drop_first(),
            "value"@,
        ));
        assert(crate::jsonv::spec_obj_get(bs.drop_first(), "value"@) == Some(bs[1].1));
    }
    r
}

/// The new id recorded for an old id, if the node was created already.
pub open spec fn spec_mapping_get(pairs: Seq<(String, String)>, key: Seq<char>) -> Option<
    Seq<char>,
>
    decreases pairs.len(),
{
    if pairs.len() == 0 {
        None
    } else if pairs[0].0@ == key {
        Some(pairs[0].1@)
    } else {
        spec_mapping_get(pairs.drop_first(), key)
    }
}

/// Looks up the new id minted for an old one.
#[verifier::loop_isolation(false)]
pub fn mapping_get<'a>(pairs: &'a Vec<(String, String)>, key: &str) -> (r: Option<&'a String>)
    ensures
        match r {
            Some(v) => spec_mapping_get(pairs@, key@) == Some(v@),
            None => spec_mapping_get(pairs@, key@) is None,
        },
{
    let kv = str_chars(key);
    let ghost all = pairs@;
    proof {
        assert(all.subrange(0, all.len() as int) =~= all);
    }
    let mut i: usize = 0;
    while i < pairs.len()
        invariant
            i <= all.len(),
            kv@ == key@,
            spec_mapping_get(all, key@) == spec_mapping_get(
                all.subrange(i as int, all.len() as int),
                key@,
            ),
        decreases all.len() - i,
    {
        let ghost rest = all.subrange(i as int, all.len() as int);
        proof {
            assert(rest[0] == all[i as int]);
            assert(rest.drop_first() =~= all.subrange(i + 1, all.len() as int));
        }
        let pv = str_chars(pairs[i].0.as_str());
        if chars_eq(&pv, &kv) {
            return Some(&pairs[i].1);
        }
        i += 1;
    }
    proof {
        assert(all.subrange(i as int, all.len() as int) =~= Seq::<(String, String)>::empty());
    }
    None
}

proof fn lemma_count_zero_all_false(s: Seq<bool>)
    requires
        count_true(s) == 0,
    ensures
        forall|j: int| 0 <= j < s.len() ==> !(#[trigger] s[j]),
    decreases s.len(),
{
    if s.len() > 0 {
        lemma_count_zero_all_false(s.drop_last());
        assert forall|j: int| 0 <= j < s.len() implies !(#[trigger] s[j]) by {
            if j < s.len() - 1 {
                assert(s.drop_last()[j] == s[j]);
            }
        }
    }
}

proof fn lemma_count_true_zero(s: Seq<bool>)
    requires
        forall|j: int| 0 <= j < s.len() ==> !(#[trigger] s[j]),
    ensures
        count_true(s) == 0,
    decreases s.len(),
{
    if s.len() > 0 {
        lemma_count_true_zero(s.drop_last());
    }
}

} // verus!
