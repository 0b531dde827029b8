//! The hierarchical path store: a trie keyed by dot-delimited path segments,
//! each node optionally holding one attribute bag, together with the
//! root-to-leaf resolution algorithm.
//!
//! The store is modelled by the spec function [`PathTree::get`], which maps a
//! sequence of path segments to the bag stored at exactly that path, if any.
//! [`PathTree::insert`] is "last write wins" at a path; resolution folds all
//! bags found on a path's ancestor chain, root first, with the merge algebra
//! of [`crate::config`].

use vstd::prelude::*;

use crate::config::Config;
use crate::config::default_config;
use crate::config::merged;

verus! {

/// One trie node: an optional attribute bag plus the named children.
pub struct Node {
    pub config: Option<Config>,
    pub children: Vec<(String, Node)>,
}

/// The views of a sequence of path segments.
pub open spec fn seg_views(ss: Seq<String>) -> Seq<Seq<char>> {
    ss.map_values(|s: String| s@)
}

/// The child of a node reached by one segment: the first entry in the
/// children list whose name matches.
pub open spec fn child_of(cs: Seq<(String, Node)>, seg: Seq<char>) -> Option<Node>
    decreases cs.len(),
{
    if cs.len() == 0 {
        None
    } else if cs[0].0@ == seg {
        Some(cs[0].1)
    } else {
        child_of(cs.drop_first(), seg)
    }
}

/// The node reached from `n` by following `path`, segment by segment.
pub open spec fn node_at(n: Node, path: Seq<Seq<char>>) -> Option<Node>
    decreases path.len(),
{
    if path.len() == 0 {
        Some(n)
    } else {
        match child_of(n.children@, path[0]) {
            Some(c) => node_at(c, path.drop_first()),
            None => None,
        }
    }
}

/// The bag stored at exactly `path` below `n`, if any.
pub open spec fn node_get(n: Node, path: Seq<Seq<char>>) -> Option<Config> {
    match node_at(n, path) {
        Some(m) => m.config,
        None => None,
    }
}

/// A prefix trie over dot-delimited segment sequences, zero or one attribute
/// bag per path.  The empty path names no element and holds no bag.
pub struct PathTree {
    pub root: Node,
}

impl PathTree {
    /// The bag registered at exactly `path`, if any.
    pub open spec fn get(self, path: Seq<Seq<char>>) -> Option<Config> {
        if path.len() == 0 {
            None
        } else {
            node_get(self.root, path)
        }
    }

    /// An empty store: no bag at any path.
    pub fn new() -> (t: Self)
        ensures
            forall|q: Seq<Seq<char>>| #[trigger] t.get(q) is None,
    {
        let t = PathTree { root: Node { config: None, children: Vec::new() } };
        proof {
            assert forall|q: Seq<Seq<char>>| #[trigger] t.get(q) is None by {
                if q.len() > 0 {
                    assert(child_of(t.root.children@, q[0]) is None);
                }
            }
        }
        t
    }
}

/// Two non-empty sequences with equal heads and equal tails are equal.
proof fn lemma_seq_head_tail<A>(x: Seq<A>, y: Seq<A>)
    requires
        x.len() > 0,
        y.len() > 0,
        x[0] == y[0],
        x.drop_first() == y.drop_first(),
    ensures
        x == y,
{
    assert(x.drop_first().len() == x.len() - 1);
    assert(y.drop_first().len() == y.len() - 1);
    assert forall|m: int| 0 <= m < x.len() implies x[m] == y[m] by {
        if m > 0 {
            assert(x.drop_first()[m - 1] == y.drop_first()[m - 1]);
            assert(x.drop_first()[m - 1] == x[m]);
            assert(y.drop_first()[m - 1] == y[m]);
        }
    }
    assert(x =~= y);
}

/// Unfolds one step of `node_at` from the right: following `p.push(s)` is
/// following `p`, then taking the child named `s`.
proof fn lemma_node_at_step(n: Node, p: Seq<Seq<char>>, s: Seq<char>)
    ensures
        node_at(n, p.push(s)) == (match node_at(n, p) {
            Some(m) => child_of(m.children@, s),
            None => None::<Node>,
        }),
    decreases p.len(),
{
    reveal_with_fuel(node_at, 3);
    reveal_with_fuel(child_of, 3);
    assert(p.push(s)[0] == if p.len() == 0 { s } else { p[0] });
    if p.len() == 0 {
        assert(p =~~= Seq::<Seq<char>>::empty());
        assert(p.push(s).drop_first() =~~= Seq::<Seq<char>>::empty());
        if let Some(c) = child_of(n.children@, s) {
            assert(node_at(c, p.push(s).drop_first()) == Some(c));
        }
    } else {
        if let Some(c) = child_of(n.children@, p[0]) {
            assert(p.push(s).drop_first() =~~= p.drop_first().push(s));
            lemma_node_at_step(c, p.drop_first(), s);
        }
    }
}

/// Two nodes with the same children agree on every non-empty path.
proof fn lemma_node_at_same_children(n1: Node, n2: Node, q: Seq<Seq<char>>)
    requires
        n1.children@ == n2.children@,
        q.len() > 0,
    ensures
        node_at(n1, q) == node_at(n2, q),
{
}

/// `child_of` after replacing the node (not the name) of the first entry
/// matching its own name.
proof fn lemma_child_of_update(cs: Seq<(String, Node)>, j: int, c2: Node, seg: Seq<char>)
    requires
        0 <= j < cs.len(),
        forall|m: int| 0 <= m < j ==> cs[m].0@ != cs[j].0@,
    ensures
        child_of(cs.update(j, (cs[j].0, c2)), seg) == (if seg == cs[j].0@ {
            Some(c2)
        } else {
            child_of(cs, seg)
        }),
    decreases cs.len(),
{
    reveal_with_fuel(child_of, 3);
    let cs2 = cs.update(j, (cs[j].0, c2));
    if j == 0 {
        if seg != cs[0].0@ {
            assert(cs2.drop_first() =~= cs.drop_first());
        }
    } else {
        assert(cs2[0] == cs[0]);
        if seg == cs[0].0@ {
            assert(seg != cs[j].0@);
        } else {
            assert(cs2.drop_first() =~= cs.drop_first().update(j - 1, (cs[j].0, c2)));
            assert(cs.drop_first()[j - 1] == cs[j]);
            lemma_child_of_update(cs.drop_first(), j - 1, c2, seg);
        }
    }
}

/// `child_of` after appending an entry: earlier entries still win; the new
/// entry is found only where no earlier entry matches.
proof fn lemma_child_of_push(cs: Seq<(String, Node)>, pair: (String, Node), seg: Seq<char>)
    ensures
        child_of(cs.push(pair), seg) == (if child_of(cs, seg) is Some {
            child_of(cs, seg)
        } else if pair.0@ == seg {
            Some(pair.1)
        } else {
            None::<Node>
        }),
    decreases cs.len(),
{
    reveal_with_fuel(child_of, 3);
    if cs.len() == 0 {
        assert(cs.push(pair)[0] == pair);
        assert(cs.push(pair).drop_first() =~= Seq::<(String, Node)>::empty());
    } else {
        assert(cs.push(pair)[0] == cs[0]);
        if cs[0].0@ != seg {
            assert(cs.push(pair).drop_first() =~= cs.drop_first().push(pair));
            lemma_child_of_push(cs.drop_first(), pair, seg);
        }
    }
}

/// Finds the first child entry whose name matches `seg`.
fn find_child(children: &Vec<(String, Node)>, seg: &String) -> (r: Option<usize>)
    ensures
        match r {
            Some(j) => {
                &&& 0 <= j < children@.len()
                &&& children@[j as int].0@ == seg@
                &&& child_of(children@, seg@) == Some(children@[j as int].1)
                &&& forall|m: int| 0 <= m < j ==> children@[m].0@ != seg@
            },
            None => child_of(children@, seg@) is None,
        },
{
    let ghost cs = children@;
    proof {
        assert(cs.skip(0) =~= cs);
    }
    let mut j: usize = 0;
    while j < children.len()
        invariant
            0 <= j <= cs.len(),
            cs == children@,
            forall|m: int| 0 <= m < j ==> cs[m].0@ != seg@,
            child_of(cs, seg@) == child_of(cs.skip(j as int), seg@),
        decreases cs.len() - j,
    {
        proof {
            assert(cs.skip(j as int)[0] == cs[j as int]);
        }
        if children[j].0 == *seg {
            proof {
                assert(child_of(cs.skip(j as int), seg@) == Some(cs[j as int].1));
            }
            return Some(j);
        }
        proof {
            assert(cs.skip(j as int).drop_first() =~= cs.skip(j as int + 1));
        }
        j += 1;
    }
    proof {
        assert(cs.skip(cs.len() as int) =~= Seq::<(String, Node)>::empty());
    }
    None
}

/// Builds a fresh chain of nodes for the path suffix `segs[i..]`, with the
/// bag at its end.
fn make_chain(segs: &Vec<String>, i: usize, config: Config) -> (n: Node)
    requires
        i <= segs@.len(),
    ensures
        forall|q: Seq<Seq<char>>| #[trigger] node_get(n, q) == (if q == seg_views(segs@).skip(
            i as int,
        ) {
            Some(config)
        } else {
            None::<Config>
        }),
    decreases segs@.len() - i,
{
    let ghost suffix = seg_views(segs@).skip(i as int);
    if i == segs.len() {
        let n = Node { config: Some(config), children: Vec::new() };
        proof {
            assert(suffix =~~= Seq::<Seq<char>>::empty());
            assert forall|q: Seq<Seq<char>>| #[trigger] node_get(n, q) == (if q == suffix {
                Some(config)
            } else {
                None::<Config>
            }) by {
                reveal_with_fuel(child_of, 3);
                reveal_with_fuel(node_at, 3);
                if q.len() > 0 {
                    assert(child_of(n.children@, q[0]) is None);
                } else {
                    assert(q =~= suffix);
                }
            }
        }
        n
    } else {
        let tail = make_chain(segs, i + 1, config);
        let mut children: Vec<(String, Node)> = Vec::new();
        children.push((segs[i].clone(), tail));
        let n = Node { config: None, children };
        proof {
            reveal_with_fuel(child_of, 3);
            reveal_with_fuel(node_at, 3);
            let tail_suffix = seg_views(segs@).skip(i as int + 1);
            assert(suffix.len() > 0);
            assert(suffix[0] == segs@[i as int]@);
            assert(suffix.drop_first() =~~= tail_suffix);
            assert forall|q: Seq<Seq<char>>| #[trigger] node_get(n, q) == (if q == suffix {
                Some(config)
            } else {
                None::<Config>
            }) by {
                reveal_with_fuel(child_of, 3);
                reveal_with_fuel(node_at, 3);
                if q.len() == 0 {
                    assert(q != suffix);
                } else {
                    assert(n.children@[0] == (segs@[i as int], tail));
                    assert(n.children@.drop_first() =~= Seq::<(String, Node)>::empty());
                    if q[0] == segs@[i as int]@ {
                        assert(child_of(n.children@, q[0]) == Some(tail));
                        assert(node_get(tail, q.drop_first()) == (if q.drop_first()
                            == tail_suffix {
                            Some(config)
                        } else {
                            None::<Config>
                        }));
                        if q.drop_first() == tail_suffix {
                            lemma_seq_head_tail(q, suffix);
                        } else {
                            assert(q != suffix);
                        }
                    } else {
                        assert(child_of(n.children@, q[0]) is None);
                        assert(q != suffix);
                    }
                }
            }
        }
        n
    }
}

/// Stores `config` at the path `segs[i..]` below `n`, creating intermediate
/// nodes as needed and replacing any bag already stored there.
fn insert_at(n: &mut Node, segs: &Vec<String>, i: usize, config: Config)
    requires
        i <= segs@.len(),
    ensures
        forall|q: Seq<Seq<char>>| #[trigger] node_get(*final(n), q) == (if q == seg_views(
            segs@,
        ).skip(i as int) {
            Some(config)
        } else {
            node_get(*old(n), q)
        }),
    decreases segs@.len() - i,
{
    let ghost suffix = seg_views(segs@).skip(i as int);
    if i == segs.len() {
        n.config = Some(config);
        proof {
            assert(suffix =~~= Seq::<Seq<char>>::empty());
            assert forall|q: Seq<Seq<char>>| #[trigger] node_get(*n, q) == (if q == suffix {
                Some(config)
            } else {
                node_get(*old(n), q)
            }) by {
                reveal_with_fuel(child_of, 3);
                reveal_with_fuel(node_at, 3);
                if q.len() > 0 {
                    lemma_node_at_same_children(*n, *old(n), q);
                } else {
                    assert(q =~= suffix);
                }
            }
        }
        return ;
    }
    let ghost c0 = n.children@;
    let r = find_child(&n.children, &segs[i]);
    match r {
        Some(j) => {
            let (key, mut child) = n.children.remove(j);
            let ghost child0 = child;
            insert_at(&mut child, segs, i + 1, config);
            n.children.insert(j, (key, child));
            proof {
                reveal_with_fuel(child_of, 3);
                reveal_with_fuel(node_at, 3);
                let ghost tail_suffix = seg_views(segs@).skip(i as int + 1);
                assert(suffix.len() > 0);
                assert(suffix[0] == segs@[i as int]@);
                assert(suffix.drop_first() =~~= tail_suffix);
                assert(n.children@ =~= c0.update(j as int, (c0[j as int].0, child)));
                assert forall|q: Seq<Seq<char>>| #[trigger] node_get(*n, q) == (if q == suffix {
                    Some(config)
                } else {
                    node_get(*old(n), q)
                }) by {
                    if q.len() == 0 {
                        assert(q != suffix);
                    } else {
                        lemma_child_of_update(c0, j as int, child, q[0]);
                        if q[0] == segs@[i as int]@ {
                            assert(child_of(n.children@, q[0]) == Some(child));
                            assert(child_of(c0, q[0]) == Some(child0));
                            assert(node_get(child, q.drop_first()) == (if q.drop_first()
                                == tail_suffix {
                                Some(config)
                            } else {
                                node_get(child0, q.drop_first())
                            }));
                            if q.drop_first() == tail_suffix {
                                lemma_seq_head_tail(q, suffix);
                            } else {
                                assert(q != suffix);
                            }
                        } else {
                            assert(child_of(n.children@, q[0]) == child_of(c0, q[0]));
                            assert(q != suffix);
                            if let Some(c) = child_of(c0, q[0]) {
                                assert(node_at(*n, q) == node_at(c, q.drop_first()));
                                assert(node_at(*old(n), q) == node_at(c, q.drop_first()));
                            }
                        }
                    }
                }
            }
        },
        None => {
            let tail = make_chain(segs, i + 1, config);
            n.children.push((segs[i].clone(), tail));
            proof {
                reveal_with_fuel(child_of, 3);
                reveal_with_fuel(node_at, 3);
                let ghost tail_suffix = seg_views(segs@).skip(i as int + 1);
                assert(suffix.len() > 0);
                assert(suffix[0] == segs@[i as int]@);
                assert(suffix.drop_first() =~~= tail_suffix);
                assert(n.children@ =~= c0.push((n.children@.last().0, tail)));
                assert(n.children@.last().0@ == segs@[i as int]@);
                assert forall|q: Seq<Seq<char>>| #[trigger] node_get(*n, q) == (if q == suffix {
                    Some(config)
                } else {
                    node_get(*old(n), q)
                }) by {
                    if q.len() == 0 {
                        assert(q != suffix);
                    } else {
                        lemma_child_of_push(c0, (n.children@.last().0, tail), q[0]);
                        if q[0] == segs@[i as int]@ {
                            assert(child_of(c0, q[0]) is None);
                            assert(child_of(n.children@, q[0]) == Some(tail));
                            assert(node_get(tail, q.drop_first()) == (if q.drop_first()
                                == tail_suffix {
                                Some(config)
                            } else {
                                None::<Config>
                            }));
                            if q.drop_first() == tail_suffix {
                                lemma_seq_head_tail(q, suffix);
                            } else {
                                assert(q != suffix);
                            }
                        } else {
                            assert(child_of(n.children@, q[0]) == child_of(c0, q[0]));
                            assert(q != suffix);
                            if let Some(c) = child_of(c0, q[0]) {
                                assert(node_at(*n, q) == node_at(c, q.drop_first()));
                                assert(node_at(*old(n), q) == node_at(c, q.drop_first()));
                            }
                        }
                    }
                }
            }
        },
    }
}

/// The bags stored at the prefixes of `path`, in root-to-leaf order.
/// Prefixes holding no bag contribute nothing.
pub open spec fn bags_spec(t: PathTree, path: Seq<Seq<char>>) -> Seq<Config>
    decreases path.len(),
{
    if path.len() == 0 {
        Seq::empty()
    } else {
        bags_spec(t, path.drop_last()) + match t.get(path) {
            Some(c) => seq![c],
            None => Seq::empty(),
        }
    }
}

/// The left fold of the merge algebra over a sequence of bags, starting from
/// the fully-default bag.
pub open spec fn fold_merge(bags: Seq<Config>) -> Config
    decreases bags.len(),
{
    if bags.len() == 0 {
        default_config()
    } else {
        merged(fold_merge(bags.drop_last()), bags.last())
    }
}

/// A path that leads nowhere stays nowhere: once `node_at` is `None` for a
/// prefix, it is `None` for every longer prefix.
proof fn lemma_none_take_extends(n: Node, path: Seq<Seq<char>>, k: int, m: int)
    requires
        0 <= k <= m <= path.len(),
        node_at(n, path.take(k)) is None,
    ensures
        node_at(n, path.take(m)) is None,
    decreases m - k,
{
    if m > k {
        lemma_none_take_extends(n, path, k, m - 1);
        assert(path.take(m) =~= path.take(m - 1).push(path[m - 1]));
        lemma_node_at_step(n, path.take(m - 1), path[m - 1]);
    }
}

/// Prefixes beyond a dead end contribute no bags.
proof fn lemma_bags_stall(t: PathTree, path: Seq<Seq<char>>, k: int)
    requires
        0 <= k <= path.len(),
        forall|m: int| k < m <= path.len() ==> node_at(t.root, #[trigger] path.take(m)) is None,
    ensures
        bags_spec(t, path) == bags_spec(t, path.take(k)),
    decreases path.len() - k,
{
    if path.len() == k {
        assert(path.take(k) =~= path);
    } else {
        let p2 = path.take(path.len() - 1);
        assert(path.take(path.len() as int) =~= path);
        assert(node_at(t.root, path.take(path.len() as int)) is None);
        assert(t.get(path) is None);
        assert(bags_spec(t, path.drop_last()) + Seq::<Config>::empty() =~= bags_spec(
            t,
            path.drop_last(),
        ));
        assert(path.drop_last() =~= p2);
        assert forall|m: int| k < m <= p2.len() implies node_at(
            t.root,
            #[trigger] p2.take(m),
        ) is None by {
            assert(p2.take(m) =~= path.take(m));
        }
        lemma_bags_stall(t, p2, k);
        assert(p2.take(k) =~= path.take(k));
    }
}

/// The segments of a non-empty dot-delimited path, by recursion on the last
/// character: a dot closes the current segment, any other character extends
/// it.
pub open spec fn split_rec(s: Seq<char>) -> Seq<Seq<char>>
    decreases s.len(),
{
    if s.len() == 0 {
        seq![Seq::<char>::empty()]
    } else if s.last() == '.' {
        split_rec(s.drop_last()).push(Seq::empty())
    } else {
        let r = split_rec(s.drop_last());
        r.update(r.len() - 1, r.last().push(s.last()))
    }
}

/// The segments of a dot-delimited path; the empty path has no segments.
pub open spec fn spec_split(s: Seq<char>) -> Seq<Seq<char>> {
    if s.len() == 0 {
        Seq::empty()
    } else {
        split_rec(s)
    }
}

proof fn lemma_split_rec_len(s: Seq<char>)
    ensures
        split_rec(s).len() >= 1,
    decreases s.len(),
{
    if s.len() > 0 {
        lemma_split_rec_len(s.drop_last());
    }
}

/// Splits a dot-delimited path into its segments.
pub fn split_path(s: &str) -> (segs: Vec<String>)
    ensures
        seg_views(segs@) == spec_split(s@),
{
    let n = s.unicode_len();
    let mut segs: Vec<String> = Vec::new();
    if n == 0 {
        proof {
            assert(seg_views(segs@) =~~= spec_split(s@));
        }
        return segs;
    }
    let mut start: usize = 0;
    let mut i: usize = 0;
    proof {
        assert(s@.take(0) =~= Seq::<char>::empty());
        assert(s@.subrange(0, 0) =~= Seq::<char>::empty());
        assert(seg_views(segs@).push(s@.subrange(0, 0)) =~~= split_rec(s@.take(0)));
    }
    while i < n
        invariant
            0 <= start <= i <= n,
            n == s@.len(),
            seg_views(segs@).push(s@.subrange(start as int, i as int)) == split_rec(
                s@.take(i as int),
            ),
        decreases n - i,
    {
        let ghost t = s@.take(i as int);
        let ghost t2 = s@.take(i as int + 1);
        proof {
            assert(t2.drop_last() =~= t);
            assert(t2.last() == s@[i as int]);
            lemma_split_rec_len(t);
        }
        let c = s.get_char(i);
        if c == '.' {
            let piece = s.substring_char(start, i).to_owned();
            segs.push(piece);
            proof {
                assert(seg_views(segs@) =~~= split_rec(t));
                assert(s@.subrange(i as int + 1, i as int + 1) =~= Seq::<char>::empty());
                assert(seg_views(segs@).push(s@.subrange(i as int + 1, i as int + 1)) =~~=
                    split_rec(t).push(Seq::<char>::empty()));
            }
            start = i + 1;
        } else {
            proof {
                let r = split_rec(t);
                let pending = s@.subrange(start as int, i as int);
                assert(r == seg_views(segs@).push(pending));
                assert(r.last() == pending);
                assert(pending.push(s@[i as int]) =~= s@.subrange(start as int, i as int + 1));
                assert(r.update(r.len() - 1, r.last().push(t2.last())) =~~= seg_views(
                    segs@,
                ).push(s@.subrange(start as int, i as int + 1)));
            }
        }
        i += 1;
    }
    let piece = s.substring_char(start, n).to_owned();
    segs.push(piece);
    proof {
        assert(s@.take(n as int) =~= s@);
        assert(seg_views(segs@) =~~= split_rec(s@));
    }
    segs
}

impl PathTree {
    /// Creates or replaces the bag at exactly the dot-delimited `path` (last
    /// write wins), creating intermediate nodes as needed.  The empty path
    /// names no element: inserting at it leaves the store unchanged.
    pub fn insert(&mut self, path: &str, config: Config)
        ensures
            forall|q: Seq<Seq<char>>| #[trigger] final(self).get(q) == (if path@.len() > 0 && q
                == spec_split(path@) {
                Some(config)
            } else {
                old(self).get(q)
            }),
    {
        let segs = split_path(path);
        proof {
            if path@.len() > 0 {
                lemma_split_rec_len(path@);
                assert(seg_views(segs@).len() >= 1);
            }
        }
        self.insert_segs(&segs, config);
    }

    /// All bags registered at prefixes of the dot-delimited `path`, in
    /// root-to-leaf order.
    pub fn bags_on_path(&self, path: &str) -> (r: Vec<Config>)
        ensures
            r@ == bags_spec(*self, spec_split(path@)),
    {
        let segs = split_path(path);
        self.bags_on_path_segs(&segs)
    }

    /// The effective bag for the element at the dot-delimited `path`: every
    /// bag on the path's ancestor chain folded root-to-leaf into a
    /// fully-default bag with the merge algebra.
    pub fn resolve(&self, path: &str) -> (r: Config)
        ensures
            r == fold_merge(bags_spec(*self, spec_split(path@))),
    {
        let segs = split_path(path);
        self.resolve_segs(&segs)
    }
}

/// Untouched-attribute law: an attribute that no bag of a sequence sets
/// resolves to absent when the sequence is folded with the merge algebra, as
/// resolution folds the bags found on a path.
pub proof fn lemma_untouched_attribute(bags: Seq<Config>)
    ensures
        (forall|i: int| 0 <= i < bags.len() ==> (#[trigger] bags[i]).max_len is None)
            ==> fold_merge(bags).max_len is None,
        (forall|i: int| 0 <= i < bags.len() ==> (#[trigger] bags[i]).max_bytes is None)
            ==> fold_merge(bags).max_bytes is None,
        (forall|i: int| 0 <= i < bags.len() ==> (#[trigger] bags[i]).int_type is None)
            ==> fold_merge(bags).int_type is None,
        (forall|i: int| 0 <= i < bags.len() ==> (#[trigger] bags[i]).field_attributes is None)
            ==> fold_merge(bags).field_attributes is None,
        (forall|i: int| 0 <= i < bags.len() ==> (#[trigger] bags[i]).boxed is None)
            ==> fold_merge(bags).boxed is None,
        (forall|i: int| 0 <= i < bags.len() ==> (#[trigger] bags[i]).vec_type is None)
            ==> fold_merge(bags).vec_type is None,
        (forall|i: int| 0 <= i < bags.len() ==> (#[trigger] bags[i]).string_type is None)
            ==> fold_merge(bags).string_type is None,
        (forall|i: int| 0 <= i < bags.len() ==> (#[trigger] bags[i]).map_type is None)
            ==> fold_merge(bags).map_type is None,
        (forall|i: int| 0 <= i < bags.len() ==> (#[trigger] bags[i]).no_hazzer is None)
            ==> fold_merge(bags).no_hazzer is None,
        (forall|i: int| 0 <= i < bags.len() ==> (#[trigger] bags[i]).custom_field is None)
            ==> fold_merge(bags).custom_field is None,
        (forall|i: int| 0 <= i < bags.len() ==> (#[trigger] bags[i]).rename_field is None)
            ==> fold_merge(bags).rename_field is None,
        (forall|i: int| 0 <= i < bags.len() ==> (#[trigger] bags[i]).enum_int_type is None)
            ==> fold_merge(bags).enum_int_type is None,
        (forall|i: int| 0 <= i < bags.len() ==> (#[trigger] bags[i]).type_attributes is None)
            ==> fold_merge(bags).type_attributes is None,
        (forall|i: int| 0 <= i < bags.len() ==> (#[trigger] bags[i]).hazzer_attributes is None)
            ==> fold_merge(bags).hazzer_attributes is None,
        (forall|i: int| 0 <= i < bags.len() ==> (#[trigger] bags[i]).no_debug_derive is None)
            ==> fold_merge(bags).no_debug_derive is None,
        (forall|i: int| 0 <= i < bags.len() ==> (#[trigger] bags[i]).skip is None)
            ==> fold_merge(bags).skip is None,
    decreases bags.len(),
{
    if bags.len() > 0 {
        lemma_untouched_attribute(bags.drop_last());
        assert(forall|i: int| 0 <= i < bags.len() - 1 ==> bags.drop_last()[i] == #[trigger] bags[
            i
        ]);
    }
}

impl PathTree {
    /// All bags registered at prefixes of the path given by `segs`, in
    /// root-to-leaf order; prefixes without a bag contribute nothing.
    pub fn bags_on_path_segs(&self, segs: &Vec<String>) -> (r: Vec<Config>)
        ensures
            r@ == bags_spec(*self, seg_views(segs@)),
    {
        let ghost views = seg_views(segs@);
        let mut r: Vec<Config> = Vec::new();
        let mut node: &Node = &self.root;
        let mut k: usize = 0;
        proof {
            assert(views.take(0) =~= Seq::<Seq<char>>::empty());
        }
        while k < segs.len()
            invariant
                0 <= k <= segs@.len(),
                views == seg_views(segs@),
                views.len() == segs@.len(),
                node_at(self.root, views.take(k as int)) == Some(*node),
                r@ == bags_spec(*self, views.take(k as int)),
            decreases segs@.len() - k,
        {
            let ghost prev = *node;
            let found = find_child(&node.children, &segs[k]);
            proof {
                lemma_node_at_step(self.root, views.take(k as int), views[k as int]);
                assert(views.take(k as int + 1) =~= views.take(k as int).push(views[k as int]));
                assert(views[k as int] == segs@[k as int]@);
            }
            match found {
                Some(j) => {
                    node = &node.children[j].1;
                    let ghost p1 = views.take(k as int + 1);
                    proof {
                        assert(child_of(prev.children@, segs@[k as int]@) == Some(
                            prev.children@[j as int].1,
                        ));
                        assert(node_at(self.root, p1) == Some(*node));
                        assert(p1.drop_last() =~= views.take(k as int));
                        assert(p1.len() > 0);
                        assert(self.get(p1) == node.config);
                    }
                    if let Some(c) = &node.config {
                        r.push(c.clone());
                        proof {
                            assert(bags_spec(*self, p1) =~= bags_spec(
                                *self,
                                views.take(k as int),
                            ).push(*c));
                            assert(r@ == bags_spec(*self, p1));
                        }
                    } else {
                        proof {
                            assert(bags_spec(*self, p1) =~= bags_spec(
                                *self,
                                views.take(k as int),
                            ));
                            assert(r@ == bags_spec(*self, p1));
                        }
                    }
                    k += 1;
                },
                None => {
                    proof {
                        let ki = k as int;
                        assert(node_at(self.root, views.take(ki + 1)) is None);
                        assert forall|m: int| ki < m <= views.len() implies node_at(
                            self.root,
                            #[trigger] views.take(m),
                        ) is None by {
                            lemma_none_take_extends(self.root, views, k as int + 1, m);
                        }
                        lemma_bags_stall(*self, views, k as int);
                    }
                    return r;
                },
            }
        }
        proof {
            assert(views.take(segs@.len() as int) =~= views);
        }
        r
    }

    /// The effective bag for the element at the path given by `segs`: all
    /// bags on the path folded root-to-leaf into a fully-default bag with the
    /// merge algebra.
    pub fn resolve_segs(&self, segs: &Vec<String>) -> (r: Config)
        ensures
            r == fold_merge(bags_spec(*self, seg_views(segs@))),
    {
        let bags = self.bags_on_path_segs(segs);
        let mut acc = Config::new();
        let mut i: usize = 0;
        proof {
            assert(bags@.take(0) =~= Seq::<Config>::empty());
        }
        while i < bags.len()
            invariant
                0 <= i <= bags@.len(),
                bags@ == bags_spec(*self, seg_views(segs@)),
                acc == fold_merge(bags@.take(i as int)),
            decreases bags@.len() - i,
        {
            acc.merge(&bags[i]);
            proof {
                assert(bags@.take(i as int + 1).drop_last() =~= bags@.take(i as int));
                assert(bags@.take(i as int + 1).last() == bags@[i as int]);
            }
            i += 1;
        }
        proof {
            assert(bags@.take(bags@.len() as int) =~= bags@);
        }
        acc
    }

    /// Creates or replaces the bag at exactly the path given by `segs`
    /// (last write wins).  The empty path names no element: inserting at it
    /// leaves the store unchanged.
    pub fn insert_segs(&mut self, segs: &Vec<String>, config: Config)
        ensures
            forall|q: Seq<Seq<char>>| #[trigger] final(self).get(q) == (if segs@.len() > 0 && q
                == seg_views(segs@) {
                Some(config)
            } else {
                old(self).get(q)
            }),
    {
        if segs.len() == 0 {
            return ;
        }
        insert_at(&mut self.root, segs, 0, config);
        proof {
            assert(seg_views(segs@).skip(0) =~~= seg_views(segs@));
            assert(seg_views(segs@).len() > 0);
        }
    }
}

} // verus!
