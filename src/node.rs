use vstd::prelude::*;
use crate::path::{
    is_root, join_path, leaf_name, parent_of, parent_path, path_name, path_segments_of, split_path,
    split_slash, trim_leading, trim_path, views,
};

verus! {

/// Who may read or write an OSC method; containers carry `NoAccess`.
#[derive(Debug, Clone, Copy, PartialEq, Eq, Structural)]
pub enum Access {
    NoAccess,
    Read,
    Write,
    ReadWrite,
}

impl Access {
    /// The protocol's numeric code for this access level.
    pub open spec fn spec_code(self) -> u8 {
        match self {
            Access::NoAccess => 0,
            Access::Read => 1,
            Access::Write => 2,
            Access::ReadWrite => 3,
        }
    }

    pub fn code(&self) -> (r: u8)
        ensures
            r == self.spec_code(),
    {
        match self {
            Access::NoAccess => 0,
            Access::Read => 1,
            Access::Write => 2,
            Access::ReadWrite => 3,
        }
    }
}

/// One entry of the namespace: a container, or a method when it has a type tag.
/// `value` holds the JSON text of the current value, when there is one.
#[derive(Debug)]
pub struct OscNode {
    pub full_path: String,
    pub access: Option<Access>,
    pub typetag: Option<String>,
    pub value: Option<String>,
    pub contents: Vec<(String, OscNode)>,
}

/// What a node says of itself, apart from its children.
pub struct NodeAttrs {
    pub full_path: Seq<char>,
    pub access: Option<Access>,
    pub typetag: Option<Seq<char>>,
    pub value: Option<Seq<char>>,
}

pub open spec fn opt_view(o: Option<String>) -> Option<Seq<char>> {
    match o {
        Some(s) => Some(s@),
        None => None,
    }
}

pub open spec fn attrs_of(n: OscNode) -> NodeAttrs {
    NodeAttrs {
        full_path: n.full_path@,
        access: n.access,
        typetag: opt_view(n.typetag),
        value: opt_view(n.value),
    }
}

/// The attributes of a container at address `p`.
pub open spec fn container_attrs(p: Seq<char>) -> NodeAttrs {
    NodeAttrs { full_path: p, access: Some(Access::NoAccess), typetag: None, value: None }
}

/// The attributes of a method at address `p`.
pub open spec fn method_attrs(p: Seq<char>, access: Access, typetag: Seq<char>) -> NodeAttrs {
    NodeAttrs { full_path: p, access: Some(access), typetag: Some(typetag), value: None }
}

pub open spec fn has_key_at(n: OscNode, i: int, k: Seq<char>) -> bool {
    0 <= i < n.contents@.len() && n.contents@[i].0@ == k
}

/// The child of `n` under the segment `k`.
pub open spec fn child(n: OscNode, k: Seq<char>) -> Option<OscNode> {
    if exists|i: int| has_key_at(n, i, k) {
        Some(n.contents@[choose|i: int| has_key_at(n, i, k)].1)
    } else {
        None
    }
}

/// The node reached from `n` by following the segments `q`.
pub open spec fn lookup(n: OscNode, q: Seq<Seq<char>>) -> Option<OscNode>
    decreases q.len(),
{
    if q.len() == 0 {
        Some(n)
    } else {
        match child(n, q[0]) {
            Some(c) => lookup(c, q.drop_first()),
            None => None,
        }
    }
}

/// No two children of `n` share a segment name.
pub open spec fn keys_unique(n: OscNode) -> bool {
    forall|i: int, j: int|
        0 <= i < n.contents@.len() && 0 <= j < n.contents@.len() && i != j
            ==> #[trigger] n.contents@[i].0@ != #[trigger] n.contents@[j].0@
}

/// `q` is a prefix of `segs` (the empty prefix included).
pub open spec fn is_prefix(q: Seq<Seq<char>>, segs: Seq<Seq<char>>) -> bool {
    q.len() <= segs.len() && q == segs.take(q.len() as int)
}

/// The namespace after making sure that every prefix of `segs` exists below a node at
/// relative address `pre`: present nodes stay as they are, missing ones become containers.
pub open spec fn ensured(
    m: Map<Seq<Seq<char>>, NodeAttrs>,
    pre: Seq<Seq<char>>,
    segs: Seq<Seq<char>>,
) -> Map<Seq<Seq<char>>, NodeAttrs> {
    Map::new(
        |q: Seq<Seq<char>>| m.contains_key(q) || is_prefix(q, segs),
        |q: Seq<Seq<char>>|
            if m.contains_key(q) {
                m[q]
            } else {
                container_attrs(join_path(pre + q))
            },
    )
}

impl OscNode {
    /// Every node of the tree has children with distinct names.
    pub open spec fn wf(self) -> bool {
        forall|q: Seq<Seq<char>>| #[trigger] lookup(self, q) is Some ==> keys_unique(
            lookup(self, q)->0,
        )
    }
}

impl View for OscNode {
    /// Each address below this node (as segments) with the attributes of its node.
    type V = Map<Seq<Seq<char>>, NodeAttrs>;

    open spec fn view(&self) -> Map<Seq<Seq<char>>, NodeAttrs> {
        Map::new(
            |q: Seq<Seq<char>>| lookup(*self, q) is Some,
            |q: Seq<Seq<char>>| attrs_of(lookup(*self, q)->0),
        )
    }
}

proof fn lemma_child_at(n: OscNode, i: int)
    requires
        keys_unique(n),
        0 <= i < n.contents@.len(),
    ensures
        child(n, n.contents@[i].0@) == Some(n.contents@[i].1),
{
    let k = n.contents@[i].0@;
    assert(has_key_at(n, i, k));
    let j = choose|j: int| has_key_at(n, j, k);
    if j != i {
        assert(n.contents@[i].0@ != n.contents@[j].0@);
    }
}

/// Two nodes whose children under `k` sit at the same places have the same child `k`.
proof fn lemma_child_same(a: OscNode, b: OscNode, k: Seq<char>)
    requires
        keys_unique(a),
        keys_unique(b),
        forall|i: int| has_key_at(a, i, k) ==> has_key_at(b, i, k) && b.contents@[i] == a.contents@[i],
        forall|i: int| has_key_at(b, i, k) ==> has_key_at(a, i, k),
    ensures
        child(a, k) == child(b, k),
{
    if exists|i: int| has_key_at(a, i, k) {
        let i = choose|i: int| has_key_at(a, i, k);
        lemma_child_at(a, i);
        lemma_child_at(b, i);
    }
}

proof fn lemma_new_container_view(n: OscNode)
    requires
        n.contents@.len() == 0,
    ensures
        n.wf(),
        n@ == map![Seq::<Seq<char>>::empty() => attrs_of(n)],
{
    assert forall|q: Seq<Seq<char>>| q.len() > 0 implies lookup(n, q) is None by {
        assert(!(exists|i: int| has_key_at(n, i, q[0])));
    };
    assert forall|q: Seq<Seq<char>>| #[trigger] lookup(n, q) is Some implies keys_unique(
        lookup(n, q)->0,
    ) by {
        assert(q.len() == 0);
    };
    let m = map![Seq::<Seq<char>>::empty() => attrs_of(n)];
    assert forall|q: Seq<Seq<char>>| n@.contains_key(q) <==> m.contains_key(q) by {
        if q.len() == 0 {
            assert(q =~= Seq::<Seq<char>>::empty());
        }
    };
    assert(n@ =~= m);
}

/// Replacing the child at one place by `c` changes the tree below that child only.
proof fn lemma_lookup_replaced(a: OscNode, b: OscNode, idx: int, c: OscNode, q: Seq<Seq<char>>)
    requires
        keys_unique(a),
        0 <= idx < a.contents@.len(),
        b.contents@.len() == a.contents@.len(),
        forall|j: int| 0 <= j < a.contents@.len() && j != idx ==> b.contents@[j] == a.contents@[j],
        b.contents@[idx].0@ == a.contents@[idx].0@,
        b.contents@[idx].1 == c,
        q.len() > 0,
    ensures
        keys_unique(b),
        q[0] == a.contents@[idx].0@ ==> lookup(b, q) == lookup(c, q.drop_first()),
        q[0] != a.contents@[idx].0@ ==> lookup(b, q) == lookup(a, q),
{
    assert(keys_unique(b)) by {
        assert forall|i: int, j: int|
            0 <= i < b.contents@.len() && 0 <= j < b.contents@.len() && i != j implies #[trigger] b.contents@[i].0@
            != #[trigger] b.contents@[j].0@ by {
            assert(b.contents@[i].0@ == a.contents@[i].0@);
            assert(b.contents@[j].0@ == a.contents@[j].0@);
            assert(a.contents@[i].0@ != a.contents@[j].0@);
        };
    };
    let k = a.contents@[idx].0@;
    if q[0] == k {
        lemma_child_at(b, idx);
    } else {
        lemma_child_same(a, b, q[0]);
    }
}

/// Appending a child under a new name keeps every other lookup.
proof fn lemma_lookup_pushed(a: OscNode, b: OscNode, k: Seq<char>, c: OscNode, q: Seq<Seq<char>>)
    requires
        keys_unique(a),
        forall|i: int| !has_key_at(a, i, k),
        b.contents@.len() == a.contents@.len() + 1,
        forall|i: int| 0 <= i < a.contents@.len() ==> b.contents@[i] == a.contents@[i],
        b.contents@.last().0@ == k,
        q.len() > 0,
        q[0] != k,
    ensures
        keys_unique(b),
        lookup(b, q) == lookup(a, q),
{
    assert(keys_unique(b)) by {
        assert forall|i: int, j: int|
            0 <= i < b.contents@.len() && 0 <= j < b.contents@.len() && i != j implies #[trigger] b.contents@[i].0@
            != #[trigger] b.contents@[j].0@ by {
            if i < a.contents@.len() && j < a.contents@.len() {
                assert(a.contents@[i].0@ != a.contents@[j].0@);
            } else if i < a.contents@.len() {
                assert(!has_key_at(a, i, k));
            } else {
                assert(!has_key_at(a, j, k));
            }
        };
    };
    lemma_child_same(a, b, q[0]);
}

impl OscNode {
    /// A container at `full_path`, with no children.
    pub fn new_container(full_path: &str) -> (r: OscNode)
        ensures
            attrs_of(r) == container_attrs(full_path@),
            r.contents@.len() == 0,
            r.wf(),
            r@ == map![Seq::<Seq<char>>::empty() => container_attrs(full_path@)],
    {
        let r = OscNode {
            full_path: String::from_str(full_path),
            access: Some(Access::NoAccess),
            typetag: None,
            value: None,
            contents: Vec::new(),
        };
        proof {
            lemma_new_container_view(r);
        }
        r
    }

    /// A method at `full_path` with the given access and type tag, with no children.
    pub fn new_method(full_path: &str, access: Access, typetag: &str) -> (r: OscNode)
        ensures
            attrs_of(r) == method_attrs(full_path@, access, typetag@),
            r.contents@.len() == 0,
            r.wf(),
            r@ == map![Seq::<Seq<char>>::empty() => method_attrs(full_path@, access, typetag@)],
    {
        let r = OscNode {
            full_path: String::from_str(full_path),
            access: Some(access),
            typetag: Some(String::from_str(typetag)),
            value: None,
            contents: Vec::new(),
        };
        proof {
            lemma_new_container_view(r);
        }
        r
    }
}

/// Following `k` and then `r` from `n` is following `r` from the child `k`.
proof fn lemma_lookup_cons(n: OscNode, k: Seq<char>, r: Seq<Seq<char>>)
    ensures
        lookup(n, seq![k] + r) == match child(n, k) {
            Some(c) => lookup(c, r),
            None => None,
        },
{
    let q = seq![k] + r;
    assert(q[0] == k);
    assert(q.drop_first() =~= r);
}

/// The child `k` of a well-formed tree is well-formed, and its view is the part of the
/// parent's view under `k`.
proof fn lemma_child_view(n: OscNode, k: Seq<char>)
    requires
        n.wf(),
        child(n, k) is Some,
    ensures
        (child(n, k)->0).wf(),
        forall|r: Seq<Seq<char>>|
            #[trigger] lookup(child(n, k)->0, r) == lookup(n, seq![k] + r),
{
    let c = child(n, k)->0;
    assert forall|r: Seq<Seq<char>>| #[trigger] lookup(c, r) == lookup(n, seq![k] + r) by {
        lemma_lookup_cons(n, k, r);
    };
    assert forall|r: Seq<Seq<char>>| #[trigger] lookup(c, r) is Some implies keys_unique(
        lookup(c, r)->0,
    ) by {
        lemma_lookup_cons(n, k, r);
        assert(lookup(n, seq![k] + r) is Some);
    };
}

/// The place of the child named `key`, if `node` has one.
fn find_child(node: &OscNode, key: &String) -> (r: Option<usize>)
    ensures
        r matches Some(i) ==> has_key_at(*node, i as int, key@),
        r is None ==> forall|j: int| !has_key_at(*node, j, key@),
{
    let len = node.contents.len();
    let mut idx: usize = 0;
    while idx < len
        invariant
            idx <= len,
            len == node.contents@.len(),
            forall|j: int| 0 <= j < idx ==> node.contents@[j].0@ != key@,
        decreases len - idx,
    {
        if node.contents[idx].0 == *key {
            return Some(idx);
        }
        idx = idx + 1;
    }
    None
}

/// Makes sure that every prefix of `segs[i..]` exists below `node`, whose own address is
/// `base`, creating the missing ones as containers.
fn ensure_from(node: &mut OscNode, segs: &Vec<String>, i: usize, base: &String)
    requires
        old(node).wf(),
        i <= segs@.len(),
        base@ == join_path(views(segs@).take(i as int)),
    ensures
        final(node).wf(),
        attrs_of(*final(node)) == attrs_of(*old(node)),
        final(node)@ == ensured(
            old(node)@,
            views(segs@).take(i as int),
            views(segs@).skip(i as int),
        ),
    decreases segs@.len() - i,
{
    let ghost pre = views(segs@).take(i as int);
    let ghost rest = views(segs@).skip(i as int);
    let ghost n0 = *node;
    let ghost m0 = n0@;
    assert(lookup(n0, Seq::<Seq<char>>::empty()) is Some);
    if i == segs.len() {
        assert forall|q: Seq<Seq<char>>| is_prefix(q, rest) implies m0.contains_key(q) by {
            assert(q =~= Seq::<Seq<char>>::empty());
        };
        assert(node@ =~= ensured(m0, pre, rest));
        return;
    }
    let key = segs[i].clone();
    assert(key@ == views(segs@)[i as int]);
    assert(rest[0] == key@);
    let mut next_base = base.clone();
    next_base.append("/");
    next_base.append(key.as_str());
    proof {
        reveal_strlit("/");
        assert(views(segs@).take(i + 1).drop_last() =~= pre);
        assert(next_base@ =~= join_path(views(segs@).take(i + 1)));
    }
    let len = node.contents.len();
    let mut idx: usize = 0;
    let mut found = false;
    match find_child(node, &key) {
        Some(j) => {
            idx = j;
            found = true;
        },
        None => {},
    }
    assert(keys_unique(n0));
    if !found {
        let c0 = OscNode::new_container(next_base.as_str());
        let k2 = key.clone();
        node.contents.push((k2, c0));
        idx = len;
        proof {
            assert forall|q: Seq<Seq<char>>| q.len() > 0 && q[0] != key@ implies lookup(
                *node,
                q,
            ) == lookup(n0, q) by {
                lemma_lookup_pushed(n0, *node, key@, c0, q);
            };
            lemma_lookup_pushed(n0, *node, key@, c0, seq![key@.push('x')]);
            lemma_child_at(*node, idx as int);
        }
    } else {
        proof {
            lemma_child_at(n0, idx as int);
            lemma_child_view(n0, key@);
        }
    }
    let ghost n1 = *node;
    let ghost c = n1.contents@[idx as int].1;
    assert(keys_unique(n1));
    assert(n1.contents@[idx as int].0@ == key@);
    assert(c.wf());
    ensure_from(&mut node.contents[idx].1, segs, i + 1, &next_base);
    let ghost n2 = *node;
    let ghost c2 = n2.contents@[idx as int].1;
    assert(n2.contents@ == n1.contents@.update(idx as int, (n1.contents@[idx as int].0, c2)));
    let ghost rest2 = views(segs@).skip(i + 1);
    let ghost pre2 = views(segs@).take(i + 1);
    assert(rest2 =~= rest.drop_first());
    assert(pre2 =~= pre.push(key@));
    proof {
        let me = ensured(m0, pre, rest);
        assert forall|q: Seq<Seq<char>>|
            #![trigger lookup(n2, q)]
            (lookup(n2, q) is Some <==> me.contains_key(q)) && (lookup(n2, q) is Some ==> attrs_of(
                lookup(n2, q)->0,
            ) == me[q] && keys_unique(lookup(n2, q)->0)) by {
            if q.len() == 0 {
                lemma_lookup_replaced(n1, n2, idx as int, c2, seq![key@]);
                assert(attrs_of(n2) == attrs_of(n0));
                assert(me.contains_key(q));
                assert(me[q] == attrs_of(n0));
            } else {
                lemma_lookup_replaced(n1, n2, idx as int, c2, q);
                let r = q.drop_first();
                assert(q =~= seq![q[0]] + r);
                lemma_lookup_cons(n0, q[0], r);
                if q[0] == key@ {
                    assert(lookup(c2, r) is Some ==> keys_unique(lookup(c2, r)->0));
                    assert(is_prefix(q, rest) <==> is_prefix(r, rest2)) by {
                        if q.len() <= rest.len() {
                            let t = rest.take(q.len() as int);
                            assert(t =~= seq![key@] + rest2.take(r.len() as int));
                            if q == t {
                                assert(r =~= t.drop_first());
                                assert(t.drop_first() =~= rest2.take(r.len() as int));
                            }
                            if r == rest2.take(r.len() as int) {
                                assert(q =~= t);
                            }
                        }
                    };
                    assert(pre + q =~= pre2 + r);
                    assert(lookup(n2, q) == lookup(c2, r));
                    assert(c2@ == ensured(c@, pre2, rest2));
                    assert(c2@.contains_key(r) == (lookup(c2, r) is Some));
                    assert(c@.contains_key(r) == (lookup(c, r) is Some));
                    assert(m0.contains_key(q) == (lookup(n0, q) is Some));
                    assert(me.contains_key(q) == (m0.contains_key(q) || is_prefix(q, rest)));
                    assert(c2@.contains_key(r) == (c@.contains_key(r) || is_prefix(r, rest2)));
                    assert(c2@.contains_key(r) ==> c2@[r] == attrs_of(lookup(c2, r)->0));
                    assert(c2@.contains_key(r) ==> c2@[r] == (if c@.contains_key(r) {
                        c@[r]
                    } else {
                        container_attrs(join_path(pre2 + r))
                    }));
                    assert(me.contains_key(q) ==> me[q] == (if m0.contains_key(q) {
                        m0[q]
                    } else {
                        container_attrs(join_path(pre + q))
                    }));
                    if found {
                        assert(lookup(c, r) == lookup(n0, q));
                        assert(c@.contains_key(r) ==> c@[r] == m0[q]);
                        assert(lookup(n2, q) is Some <==> me.contains_key(q));
                    } else {
                        assert(child(n0, key@) is None) by {
                            if exists|j: int| has_key_at(n0, j, key@) {
                                let j = choose|j: int| has_key_at(n0, j, key@);
                                assert(n0.contents@[j].0@ != key@);
                            }
                        };
                        assert(lookup(n0, q) is None);
                        assert(!m0.contains_key(q));
                        assert(c@ == map![Seq::<Seq<char>>::empty() => container_attrs(next_base@)]);
                        if r.len() == 0 {
                            assert(r =~= Seq::<Seq<char>>::empty());
                            assert(c@.contains_key(r));
                            assert(pre2 + r =~= pre2);
                            assert(rest2.take(0) =~= r);
                            assert(is_prefix(r, rest2));
                        } else {
                            assert(!c@.contains_key(r));
                        }
                        assert(lookup(n2, q) is Some <==> me.contains_key(q));
                    }
                    assert(lookup(n2, q) is Some <==> me.contains_key(q));
                } else {
                    assert(lookup(n2, q) == lookup(n0, q));
                    assert(m0.contains_key(q) ==> m0[q] == attrs_of(lookup(n0, q)->0));
                    assert(lookup(n0, q) is Some ==> keys_unique(lookup(n0, q)->0));
                    assert(!is_prefix(q, rest)) by {
                        if is_prefix(q, rest) {
                            assert(q[0] == rest[0]);
                        }
                    };
                }
            }
        };
        assert(n2@ =~= me);
    }
}

/// The namespace after placing a childless node with attributes `a` at `q`: whatever
/// stood at `q` goes, with everything below it.
pub open spec fn placed(
    m: Map<Seq<Seq<char>>, NodeAttrs>,
    q: Seq<Seq<char>>,
    a: NodeAttrs,
) -> Map<Seq<Seq<char>>, NodeAttrs> {
    Map::new(
        |x: Seq<Seq<char>>| (m.contains_key(x) && !is_prefix(q, x)) || x == q,
        |x: Seq<Seq<char>>|
            if x == q {
                a
            } else {
                m[x]
            },
    )
}

/// Places `leaf` among the children of `node` under the name `name`, replacing the child
/// of that name if there is one.
fn put_child(node: &mut OscNode, name: String, leaf: OscNode)
    requires
        old(node).wf(),
        leaf.contents@.len() == 0,
    ensures
        final(node).wf(),
        final(node)@ == placed(old(node)@, seq![name@], attrs_of(leaf)),
{
    let ghost n0 = *node;
    let ghost m0 = n0@;
    let ghost a = attrs_of(leaf);
    let ghost target = seq![name@];
    proof {
        lemma_new_container_view(leaf);
    }
    assert(keys_unique(n0)) by {
        assert(lookup(n0, Seq::<Seq<char>>::empty()) is Some);
    };
    let ghost lf = leaf;
    let ghost nm = name@;
    let ghost mut was_found = false;
    let idx: usize;
    match find_child(node, &name) {
        Some(j) => {
            idx = j;
            proof {
                was_found = true;
            }
            node.contents[j] = (name, leaf);
            proof {
                lemma_lookup_replaced(n0, *node, idx as int, lf, seq![nm]);
            }
        },
        None => {
            idx = node.contents.len();
            node.contents.push((name, leaf));
            proof {
                assert(nm.push('x').len() != nm.len());
                lemma_lookup_pushed(n0, *node, nm, lf, seq![nm.push('x')]);
            }
        },
    }
    let ghost n2 = *node;
    proof {
        lemma_child_at(n2, idx as int);
        assert forall|x: Seq<Seq<char>>|
            #![trigger lookup(n2, x)]
            (lookup(n2, x) is Some <==> placed(m0, target, a).contains_key(x)) && (lookup(n2, x) is Some
                ==> attrs_of(lookup(n2, x)->0) == placed(m0, target, a)[x] && keys_unique(
                lookup(n2, x)->0,
            )) by {
            if x.len() == 0 {
                assert(!is_prefix(target, x));
                assert(x != target);
                assert(lookup(n0, x) is Some);
                assert(m0.contains_key(x));
                assert(attrs_of(n2) == attrs_of(n0));
            } else {
                let r = x.drop_first();
                assert(x =~= seq![x[0]] + r);
                lemma_lookup_cons(n2, x[0], r);
                if x[0] == target[0] {
                    assert(is_prefix(target, x)) by {
                        assert(x.take(1) =~= target);
                    };
                    if r.len() == 0 {
                        assert(x =~= target);
                    } else {
                        assert(x != target);
                    }
                    assert(lookup(lf, r) is Some <==> r.len() == 0) by {
                        if r.len() == 0 {
                            assert(r =~= Seq::<Seq<char>>::empty());
                        } else {
                            assert(!lf@.contains_key(r));
                        }
                    };
                } else {
                    assert(!is_prefix(target, x)) by {
                        if is_prefix(target, x) {
                            assert(x.take(1)[0] == x[0]);
                        }
                    };
                    assert(x != target);
                    if was_found {
                        lemma_lookup_replaced(n0, n2, idx as int, lf, x);
                    } else {
                        lemma_lookup_pushed(n0, n2, nm, lf, x);
                    }
                    assert(lookup(n2, x) == lookup(n0, x));
                    assert(m0.contains_key(x) ==> m0[x] == attrs_of(lookup(n0, x)->0));
                    assert(lookup(n0, x) is Some ==> keys_unique(lookup(n0, x)->0));
                }
            }
        };
        assert(n2@ =~= placed(m0, target, a));
    }
}

/// The part of a namespace below `q`, addressed relative to `q`.
pub open spec fn below(m: Map<Seq<Seq<char>>, NodeAttrs>, q: Seq<Seq<char>>) -> Map<
    Seq<Seq<char>>,
    NodeAttrs,
> {
    Map::new(|x: Seq<Seq<char>>| m.contains_key(q + x), |x: Seq<Seq<char>>| m[q + x])
}

/// The namespace `m` with the part below `q` replaced by `v`.
pub open spec fn grafted(
    m: Map<Seq<Seq<char>>, NodeAttrs>,
    q: Seq<Seq<char>>,
    v: Map<Seq<Seq<char>>, NodeAttrs>,
) -> Map<Seq<Seq<char>>, NodeAttrs> {
    Map::new(
        |x: Seq<Seq<char>>|
            if is_prefix(q, x) {
                v.contains_key(x.skip(q.len() as int))
            } else {
                m.contains_key(x)
            },
        |x: Seq<Seq<char>>|
            if is_prefix(q, x) {
                v[x.skip(q.len() as int)]
            } else {
                m[x]
            },
    )
}

/// Following `q` and then `x` is following `q + x`.
proof fn lemma_lookup_concat(n: OscNode, q: Seq<Seq<char>>, x: Seq<Seq<char>>)
    requires
        lookup(n, q) is Some,
    ensures
        lookup(lookup(n, q)->0, x) == lookup(n, q + x),
    decreases q.len(),
{
    if q.len() > 0 {
        let c = child(n, q[0])->0;
        lemma_lookup_concat(c, q.drop_first(), x);
        assert(q.drop_first() + x =~= (q + x).drop_first());
        assert((q + x)[0] == q[0]);
    } else {
        assert(q + x =~= x);
    }
}

/// A mutable reference to the node at `segs[i..]` below `node`.
fn node_at_mut<'a>(node: &'a mut OscNode, segs: &Vec<String>, i: usize) -> (r: &'a mut OscNode)
    requires
        old(node).wf(),
        i <= segs@.len(),
        lookup(*old(node), views(segs@).skip(i as int)) is Some,
    ensures
        *r == lookup(*old(node), views(segs@).skip(i as int))->0,
        final(node)@ == grafted(old(node)@, views(segs@).skip(i as int), final(r)@),
        final(r).wf() ==> final(node).wf(),
    decreases segs@.len() - i,
{
    let ghost rest = views(segs@).skip(i as int);
    let ghost n0 = *node;
    let ghost n2 = *final(node);
    if i == segs.len() {
        assert(rest =~= Seq::<Seq<char>>::empty());
        proof {
            assert forall|x: Seq<Seq<char>>| #[trigger] x.skip(0) == x by {
                assert(x.skip(0) =~= x);
            };
            assert forall|x: Seq<Seq<char>>| is_prefix(rest, x) by {
                assert(x.take(0) =~= rest);
            };
        }
        return node;
    }
    assert(keys_unique(n0)) by {
        assert(lookup(n0, Seq::<Seq<char>>::empty()) is Some);
    };
    let key = segs[i].clone();
    assert(key@ == views(segs@)[i as int]);
    assert(rest[0] == key@);
    proof {
        lemma_lookup_cons(n0, key@, rest.drop_first());
        assert(rest =~= seq![key@] + rest.drop_first());
    }
    let idx: usize = match find_child(node, &key) {
        Some(j) => j,
        None => {
            proof {
                if exists|j: int| has_key_at(n0, j, key@) {
                    let j = choose|j: int| has_key_at(n0, j, key@);
                    assert(!has_key_at(n0, j, key@));
                }
            }
            return node;
        },
    };
    proof {
        lemma_child_at(n0, idx as int);
        lemma_child_view(n0, key@);
    }
    let ghost c = n0.contents@[idx as int].1;
    let ghost rest2 = views(segs@).skip(i + 1);
    assert(rest2 =~= rest.drop_first());
    let r = node_at_mut(&mut node.contents[idx].1, segs, i + 1);
    proof {
        let c2 = n2.contents@[idx as int].1;
        let v = final(r)@;
        assert(n2.contents@ == n0.contents@.update(idx as int, (n0.contents@[idx as int].0, c2)));
        let me = grafted(n0@, rest, v);
        assert forall|x: Seq<Seq<char>>|
            #![trigger lookup(n2, x)]
            (lookup(n2, x) is Some <==> me.contains_key(x)) && (lookup(n2, x) is Some ==> attrs_of(
                lookup(n2, x)->0,
            ) == me[x] && (final(r).wf() ==> keys_unique(lookup(n2, x)->0))) by {
            if x.len() == 0 {
                lemma_lookup_replaced(n0, n2, idx as int, c2, seq![key@]);
                assert(!is_prefix(rest, x));
                assert(lookup(n0, x) is Some);
            } else {
                lemma_lookup_replaced(n0, n2, idx as int, c2, x);
                let xr = x.drop_first();
                assert(x =~= seq![x[0]] + xr);
                lemma_lookup_cons(n0, x[0], xr);
                if x[0] == key@ {
                    assert(lookup(n2, x) == lookup(c2, xr));
                    assert(lookup(c, xr) == lookup(n0, x));
                    assert(is_prefix(rest, x) <==> is_prefix(rest2, xr)) by {
                        if rest.len() <= x.len() {
                            let t = x.take(rest.len() as int);
                            assert(t =~= seq![key@] + xr.take(rest2.len() as int));
                            if rest == t {
                                assert(rest2 =~= t.drop_first());
                                assert(t.drop_first() =~= xr.take(rest2.len() as int));
                            }
                            if rest2 == xr.take(rest2.len() as int) {
                                assert(rest =~= t);
                            }
                        }
                    };
                    if is_prefix(rest, x) {
                        assert(x.skip(rest.len() as int) =~= xr.skip(rest2.len() as int));
                    }
                    assert(c2@.contains_key(xr) == (lookup(c2, xr) is Some));
                    assert(c@.contains_key(xr) == (lookup(c, xr) is Some));
                    assert(n0@.contains_key(x) == (lookup(n0, x) is Some));
                    assert(c@.contains_key(xr) ==> c@[xr] == n0@[x]);
                    assert(c2@.contains_key(xr) ==> c2@[xr] == attrs_of(lookup(c2, xr)->0));
                } else {
                    assert(lookup(n2, x) == lookup(n0, x));
                    assert(!is_prefix(rest, x)) by {
                        if is_prefix(rest, x) {
                            assert(x.take(rest.len() as int)[0] == x[0]);
                        }
                    };
                    assert(n0@.contains_key(x) ==> n0@[x] == attrs_of(lookup(n0, x)->0));
                    assert(lookup(n0, x) is Some ==> keys_unique(lookup(n0, x)->0));
                }
            }
        };
        assert(n2@ =~= me);
    }
    r
}

/// Putting back what is below `q` leaves the namespace as it was: when nothing is done
/// through the node that `ensure_path` returns, the tree afterwards is the `ensured` one.
pub proof fn lemma_graft_below(m: Map<Seq<Seq<char>>, NodeAttrs>, q: Seq<Seq<char>>)
    ensures
        grafted(m, q, below(m, q)) == m,
{
    assert forall|x: Seq<Seq<char>>| is_prefix(q, x) implies q + x.skip(q.len() as int) == x by {
        assert(q + x.skip(q.len() as int) =~= x);
    };
    assert(grafted(m, q, below(m, q)) =~= m);
}

/// Placing a node under `k` in the part below `q` is placing it at `q` followed by `k`.
proof fn lemma_graft_placed(
    m: Map<Seq<Seq<char>>, NodeAttrs>,
    q: Seq<Seq<char>>,
    k: Seq<char>,
    a: NodeAttrs,
)
    ensures
        grafted(m, q, placed(below(m, q), seq![k], a)) == placed(m, q.push(k), a),
{
    let t = q.push(k);
    let g = grafted(m, q, placed(below(m, q), seq![k], a));
    let p = placed(m, t, a);
    assert forall|x: Seq<Seq<char>>|
        #![trigger g.contains_key(x)]
        #![trigger p.contains_key(x)]
        (g.contains_key(x) == p.contains_key(x)) && (g.contains_key(x) ==> g[x] == p[x]) by {
        if is_prefix(q, x) {
            let y = x.skip(q.len() as int);
            assert(q + y =~= x);
            if x == t {
                assert(y =~= seq![k]);
            }
            if y == seq![k] {
                assert(x =~= t);
            }
            if is_prefix(t, x) {
                assert(y.take(1) =~= seq![k]) by {
                    assert(x.take(t.len() as int)[q.len() as int] == k);
                };
            }
            if is_prefix(seq![k], y) {
                assert(x.take(t.len() as int) =~= t) by {
                    assert(y.take(1)[0] == y[0]);
                    assert(y[0] == k);
                    assert(x[q.len() as int] == y[0]);
                };
            }
        } else {
            if is_prefix(t, x) {
                assert(x.take(q.len() as int) =~= q);
            }
            if x == t {
                assert(x.take(q.len() as int) =~= q);
            }
        }
    };
    assert(g =~= p);
}

impl OscNode {
    /// Makes sure that a node exists at `path`, creating each missing ancestor and the node
    /// itself as containers; nodes already present are left as they are. The root path
    /// `"/"` leaves the tree unchanged. Returns the node at `path`; whatever is done
    /// through it becomes the part of the tree below `path`.
    pub fn ensure_path<'a>(root: &'a mut OscNode, path: &str) -> (r: &'a mut OscNode)
        requires
            old(root).wf(),
        ensures
            (*r).wf(),
            (*r)@ == below(
                ensured(old(root)@, Seq::empty(), path_segments_of(path@)),
                path_segments_of(path@),
            ),
            final(root)@ == grafted(
                ensured(old(root)@, Seq::empty(), path_segments_of(path@)),
                path_segments_of(path@),
                final(r)@,
            ),
            final(r).wf() ==> final(root).wf(),
    {
        let ghost m0 = root@;
        if is_root(path) {
            let ghost e = Seq::<Seq<char>>::empty();
            assert(lookup(*root, e) is Some);
            assert forall|q: Seq<Seq<char>>| is_prefix(q, e) implies m0.contains_key(q) by {
                assert(q =~= e);
            };
            assert(m0 =~= ensured(m0, e, path_segments_of(path@)));
            assert forall|x: Seq<Seq<char>>| #[trigger] (e + x) == x by {
                assert(e + x =~= x);
            };
            assert(m0 =~= below(m0, e));
            let ghost fin = *final(root);
            let ghost g = grafted(m0, e, fin@);
            assert forall|x: Seq<Seq<char>>|
                #![trigger g.contains_key(x)]
                #![trigger fin@.contains_key(x)]
                (g.contains_key(x) == fin@.contains_key(x)) && (g.contains_key(x) ==> g[x] == fin@[x]) by {
                assert(x.take(0) =~= e);
                assert(x.skip(0) =~= x);
                assert(is_prefix(e, x));
            };
            assert(fin@ =~= g);
            return root;
        }
        let trimmed = trim_path(path);
        let segs = split_path(trimmed.as_str());
        let base = String::new();
        let ghost sv = views(segs@);
        assert(sv.take(0) =~= Seq::<Seq<char>>::empty());
        assert(sv.skip(0) =~= sv);
        ensure_from(root, &segs, 0, &base);
        let ghost mid = *root;
        assert(sv.take(sv.len() as int) =~= sv);
        assert(mid@.contains_key(sv));
        let r = node_at_mut(root, &segs, 0);
        proof {
            let n = lookup(mid, sv)->0;
            assert forall|x: Seq<Seq<char>>| #[trigger] lookup(n, x) == lookup(mid, sv + x) by {
                lemma_lookup_concat(mid, sv, x);
            };
            assert(n@ =~= below(mid@, sv));
            assert forall|x: Seq<Seq<char>>| #[trigger] lookup(n, x) is Some implies keys_unique(
                lookup(n, x)->0,
            ) by {
                assert(lookup(mid, sv + x) is Some);
            };
        }
        r
    }
}

impl OscNode {
    /// Places a method at `path`: the containers on the way to its parent (everything
    /// before the last slash) are made sure of as by `ensure_path`, then the method goes
    /// under the last segment of `path`, replacing whatever stood there, children and all.
    pub fn add_method(root: &mut OscNode, path: &str, access: Access, typetag: &str)
        requires
            old(root).wf(),
        ensures
            final(root).wf(),
            final(root)@ == placed(
                ensured(old(root)@, Seq::empty(), path_segments_of(parent_of(path@))),
                path_segments_of(parent_of(path@)).push(leaf_name(path@)),
                method_attrs(path@, access, typetag@),
            ),
    {
        let parent = parent_path(path);
        let name = match path_name(path) {
            Some(n) => n,
            None => {
                let t = trim_path(path);
                proof {
                    assert(trim_leading(path@) == trim_leading(path@.drop_first()));
                    assert(path@.drop_first() =~= Seq::<char>::empty());
                    assert(t@ =~= Seq::<char>::empty());
                    assert(split_slash(t@) =~= seq![Seq::<char>::empty()]);
                }
                t
            },
        };
        let ghost psegs = path_segments_of(parent@);
        let ghost e0 = ensured(root@, Seq::empty(), psegs);
        let leaf = OscNode::new_method(path, access, typetag);
        let ghost a = attrs_of(leaf);
        let parent_node = OscNode::ensure_path(root, parent.as_str());
        put_child(parent_node, name, leaf);
        proof {
            lemma_graft_placed(e0, psegs, leaf_name(path@), a);
        }
    }
}

/// Making sure of the same path twice leaves the tree as making sure of it once.
pub proof fn lemma_ensure_path_idempotent(root: OscNode, path: Seq<char>)
    ensures
        ensured(ensured(root@, Seq::empty(), path_segments_of(path)), Seq::empty(), path_segments_of(path))
            == ensured(root@, Seq::empty(), path_segments_of(path)),
{
    let s = path_segments_of(path);
    let once = ensured(root@, Seq::empty(), s);
    assert(ensured(once, Seq::empty(), s) =~= once);
}

/// Making sure of a path adds a node at each of its prefixes that was missing, each a
/// container whose full path is that prefix, and no other node; present nodes are kept.
pub proof fn lemma_ensure_path_creates_prefixes(root: OscNode, path: Seq<char>)
    ensures
        forall|q: Seq<Seq<char>>|
            #![trigger ensured(root@, Seq::empty(), path_segments_of(path)).contains_key(q)]
            ensured(root@, Seq::empty(), path_segments_of(path)).contains_key(q) <==> (
            root@.contains_key(q) || is_prefix(q, path_segments_of(path))),
        forall|q: Seq<Seq<char>>|
            #![trigger ensured(root@, Seq::empty(), path_segments_of(path))[q]]
            is_prefix(q, path_segments_of(path)) && !root@.contains_key(q) ==> ensured(
                root@,
                Seq::empty(),
                path_segments_of(path),
            )[q] == container_attrs(join_path(q)),
        forall|q: Seq<Seq<char>>|
            #![trigger ensured(root@, Seq::empty(), path_segments_of(path))[q]]
            root@.contains_key(q) ==> ensured(root@, Seq::empty(), path_segments_of(path))[q]
                == root@[q],
{
    assert forall|q: Seq<Seq<char>>| #[trigger] (Seq::<Seq<char>>::empty() + q) == q by {
        assert(Seq::<Seq<char>>::empty() + q =~= q);
    };
}

/// Adding a method at `path` keeps any node that stood beside it in the same parent under
/// another name: a second method added to a parent keeps the first, unchanged.
pub proof fn lemma_add_method_keeps_sibling(
    m: Map<Seq<Seq<char>>, NodeAttrs>,
    path: Seq<char>,
    sibling: Seq<char>,
    a: NodeAttrs,
)
    requires
        m.contains_key(path_segments_of(parent_of(path)).push(sibling)),
        sibling != leaf_name(path),
    ensures
        ({
            let ps = path_segments_of(parent_of(path));
            let after = placed(ensured(m, Seq::empty(), ps), ps.push(leaf_name(path)), a);
            after.contains_key(ps.push(sibling)) && after[ps.push(sibling)] == m[ps.push(sibling)]
        }),
{
    let ps = path_segments_of(parent_of(path));
    let x = ps.push(sibling);
    let t = ps.push(leaf_name(path));
    assert(!is_prefix(t, x)) by {
        if is_prefix(t, x) {
            assert(x.take(t.len() as int) =~= x);
            assert(x[ps.len() as int] == t[ps.len() as int]);
        }
    };
    assert(x != t) by {
        assert(x[ps.len() as int] != t[ps.len() as int]);
    };
}

} // verus!
