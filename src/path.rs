use vstd::prelude::*;

verus! {

/// A slash-delimited address with its leading slashes removed.
pub open spec fn trim_leading(s: Seq<char>) -> Seq<char>
    decreases s.len(),
{
    if s.len() > 0 && s[0] == '/' {
        trim_leading(s.drop_first())
    } else {
        s
    }
}

/// A slash-delimited address with its trailing slashes removed.
pub open spec fn trim_trailing(s: Seq<char>) -> Seq<char>
    decreases s.len(),
{
    if s.len() > 0 && s.last() == '/' {
        trim_trailing(s.drop_last())
    } else {
        s
    }
}

/// An address with every leading and trailing slash removed.
pub open spec fn trim_slashes(s: Seq<char>) -> Seq<char> {
    trim_trailing(trim_leading(s))
}

/// The pieces of `s` between its slashes; an empty `s` is one empty piece.
pub open spec fn split_slash(s: Seq<char>) -> Seq<Seq<char>>
    decreases s.len(),
{
    if s.len() == 0 {
        seq![Seq::<char>::empty()]
    } else {
        let init = split_slash(s.drop_last());
        if s.last() == '/' {
            init.push(Seq::<char>::empty())
        } else {
            init.update(init.len() - 1, init.last().push(s.last()))
        }
    }
}

/// The root address.
pub open spec fn root_path() -> Seq<char> {
    seq!['/']
}

/// The segments that an address names, one tree level each; the root names none.
pub open spec fn path_segments_of(p: Seq<char>) -> Seq<Seq<char>> {
    if p == root_path() {
        Seq::empty()
    } else {
        split_slash(trim_slashes(p))
    }
}

/// The last segment of an address (empty for the root).
pub open spec fn leaf_name(p: Seq<char>) -> Seq<char> {
    split_slash(trim_slashes(p)).last()
}

/// Whether `i` is the position of the last slash in `p`.
pub open spec fn is_last_slash(p: Seq<char>, i: int) -> bool {
    &&& 0 <= i < p.len()
    &&& p[i] == '/'
    &&& forall|j: int| i < j < p.len() ==> p[j] != '/'
}

/// The address of the container that holds the node at `p`: everything before the
/// last slash, or the root when that slash is the first character or there is none.
pub open spec fn parent_of(p: Seq<char>) -> Seq<char> {
    if exists|i: int| is_last_slash(p, i) && i > 0 {
        p.take(choose|i: int| is_last_slash(p, i) && i > 0)
    } else {
        root_path()
    }
}

/// The address of the node reached from the root through `segs`.
pub open spec fn join_path(segs: Seq<Seq<char>>) -> Seq<char>
    decreases segs.len(),
{
    if segs.len() == 0 {
        Seq::empty()
    } else {
        join_path(segs.drop_last()).push('/') + segs.last()
    }
}

/// Splitting yields at least one piece.
pub proof fn lemma_split_nonempty(s: Seq<char>)
    ensures
        split_slash(s).len() >= 1,
    decreases s.len(),
{
    if s.len() > 0 {
        lemma_split_nonempty(s.drop_last());
    }
}

/// The character sequences of a sequence of strings.
pub open spec fn views(v: Seq<String>) -> Seq<Seq<char>> {
    v.map_values(|x: String| x@)
}

/// Whether `path` is the root address `"/"`.
pub fn is_root(path: &str) -> (r: bool)
    ensures
        r == (path@ == root_path()),
{
    if path.unicode_len() == 1 && path.get_char(0) == '/' {
        assert(path@ =~= root_path());
        true
    } else {
        false
    }
}

/// The address with its leading and trailing slashes removed.
pub fn trim_path(path: &str) -> (r: String)
    ensures
        r@ == trim_slashes(path@),
{
    let n = path.unicode_len();
    let mut a: usize = 0;
    assert(path@.subrange(0, n as int) =~= path@);
    while a < n && path.get_char(a) == '/'
        invariant
            a <= n,
            n == path@.len(),
            trim_leading(path@) == trim_leading(path@.subrange(a as int, n as int)),
        decreases n - a,
    {
        let ghost t = path@.subrange(a as int, n as int);
        assert(t.drop_first() =~= path@.subrange(a + 1, n as int));
        a = a + 1;
    }
    assert(trim_leading(path@.subrange(a as int, n as int)) == path@.subrange(a as int, n as int));
    let mut b: usize = n;
    while b > a && path.get_char(b - 1) == '/'
        invariant
            a <= b <= n,
            n == path@.len(),
            trim_slashes(path@) == trim_trailing(path@.subrange(a as int, b as int)),
        decreases b,
    {
        let ghost t = path@.subrange(a as int, b as int);
        assert(t.drop_last() =~= path@.subrange(a as int, b - 1));
        b = b - 1;
    }
    let sub = path.substring_char(a, b);
    String::from_str(sub)
}

/// Splits `s` at every slash, keeping empty pieces.
pub fn split_path(s: &str) -> (r: Vec<String>)
    ensures
        views(r@) == split_slash(s@),
{
    let n = s.unicode_len();
    let mut segs: Vec<String> = Vec::new();
    let mut start: usize = 0;
    let mut i: usize = 0;
    assert(s@.take(0) =~= Seq::<char>::empty());
    assert(s@.subrange(0, 0) =~= Seq::<char>::empty());
    assert(views(segs@) =~= Seq::<Seq<char>>::empty());
    assert(views(segs@).push(s@.subrange(0, 0)) =~= split_slash(s@.take(0)));
    while i < n
        invariant
            start <= i <= n,
            n == s@.len(),
            views(segs@).push(s@.subrange(start as int, i as int)) == split_slash(s@.take(i as int)),
        decreases n - i,
    {
        let ghost pre = s@.take(i as int);
        let ghost next = s@.take(i + 1);
        assert(next.drop_last() =~= pre);
        proof { lemma_split_nonempty(pre); }
        let c = s.get_char(i);
        let ghost old_views = views(segs@);
        if c == '/' {
            let piece = String::from_str(s.substring_char(start, i));
            segs.push(piece);
            assert(views(segs@) =~= old_views.push(piece@));
            start = i + 1;
            assert(s@.subrange(start as int, i + 1) =~= Seq::<char>::empty());
        } else {
            assert(s@.subrange(start as int, i + 1) =~= s@.subrange(start as int, i as int).push(c));
        }
        assert(views(segs@).push(s@.subrange(start as int, i + 1)) =~= split_slash(next));
        i = i + 1;
    }
    assert(s@.take(n as int) =~= s@);
    let last = String::from_str(s.substring_char(start, n));
    let ghost old_views = views(segs@);
    segs.push(last);
    assert(views(segs@) =~= old_views.push(last@));
    segs
}

/// The address of the container that holds the node at `path`.
pub fn parent_path(path: &str) -> (r: String)
    ensures
        r@ == parent_of(path@),
{
    let n = path.unicode_len();
    let mut j: usize = n;
    while j > 0 && path.get_char(j - 1) != '/'
        invariant
            j <= n,
            n == path@.len(),
            forall|k: int| j <= k < n ==> path@[k] != '/',
        decreases j,
    {
        j = j - 1;
    }
    if j > 1 {
        let i: usize = j - 1;
        assert(is_last_slash(path@, i as int));
        assert forall|k: int| is_last_slash(path@, k) && k > 0 implies k == i by {
            if k < i {
                assert(path@[i as int] == '/');
            }
            if k > i {
                assert(path@[k] != '/');
            }
        };
        String::from_str(path.substring_char(0, i))
    } else {
        assert forall|k: int| is_last_slash(path@, k) implies k <= 0 by {
            if k >= j {
                assert(path@[k] != '/');
            }
        };
        let r = String::from_str("/");
        proof {
            reveal_strlit("/");
        }
        assert(r@ =~= root_path());
        r
    }
}

/// The last segment of `path`, or `None` for the root.
pub fn path_name(path: &str) -> (r: Option<String>)
    ensures
        r is None <==> path@ == root_path(),
        r matches Some(name) ==> name@ == leaf_name(path@),
{
    if is_root(path) {
        return None;
    }
    let trimmed = trim_path(path);
    let segs = split_path(trimmed.as_str());
    proof {
        lemma_split_nonempty(trimmed@);
    }
    let last = segs[segs.len() - 1].clone();
    assert(views(segs@)[segs@.len() - 1] == segs@[segs@.len() - 1]@);
    Some(last)
}

} // verus!
