//! A layer of settings: leaves, each a key path and a value, and the merge
//! by which a later layer overrides an earlier one.
//!
//! A path segment that starts with `[` indexes an array (`[0]`, `[1]`, ...);
//! a leaf whose path ends in the segment `[]` states that the array before it
//! is empty. Tables merge key by key, while scalars and arrays are replaced
//! wholesale: a later leaf anywhere inside an array replaces the whole array.
use vstd::prelude::*;
use crate::text::strings_view;

verus! {

/// One leaf of a settings tree: the key path from the root and the value.
#[derive(Debug)]
pub struct Setting {
    pub path: Vec<String>,
    pub value: String,
}

/// A leaf seen as a key path and a value.
pub type Leaf = (Seq<Seq<char>>, Seq<char>);

impl View for Setting {
    type V = Leaf;

    open spec fn view(&self) -> Leaf {
        (strings_view(self.path@), self.value@)
    }
}

/// The leaves of a layer.
pub open spec fn layer_view(l: Seq<Setting>) -> Seq<Leaf> {
    l.map_values(|e: Setting| e@)
}

/// The segment indexes an array, or marks an empty one (`[]`).
pub open spec fn is_index(segment: Seq<char>) -> bool {
    segment.len() > 0 && segment[0] == '['
}

/// The position of the first index segment of `p` at or after `i`, or the
/// length of `p` when there is none.
pub open spec fn scope_end(p: Seq<Seq<char>>, i: nat) -> nat
    decreases p.len() - i,
{
    if i >= p.len() || is_index(p[i as int]) {
        i
    } else {
        scope_end(p, i + 1)
    }
}

/// What a leaf at `p` replaces as a whole: `p` itself, or, inside an array,
/// the path of the outermost array.
pub open spec fn scope(p: Seq<Seq<char>>) -> Seq<Seq<char>> {
    p.subrange(0, scope_end(p, 0) as int)
}

/// Two key paths conflict when the scope of one lies on the other's scope or
/// on its way from the root: a later leaf at either replaces an earlier leaf
/// at the other.
pub open spec fn conflicts(p: Seq<Seq<char>>, q: Seq<Seq<char>>) -> bool {
    crate::text::is_prefix(scope(p), scope(q)) || crate::text::is_prefix(scope(q), scope(p))
}

proof fn lemma_scope_end(p: Seq<Seq<char>>, i: nat)
    requires
        i <= p.len(),
    ensures
        i <= scope_end(p, i) <= p.len(),
        forall|k: int| i <= k < scope_end(p, i) ==> !is_index(#[trigger] p[k]),
        scope_end(p, i) < p.len() ==> is_index(p[scope_end(p, i) as int]),
    decreases p.len() - i,
{
    if i < p.len() && !is_index(p[i as int]) {
        lemma_scope_end(p, i + 1);
    }
}

/// Some leaf of `l` conflicts with the path `p`.
pub open spec fn conflicts_any(p: Seq<Seq<char>>, l: Seq<Leaf>) -> bool {
    exists|j: int| 0 <= j < l.len() && conflicts(p, #[trigger] l[j].0)
}

/// The leaves of `a` that no leaf of `b` replaces, in their order.
pub open spec fn kept(a: Seq<Leaf>, b: Seq<Leaf>) -> Seq<Leaf>
    decreases a.len(),
{
    if a.len() == 0 {
        seq![]
    } else {
        let rest = kept(a.drop_last(), b);
        if conflicts_any(a.last().0, b) {
            rest
        } else {
            rest.push(a.last())
        }
    }
}

/// `b` laid over `a`: the leaves of `a` that `b` leaves alone, then those of `b`.
pub open spec fn merged(a: Seq<Leaf>, b: Seq<Leaf>) -> Seq<Leaf> {
    kept(a, b) + b
}

/// The value at path `p`: that of the last leaf with this path.
pub open spec fn lookup(l: Seq<Leaf>, p: Seq<Seq<char>>) -> Option<Seq<char>>
    decreases l.len(),
{
    if l.len() == 0 {
        None
    } else if l.last().0 == p {
        Some(l.last().1)
    } else {
        lookup(l.drop_last(), p)
    }
}

proof fn lemma_lookup_append(x: Seq<Leaf>, b: Seq<Leaf>, p: Seq<Seq<char>>)
    ensures
        lookup(x + b, p) == (if lookup(b, p) is Some {
            lookup(b, p)
        } else {
            lookup(x, p)
        }),
    decreases b.len(),
{
    if b.len() > 0 {
        assert((x + b).drop_last() =~= x + b.drop_last());
        lemma_lookup_append(x, b.drop_last(), p);
    } else {
        assert(x + b =~= x);
    }
}

proof fn lemma_lookup_kept(a: Seq<Leaf>, b: Seq<Leaf>, p: Seq<Seq<char>>)
    ensures
        lookup(kept(a, b), p) == (if conflicts_any(p, b) {
            None
        } else {
            lookup(a, p)
        }),
    decreases a.len(),
{
    if a.len() > 0 {
        lemma_lookup_kept(a.drop_last(), b, p);
        if !conflicts_any(a.last().0, b) {
            assert(kept(a, b).drop_last() =~= kept(a.drop_last(), b));
        }
    }
}

proof fn lemma_lookup_found(l: Seq<Leaf>, p: Seq<Seq<char>>)
    ensures
        lookup(l, p) is Some ==> exists|j: int| 0 <= j < l.len() && #[trigger] l[j].0 == p,
    decreases l.len(),
{
    if l.len() > 0 {
        lemma_lookup_found(l.drop_last(), p);
        if l.last().0 != p && lookup(l, p) is Some {
            let j = choose|j: int| 0 <= j < l.drop_last().len() && #[trigger] l.drop_last()[j].0 == p;
            assert(l[j].0 == p);
        }
    }
}

proof fn lemma_kept_disjoint(a: Seq<Leaf>, b: Seq<Leaf>)
    requires
        forall|i: int, j: int| 0 <= i < a.len() && 0 <= j < b.len() ==> !conflicts(#[trigger] a[i].0, #[trigger] b[j].0),
    ensures
        kept(a, b) == a,
    decreases a.len(),
{
    if a.len() > 0 {
        lemma_kept_disjoint(a.drop_last(), b);
        assert(!conflicts_any(a.last().0, b));
        assert(a.drop_last().push(a.last()) =~= a);
    }
}

/// A later layer wins: at a path where it has a leaf, the merge holds that
/// leaf's value; where it has none and replaces nothing, the earlier value stays.
pub proof fn later_layer_wins(earlier: Seq<Leaf>, later: Seq<Leaf>, p: Seq<Seq<char>>)
    ensures
        lookup(merged(earlier, later), p) == (match lookup(later, p) {
            Some(v) => Some(v),
            None => if conflicts_any(p, later) {
                None
            } else {
                lookup(earlier, p)
            },
        }),
{
    lemma_lookup_append(kept(earlier, later), later, p);
    lemma_lookup_kept(earlier, later, p);
}

/// Two layers whose key paths are disjoint merge into their union, nothing
/// lost, and every path has the same value whichever of them comes first.
pub proof fn disjoint_merge_is_union(a: Seq<Leaf>, b: Seq<Leaf>, p: Seq<Seq<char>>)
    requires
        forall|i: int, j: int| 0 <= i < a.len() && 0 <= j < b.len() ==> !conflicts(#[trigger] a[i].0, #[trigger] b[j].0),
    ensures
        merged(a, b) == a + b,
        merged(b, a) == b + a,
        lookup(merged(a, b), p) == lookup(merged(b, a), p),
        lookup(merged(a, b), p) == (if lookup(a, p) is Some {
            lookup(a, p)
        } else {
            lookup(b, p)
        }),
{
    lemma_kept_disjoint(a, b);
    assert forall|i: int, j: int| 0 <= i < b.len() && 0 <= j < a.len() implies !conflicts(#[trigger] b[i].0, #[trigger] a[j].0) by {
        assert(!conflicts(a[j].0, b[i].0));
    }
    lemma_kept_disjoint(b, a);
    lemma_lookup_append(a, b, p);
    lemma_lookup_append(b, a, p);
    lemma_lookup_found(a, p);
    lemma_lookup_found(b, p);
    if lookup(a, p) is Some && lookup(b, p) is Some {
        let i = choose|i: int| 0 <= i < a.len() && #[trigger] a[i].0 == p;
        let j = choose|j: int| 0 <= j < b.len() && #[trigger] b[j].0 == p;
        assert(scope(p).subrange(0, scope(p).len() as int) =~= scope(p));
        assert(conflicts(a[i].0, b[j].0));
    }
}

fn clone_string_vec(v: &Vec<String>) -> (r: Vec<String>)
    ensures
        r@ == v@,
{
    let mut r: Vec<String> = Vec::new();
    let mut i: usize = 0;
    while i < v.len()
        invariant
            i <= v.len(),
            r@ == v@.subrange(0, i as int),
        decreases v.len() - i,
    {
        r.push(v[i].clone());
        i += 1;
        assert(r@ =~= v@.subrange(0, i as int));
    }
    assert(v@.subrange(0, v.len() as int) =~= v@);
    r
}

impl Setting {
    /// A leaf at `path` holding `value`.
    pub fn new(path: Vec<String>, value: String) -> (r: Setting)
        ensures
            r.path@ == path@,
            r.value@ == value@,
    {
        Setting { path, value }
    }

    /// A copy of this leaf.
    pub fn duplicate(&self) -> (r: Setting)
        ensures
            r@ == self@,
    {
        Setting { path: clone_string_vec(&self.path), value: self.value.clone() }
    }
}

/// Whether the segment indexes an array, or marks an empty one.
pub fn is_index_segment(segment: &String) -> (r: bool)
    ensures
        r == is_index(segment@),
{
    let t = segment.as_str();
    t.unicode_len() > 0 && t.get_char(0) == '['
}

/// The number of segments of `p` before its first index segment.
fn scope_len(p: &Vec<String>) -> (n: usize)
    ensures
        n == scope_end(strings_view(p@), 0),
        n <= p.len(),
{
    let ghost pv = strings_view(p@);
    proof {
        lemma_scope_end(pv, 0);
    }
    let mut i: usize = 0;
    while i < p.len()
        invariant
            i <= p.len(),
            pv == strings_view(p@),
            pv.len() == p.len(),
            scope_end(pv, 0) == scope_end(pv, i as nat),
        decreases p.len() - i,
    {
        if is_index_segment(&p[i]) {
            return i;
        }
        i += 1;
    }
    i
}

/// Whether the key paths `p` and `q` conflict.
pub fn paths_conflict(p: &Vec<String>, q: &Vec<String>) -> (r: bool)
    ensures
        r == conflicts(strings_view(p@), strings_view(q@)),
{
    let np = scope_len(p);
    let nq = scope_len(q);
    let n: usize = if np <= nq { np } else { nq };
    let ghost pv = scope(strings_view(p@));
    let ghost qv = scope(strings_view(q@));
    let mut i: usize = 0;
    while i < n
        invariant
            np <= p.len(),
            nq <= q.len(),
            pv.len() == np,
            qv.len() == nq,
            n == np || n == nq,
            n <= np,
            n <= nq,
            i <= n,
            pv == scope(strings_view(p@)),
            qv == scope(strings_view(q@)),
            np == scope_end(strings_view(p@), 0),
            nq == scope_end(strings_view(q@), 0),
            strings_view(p@).len() == p.len(),
            strings_view(q@).len() == q.len(),
            forall|j: int| 0 <= j < i ==> pv[j] == qv[j],
        decreases n - i,
    {
        assert(strings_view(p@)[i as int] == p@[i as int]@);
        assert(strings_view(q@)[i as int] == q@[i as int]@);
        assert(pv[i as int] == p@[i as int]@);
        assert(qv[i as int] == q@[i as int]@);
        if p[i] != q[i] {
            proof {
                if pv.len() <= qv.len() {
                    assert(qv.subrange(0, pv.len() as int)[i as int] != pv[i as int]);
                }
                if qv.len() <= pv.len() {
                    assert(pv.subrange(0, qv.len() as int)[i as int] != qv[i as int]);
                }
            }
            return false;
        }
        i += 1;
    }
    if np <= nq {
        assert(qv.subrange(0, pv.len() as int) =~= pv);
    } else {
        assert(pv.subrange(0, qv.len() as int) =~= qv);
    }
    true
}

/// Whether some leaf of `l` conflicts with the path `p`.
pub fn conflicts_with_layer(p: &Vec<String>, l: &Vec<Setting>) -> (r: bool)
    ensures
        r == conflicts_any(strings_view(p@), layer_view(l@)),
{
    let mut i: usize = 0;
    while i < l.len()
        invariant
            i <= l.len(),
            forall|j: int|
                0 <= j < i ==> !conflicts(strings_view(p@), #[trigger] layer_view(l@)[j].0),
        decreases l.len() - i,
    {
        if paths_conflict(p, &l[i].path) {
            assert(conflicts(strings_view(p@), layer_view(l@)[i as int].0));
            return true;
        }
        i += 1;
    }
    false
}

/// Lays `later` over `earlier`: each leaf of `later` replaces the leaves of
/// `earlier` that conflict with it (on its path, below it, or on its way from
/// the root; inside an array, the whole earlier array).
pub fn merge(earlier: &Vec<Setting>, later: &Vec<Setting>) -> (r: Vec<Setting>)
    ensures
        layer_view(r@) == merged(layer_view(earlier@), layer_view(later@)),
{
    let ghost a = layer_view(earlier@);
    let ghost b = layer_view(later@);
    let mut r: Vec<Setting> = Vec::new();
    let mut i: usize = 0;
    while i < earlier.len()
        invariant
            i <= earlier.len(),
            a == layer_view(earlier@),
            b == layer_view(later@),
            layer_view(r@) == kept(a.subrange(0, i as int), b),
        decreases earlier.len() - i,
    {
        let ghost before = layer_view(r@);
        assert(a.subrange(0, i + 1).drop_last() =~= a.subrange(0, i as int));
        if !conflicts_with_layer(&earlier[i].path, later) {
            r.push(earlier[i].duplicate());
            assert(layer_view(r@) =~= before.push(a[i as int]));
        }
        i += 1;
    }
    assert(a.subrange(0, earlier.len() as int) =~= a);
    let mut j: usize = 0;
    let ghost k = layer_view(r@);
    while j < later.len()
        invariant
            j <= later.len(),
            b == layer_view(later@),
            layer_view(r@) == k + b.subrange(0, j as int),
        decreases later.len() - j,
    {
        let ghost before = layer_view(r@);
        r.push(later[j].duplicate());
        assert(layer_view(r@) =~= before.push(b[j as int]));
        j += 1;
        assert(layer_view(r@) =~= k + b.subrange(0, j as int));
    }
    assert(b.subrange(0, later.len() as int) =~= b);
    r
}

/// Whether the key paths `p` and `q` are the same.
pub fn paths_equal(p: &Vec<String>, q: &Vec<String>) -> (r: bool)
    ensures
        r == (strings_view(p@) == strings_view(q@)),
{
    if p.len() != q.len() {
        assert(strings_view(p@).len() != strings_view(q@).len());
        return false;
    }
    let mut i: usize = 0;
    while i < p.len()
        invariant
            i <= p.len(),
            p.len() == q.len(),
            forall|j: int| 0 <= j < i ==> strings_view(p@)[j] == strings_view(q@)[j],
        decreases p.len() - i,
    {
        if p[i] != q[i] {
            assert(strings_view(p@)[i as int] != strings_view(q@)[i as int]);
            return false;
        }
        i += 1;
    }
    assert(strings_view(p@) =~= strings_view(q@));
    true
}

/// The value at the key path `path` in the layer `l`: that of its last leaf there.
pub fn get(l: &Vec<Setting>, path: &Vec<String>) -> (r: Option<String>)
    ensures
        match r {
            Some(v) => lookup(layer_view(l@), strings_view(path@)) == Some(v@),
            None => lookup(layer_view(l@), strings_view(path@)) is None,
        },
{
    let ghost pv = strings_view(path@);
    let mut i: usize = l.len();
    assert(layer_view(l@).subrange(0, i as int) =~= layer_view(l@));
    while i > 0
        invariant
            i <= l.len(),
            lookup(layer_view(l@), pv) == lookup(layer_view(l@).subrange(0, i as int), pv),
            pv == strings_view(path@),
        decreases i,
    {
        let ghost s = layer_view(l@).subrange(0, i as int);
        assert(s.drop_last() =~= layer_view(l@).subrange(0, i - 1));
        if paths_equal(&l[i - 1].path, path) {
            return Some(l[i - 1].value.clone());
        }
        i -= 1;
    }
    None
}

} // verus!
