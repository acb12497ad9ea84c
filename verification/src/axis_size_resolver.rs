//! Reference resolution for axis sizes.
//!
//! Given a collection of `(QualifiedAxisId, AnyAxisSize)` pairs, the
//! [`SlotResolver`] produces a mapping from every qualified id to a
//! *resolved* size (fixed or parameterized; references eliminated), or fails
//! with a structured error: a duplicate declaration, a reference cycle, or a
//! reference chain that ends at an id that was never declared.

use vstd::prelude::*;
use vstd::set_lib::lemma_len_subset;

use crate::axis_size::AnyAxisSize;
use crate::axis_size::AxisSizeReference;
use crate::axis_size::QidView;
use crate::axis_size::QualifiedAxisId;
use crate::axis_size::ResolvedAxisSize;
use crate::axis_size::ResolvedView;
use crate::axis_size::SizeView;
use crate::axis_size::compatible;
use crate::axis_size::resolved_view_wf;
use crate::axis_size::size_view_wf;

verus! {

/// Why resolution failed.
#[derive(Debug)]
pub enum AxisSizeResolutionError {
    /// A reference chain revisited an id that was already being resolved.
    Loop(QualifiedAxisId),
    /// A reference chain ended at an id with no declaration at all; the
    /// chain is reported in traversal order.
    Unresolvable { visited: Vec<QualifiedAxisId> },
    /// The same qualified axis id was declared more than once.
    DuplicateId(QualifiedAxisId),
    /// A parameterized size was found where only fixed sizes are accepted.
    ParameterizedNotAllowed,
}

/// What a resolution error certifies about the declared mapping `m`: a
/// cycle error names an id that indeed lies on a reference cycle, and an
/// unresolvable error carries the reference chain that indeed falls off the
/// declared ids.  Either way, the first id of the failure cannot be
/// resolved.
pub open spec fn failed_resolution(m: Map<QidView, SizeView>, e: AxisSizeResolutionError) -> bool {
    match e {
        AxisSizeResolutionError::Loop(id) => on_cycle(m, id@) && m.dom().contains(id@) && !solvable(
            m,
            id@,
        ),
        AxisSizeResolutionError::Unresolvable { visited } => {
            let c = qid_views(visited@);
            dangling_chain(m, c) && m.dom().contains(c[0]) && !solvable(m, c[0])
        },
        _ => false,
    }
}

/// The id texts of a sequence of qualified ids.
pub open spec fn qid_views(s: Seq<QualifiedAxisId>) -> Seq<QidView> {
    s.map_values(|q: QualifiedAxisId| q@)
}

/// The key texts of an association list keyed by qualified ids.
pub open spec fn key_views<T>(s: Seq<(QualifiedAxisId, T)>) -> Seq<QidView> {
    s.map_values(|p: (QualifiedAxisId, T)| p.0@)
}

/// The mapping that an association list denotes; a later entry wins over an
/// earlier one with the same key.
pub open spec fn map_of<T: View>(s: Seq<(QualifiedAxisId, T)>) -> Map<QidView, T::V>
    decreases s.len(),
{
    if s.len() == 0 {
        Map::empty()
    } else {
        map_of(s.drop_last()).insert(s.last().0@, s.last().1@)
    }
}

/// The declared sizes have pairwise distinct qualified ids.
pub open spec fn distinct_qids(s: Seq<(QualifiedAxisId, AnyAxisSize)>) -> bool {
    forall|i: int, j: int| 0 <= i < j < s.len() ==> s[i].0@ != s[j].0@
}

/// The qualified ids declared as references, in declaration order: the
/// resolver's initial waiting list.
pub open spec fn ref_keys(s: Seq<(QualifiedAxisId, AnyAxisSize)>) -> Seq<QidView>
    decreases s.len(),
{
    if s.len() == 0 {
        Seq::empty()
    } else {
        ref_keys(s.drop_last()) + match s.last().1@ {
            SizeView::Reference { target, offset } => seq![s.last().0@],
            _ => Seq::empty(),
        }
    }
}

/// Position `j` holds the first repeated qualified id of `s`: it repeats an
/// earlier entry's id, and everything before it is still duplicate-free.
pub open spec fn first_duplicate_at(s: Seq<(QualifiedAxisId, AnyAxisSize)>, j: int) -> bool {
    &&& 0 <= j < s.len()
    &&& exists|i: int| 0 <= i < j && s[i].0@ == s[j].0@
    &&& forall|a: int, b: int| 0 <= a < b < j ==> s[a].0@ != s[b].0@
}

proof fn lemma_map_of_dom<T: View>(s: Seq<(QualifiedAxisId, T)>)
    ensures
        map_of(s).dom() == key_views(s).to_set(),
    decreases s.len(),
{
    if s.len() == 0 {
        assert(map_of(s).dom() =~= key_views(s).to_set());
    } else {
        lemma_map_of_dom(s.drop_last());
        assert(key_views(s.drop_last()) =~= key_views(s).drop_last());
        assert forall|x: QidView| #[trigger] key_views(s).contains(x) implies map_of(
            s,
        ).dom().contains(x) by {
            let i = choose|i: int| 0 <= i < key_views(s).len() && key_views(s)[i] == x;
            if i < s.len() - 1 {
                assert(key_views(s).drop_last()[i] == x);
                assert(key_views(s).drop_last().contains(x));
            }
        }
        assert forall|x: QidView| #[trigger] map_of(s).dom().contains(x) implies key_views(
            s,
        ).contains(x) by {
            if x == s.last().0@ {
                assert(key_views(s)[s.len() - 1] == x);
            } else {
                assert(key_views(s).drop_last().contains(x));
                let i = choose|i: int|
                    0 <= i < key_views(s).drop_last().len() && key_views(s).drop_last()[i] == x;
                assert(key_views(s)[i] == x);
            }
        }
        assert(map_of(s).dom() =~= key_views(s).to_set());
    }
}

proof fn lemma_map_of_at<T: View>(s: Seq<(QualifiedAxisId, T)>, i: int)
    requires
        0 <= i < s.len(),
        forall|a: int, b: int| 0 <= a < b < s.len() ==> key_views(s)[a] != key_views(s)[b],
    ensures
        map_of(s).dom().contains(s[i].0@),
        map_of(s)[s[i].0@] == s[i].1@,
    decreases s.len(),
{
    if i == s.len() - 1 {
    } else {
        assert(key_views(s.drop_last()) =~= key_views(s).drop_last());
        lemma_map_of_at(s.drop_last(), i);
        assert(key_views(s)[i] != key_views(s)[s.len() - 1]);
    }
}

/// A resolved size, read back as a declared size.
pub open spec fn as_size_view(rv: ResolvedView) -> SizeView {
    match rv {
        ResolvedView::Fixed(f) => SizeView::Fixed(f),
        ResolvedView::Parameterized { min, step } => SizeView::Parameterized { min, step },
    }
}

/// One step along a reference chain: the target of `id`'s declared
/// reference, if `id` is declared as a reference.
pub open spec fn chain_step(m: Map<QidView, SizeView>, id: QidView) -> Option<QidView> {
    if m.dom().contains(id) {
        match m[id] {
            SizeView::Reference { target, offset } => Some(target),
            _ => None,
        }
    } else {
        None
    }
}

/// `k` steps along the reference chain starting at `id`.
pub open spec fn chain_at(m: Map<QidView, SizeView>, id: QidView, k: nat) -> Option<QidView>
    decreases k,
{
    if k == 0 {
        Some(id)
    } else {
        match chain_step(m, id) {
            Some(t) => chain_at(m, t, (k - 1) as nat),
            None => None,
        }
    }
}

/// `id` lies on a reference cycle: following references comes back to `id`.
pub open spec fn on_cycle(m: Map<QidView, SizeView>, id: QidView) -> bool {
    exists|k: nat| k >= 1 && chain_at(m, id, k) == Some(id)
}

/// Resolution with bounded recursion depth: look `id` up; a fixed or
/// parameterized declaration resolves to itself, and a reference resolves to
/// whatever its target resolves to with one unit of fuel less.
pub open spec fn resolve_fuel(m: Map<QidView, SizeView>, id: QidView, fuel: nat) -> Option<
    ResolvedView,
>
    decreases fuel,
{
    if !m.dom().contains(id) {
        None
    } else {
        match m[id] {
            SizeView::Fixed(f) => Some(ResolvedView::Fixed(f)),
            SizeView::Parameterized { min, step } => Some(ResolvedView::Parameterized { min, step }),
            SizeView::Reference { target, offset } => if fuel == 0 {
                None
            } else {
                resolve_fuel(m, target, (fuel - 1) as nat)
            },
        }
    }
}

/// `id`'s reference chain reaches a fixed or parameterized size.
pub open spec fn solvable(m: Map<QidView, SizeView>, id: QidView) -> bool {
    exists|n: nat| resolve_fuel(m, id, n) is Some
}

/// `id`'s reference chain reaches exactly the resolved size `rv`.
pub open spec fn resolves_to(m: Map<QidView, SizeView>, id: QidView, rv: ResolvedView) -> bool {
    exists|n: nat| resolve_fuel(m, id, n) == Some(rv)
}

/// A nonempty reference chain, recorded in traversal order, whose last
/// element was never declared: each earlier element is declared as a
/// reference to the next one, and the end is missing from the declarations.
pub open spec fn dangling_chain(m: Map<QidView, SizeView>, c: Seq<QidView>) -> bool {
    &&& c.len() >= 1
    &&& forall|i: int| 0 <= i < c.len() - 1 ==> chain_step(m, c[i]) == Some(c[i + 1])
    &&& !m.dom().contains(c.last())
}

/// What the walk that starts at `start` reports when it fails: a cycle
/// error blames the id at the walk's first revisited position, and an
/// unresolvable error reports the exact walk, whose end is the first
/// undeclared id reached.  Since every id steps to at most one target,
/// `start` and the declarations determine the report completely.
pub open spec fn blamed_failure_from(
    m: Map<QidView, SizeView>,
    start: QidView,
    e: AxisSizeResolutionError,
) -> bool {
    match e {
        AxisSizeResolutionError::Loop(id) => exists|j: nat, k: nat|
            #![trigger chain_at(m, start, j), chain_at(m, start, k)]
            j < k && chain_at(m, start, j) == Some(id@) && chain_at(m, start, k) == Some(id@) && (
            forall|a: nat, b: nat|
                a < b < k ==> chain_at(m, start, a) != chain_at(m, start, b)),
        AxisSizeResolutionError::Unresolvable { visited } => {
            let c = qid_views(visited@);
            dangling_chain(m, c) && c[0] == start
        },
        _ => false,
    }
}

/// The waiting keys that remain after the keys in `dead` are taken out,
/// keeping the order of the rest.
pub open spec fn drop_keys(s: Seq<QidView>, dead: Seq<QidView>) -> Seq<QidView>
    decreases s.len(),
{
    if s.len() == 0 {
        Seq::empty()
    } else if dead.contains(s[0]) {
        drop_keys(s.drop_first(), dead)
    } else {
        seq![s[0]] + drop_keys(s.drop_first(), dead)
    }
}

/// An element of either part of a concatenated id list is an element of
/// the whole, and conversely.
proof fn lemma_qid_concat_contains(a: Seq<QidView>, b: Seq<QidView>)
    ensures
        forall|x: QidView| #[trigger] (a + b).contains(x) <==> (a.contains(x) || b.contains(x)),
{
    assert forall|x: QidView| #[trigger] (a + b).contains(x) implies (a.contains(x) || b.contains(
        x,
    )) by {
        let i = choose|i: int| 0 <= i < (a + b).len() && (a + b)[i] == x;
        if i < a.len() {
            assert(a[i] == x);
        } else {
            assert(b[i - a.len()] == x);
        }
    }
    assert forall|x: QidView| (a.contains(x) || b.contains(x)) implies #[trigger] (a
        + b).contains(x) by {
        if a.contains(x) {
            let i = choose|i: int| 0 <= i < a.len() && a[i] == x;
            assert((a + b)[i] == x);
        } else {
            let i = choose|i: int| 0 <= i < b.len() && b[i] == x;
            assert((a + b)[a.len() + i] == x);
        }
    }
}

/// Taking no keys out changes nothing.
proof fn lemma_drop_keys_none(s: Seq<QidView>)
    ensures
        drop_keys(s, Seq::empty()) == s,
    decreases s.len(),
{
    if s.len() > 0 {
        lemma_drop_keys_none(s.drop_first());
        assert(drop_keys(s, Seq::empty()) =~= s);
    } else {
        assert(drop_keys(s, Seq::empty()) =~= s);
    }
}

/// Taking out a key that does not occur changes nothing.
proof fn lemma_drop_keys_absent(s: Seq<QidView>, dead: Seq<QidView>, y: QidView)
    requires
        !s.contains(y),
    ensures
        drop_keys(s, dead.push(y)) == drop_keys(s, dead),
    decreases s.len(),
{
    lemma_push_contains(dead, y);
    if s.len() > 0 {
        assert(s[0] != y);
        assert forall|i: int| 0 <= i < s.drop_first().len() implies s.drop_first()[i] != y by {
            assert(s.drop_first()[i] == s[i + 1]);
        }
        lemma_drop_keys_absent(s.drop_first(), dead, y);
    }
}

/// Removing the one occurrence of a key from the kept keys is the same as
/// adding that key to the dropped ones.
proof fn lemma_drop_keys_remove(
    s: Seq<QidView>,
    dead: Seq<QidView>,
    c: Seq<QidView>,
    i: int,
    y: QidView,
)
    requires
        s.no_duplicates(),
        c == drop_keys(s, dead),
        c.no_duplicates(),
        0 <= i < c.len(),
        c[i] == y,
    ensures
        c.remove(i) == drop_keys(s, dead.push(y)),
    decreases s.len(),
{
    lemma_push_contains(dead, y);
    assert(s.len() > 0);
    let s0 = s[0];
    let tail = s.drop_first();
    assert(tail.no_duplicates()) by {
        assert(forall|a: int| 0 <= a < tail.len() ==> tail[a] == s[a + 1]);
    }
    if dead.contains(s0) {
        lemma_drop_keys_remove(tail, dead, c, i, y);
    } else {
        let rest = drop_keys(tail, dead);
        assert(c == seq![s0] + rest);
        assert(c[0] == s0);
        if s0 == y {
            assert(i == 0) by {
                if i > 0 {
                    assert(c[0] == y && c[i] == y);
                }
            }
            assert(!tail.contains(y)) by {
                if tail.contains(y) {
                    let t = choose|t: int| 0 <= t < tail.len() && tail[t] == y;
                    assert(s[t + 1] == y && s[0] == y);
                }
            }
            lemma_drop_keys_absent(tail, dead, y);
            assert(c.remove(0) =~= rest);
        } else {
            assert(i > 0) by {
                if i == 0 {
                    assert(c[0] == y);
                }
            }
            assert(rest[i - 1] == y) by {
                assert(c[i] == rest[i - 1]);
            }
            assert(rest.no_duplicates()) by {
                assert(forall|a: int| 0 <= a < rest.len() ==> rest[a] == c[a + 1]);
            }
            lemma_drop_keys_remove(tail, dead, rest, i - 1, y);
            assert(c.remove(i) =~= seq![s0] + rest.remove(i - 1));
        }
    }
}

/// Dropping keys in two rounds is dropping them in one.
proof fn lemma_drop_keys_concat(s: Seq<QidView>, d1: Seq<QidView>, d2: Seq<QidView>)
    ensures
        drop_keys(drop_keys(s, d1), d2) == drop_keys(s, d1 + d2),
    decreases s.len(),
{
    lemma_qid_concat_contains(d1, d2);
    if s.len() > 0 {
        let s0 = s[0];
        let tail = s.drop_first();
        lemma_drop_keys_concat(tail, d1, d2);
        if d1.contains(s0) {
        } else {
            let mid = seq![s0] + drop_keys(tail, d1);
            assert(mid[0] == s0);
            assert(mid.drop_first() =~= drop_keys(tail, d1));
            if d2.contains(s0) {
            } else {
                assert(drop_keys(mid, d2) =~= seq![s0] + drop_keys(drop_keys(tail, d1), d2));
                assert(drop_keys(s, d1 + d2) =~= seq![s0] + drop_keys(tail, d1 + d2));
            }
        }
    }
}

/// The head of what survives a round of dropping is the first kept key:
/// every key before it in the original order was dropped.
proof fn lemma_drop_keys_head(s: Seq<QidView>, dead: Seq<QidView>)
    requires
        drop_keys(s, dead).len() > 0,
    ensures
        exists|k: int|
            0 <= k < s.len() && s[k] == drop_keys(s, dead)[0] && (forall|j: int|
                0 <= j < k ==> dead.contains(#[trigger] s[j])),
    decreases s.len(),
{
    assert(s.len() > 0);
    let s0 = s[0];
    let tail = s.drop_first();
    if dead.contains(s0) {
        lemma_drop_keys_head(tail, dead);
        let k = choose|k: int|
            0 <= k < tail.len() && tail[k] == drop_keys(tail, dead)[0] && (forall|j: int|
                0 <= j < k ==> dead.contains(#[trigger] tail[j]));
        assert(s[k + 1] == drop_keys(s, dead)[0]);
        assert forall|j: int| 0 <= j < k + 1 implies dead.contains(#[trigger] s[j]) by {
            if j > 0 {
                assert(tail[j - 1] == s[j]);
            }
        }
    } else {
        assert(s[0] == drop_keys(s, dead)[0]);
        assert(0 <= 0 < s.len() && s[0] == drop_keys(s, dead)[0] && (forall|j: int|
            0 <= j < 0 ==> dead.contains(#[trigger] s[j])));
    }
}

/// More fuel never changes a successful resolution.
pub proof fn lemma_fuel_monotone(m: Map<QidView, SizeView>, id: QidView, n1: nat, n2: nat)
    requires
        n1 <= n2,
        resolve_fuel(m, id, n1) is Some,
    ensures
        resolve_fuel(m, id, n2) == resolve_fuel(m, id, n1),
    decreases n1,
{
    match m[id] {
        SizeView::Reference { target, offset } => {
            lemma_fuel_monotone(m, target, (n1 - 1) as nat, (n2 - 1) as nat);
        },
        _ => {},
    }
}

/// Two successful resolutions of the same id agree, whatever their fuel.
pub proof fn lemma_resolution_unique(
    m: Map<QidView, SizeView>,
    id: QidView,
    n1: nat,
    n2: nat,
)
    requires
        resolve_fuel(m, id, n1) is Some,
        resolve_fuel(m, id, n2) is Some,
    ensures
        resolve_fuel(m, id, n1) == resolve_fuel(m, id, n2),
{
    if n1 <= n2 {
        lemma_fuel_monotone(m, id, n1, n2);
    } else {
        lemma_fuel_monotone(m, id, n2, n1);
    }
}

/// Extending a chain by one declared reference step.
proof fn lemma_chain_snoc(m: Map<QidView, SizeView>, id: QidView, k: nat, y: QidView, z: QidView)
    requires
        chain_at(m, id, k) == Some(y),
        chain_step(m, y) == Some(z),
    ensures
        chain_at(m, id, (k + 1) as nat) == Some(z),
    decreases k,
{
    if k == 0 {
        assert(y == id);
        assert(chain_at(m, z, 0) == Some(z));
        assert(chain_at(m, id, 1) == Some(z));
    } else {
        let t = chain_step(m, id).unwrap();
        lemma_chain_snoc(m, t, (k - 1) as nat, y, z);
        assert(chain_at(m, id, (k + 1) as nat) == chain_at(m, t, k));
    }
}

/// An id on a reference cycle never resolves, whatever the fuel.
pub proof fn lemma_cycle_unsolvable(m: Map<QidView, SizeView>, id: QidView)
    requires
        on_cycle(m, id),
    ensures
        !solvable(m, id),
{
    assert forall|n: nat| resolve_fuel(m, id, n) is None by {
        lemma_cycle_fuel_none(m, id, n);
    }
}

proof fn lemma_cycle_fuel_none(m: Map<QidView, SizeView>, id: QidView, n: nat)
    requires
        on_cycle(m, id),
    ensures
        resolve_fuel(m, id, n) is None,
    decreases n,
{
    let k = choose|k: nat| k >= 1 && chain_at(m, id, k) == Some(id);
    assert(chain_at(m, id, k) == Some(id));
    // Since the chain makes a first step, `id` must be declared as a reference.
    assert(chain_step(m, id) is Some);
    let t = chain_step(m, id).unwrap();
    // The cycle rotates: the target is on a cycle of the same length.
    assert(chain_at(m, t, (k - 1) as nat) == Some(id));
    lemma_chain_snoc(m, t, (k - 1) as nat, id, t);
    assert(chain_at(m, t, k) == Some(t));
    assert(on_cycle(m, t));
    if n > 0 {
        lemma_cycle_fuel_none(m, t, (n - 1) as nat);
    }
}

/// The head of a chain that ends at an undeclared id never resolves.
pub proof fn lemma_dangling_unsolvable(m: Map<QidView, SizeView>, c: Seq<QidView>)
    requires
        dangling_chain(m, c),
    ensures
        !solvable(m, c[0]),
{
    assert forall|n: nat| resolve_fuel(m, c[0], n) is None by {
        lemma_dangling_fuel_none(m, c, n);
    }
}

proof fn lemma_dangling_fuel_none(m: Map<QidView, SizeView>, c: Seq<QidView>, n: nat)
    requires
        dangling_chain(m, c),
    ensures
        resolve_fuel(m, c[0], n) is None,
    decreases n,
{
    if c.len() == 1 {
        // The head itself is undeclared.
    } else {
        assert(chain_step(m, c[0]) == Some(c[1]));
        if n > 0 {
            let rest = c.drop_first();
            assert(rest[0] == c[1]);
            assert(rest.last() == c.last());
            assert forall|i: int| 0 <= i < rest.len() - 1 implies chain_step(m, rest[i]) == Some(
                rest[i + 1],
            ) by {
                assert(chain_step(m, c[i + 1]) == Some(c[i + 2]));
            }
            lemma_dangling_fuel_none(m, rest, (n - 1) as nat);
        }
    }
}

/// The compatibility test between a resolved axis size and one concrete
/// dimension extent of a sample tensor.
pub trait ResolvedAxisSizeExt {
    /// The mathematical size family that this value stands for.
    spec fn size_view(&self) -> ResolvedView;

    /// The size family is well formed (a parameterized family has a
    /// positive step).
    spec fn size_wf(&self) -> bool;

    /// Whether the concrete extent belongs to the size family: a fixed size
    /// admits exactly its own extent, and a parameterized family admits
    /// every extent `min + k*step`.
    fn is_compatible_with_extent(&self, extent: usize) -> (r: bool)
        requires
            self.size_wf(),
        ensures
            r == compatible(self.size_view(), extent as int),
    ;
}

impl ResolvedAxisSizeExt for ResolvedAxisSize {
    open spec fn size_view(&self) -> ResolvedView {
        self@
    }

    open spec fn size_wf(&self) -> bool {
        self.wf()
    }

    fn is_compatible_with_extent(&self, extent: usize) -> (r: bool) {
        match self {
            ResolvedAxisSize::Fixed(fixed) => extent == *fixed,
            ResolvedAxisSize::Parameterized(p) => {
                if extent < p.min {
                    false
                } else {
                    (extent - p.min) % p.step == 0
                }
            },
        }
    }
}

/// Resolving an id that is declared with a concrete size returns that exact
/// size, unchanged: the declared value is the one and only resolution.
pub proof fn lemma_concrete_resolves_to_itself(
    m: Map<QidView, SizeView>,
    id: QidView,
    rv: ResolvedView,
)
    requires
        m.dom().contains(id),
        !(m[id] is Reference),
    ensures
        resolves_to(m, id, rv) <==> m[id] == as_size_view(rv),
{
    if m[id] == as_size_view(rv) {
        assert(resolve_fuel(m, id, 0) == Some(rv)) by {
            match rv {
                ResolvedView::Fixed(f) => {},
                ResolvedView::Parameterized { min, step } => {},
            }
        }
    }
    if resolves_to(m, id, rv) {
        let n = choose|n: nat| resolve_fuel(m, id, n) == Some(rv);
        match m[id] {
            SizeView::Fixed(f) => {},
            SizeView::Parameterized { min, step } => {},
            SizeView::Reference { target, offset } => {},
        }
    }
}

/// An id declared as a reference resolves to exactly what its target
/// resolves to: following one reference changes nothing about the final
/// size.
pub proof fn lemma_reference_resolves_like_target(
    m: Map<QidView, SizeView>,
    id: QidView,
    target: QidView,
    offset: int,
    rv: ResolvedView,
)
    requires
        m.dom().contains(id),
        m[id] == (SizeView::Reference { target, offset }),
    ensures
        resolves_to(m, id, rv) <==> resolves_to(m, target, rv),
{
    if resolves_to(m, id, rv) {
        let n = choose|n: nat| resolve_fuel(m, id, n) == Some(rv);
        assert(n > 0);
        assert(resolve_fuel(m, target, (n - 1) as nat) == Some(rv));
    }
    if resolves_to(m, target, rv) {
        let n = choose|n: nat| resolve_fuel(m, target, n) == Some(rv);
        assert(resolve_fuel(m, id, (n + 1) as nat) == Some(rv));
    }
}

/// Transitivity of reference resolution: when `c` references `b` and `b`
/// references `a`, resolving `c` yields exactly `a`'s resolved value.
pub proof fn lemma_resolution_transitive(
    m: Map<QidView, SizeView>,
    a: QidView,
    b: QidView,
    c: QidView,
    off_b: int,
    off_c: int,
    rv: ResolvedView,
)
    requires
        m.dom().contains(c),
        m[c] == (SizeView::Reference { target: b, offset: off_c }),
        m.dom().contains(b),
        m[b] == (SizeView::Reference { target: a, offset: off_b }),
    ensures
        resolves_to(m, c, rv) <==> resolves_to(m, a, rv),
{
    lemma_reference_resolves_like_target(m, c, b, off_c, rv);
    lemma_reference_resolves_like_target(m, b, a, off_b, rv);
}

/// When two declared ids reference each other, any failure that resolution
/// certifies for those declarations is a `Loop`: an unresolvable chain
/// would have to leave the declared ids, and a two-id cycle never does.
pub proof fn lemma_mutual_references_fail_as_loop(
    m: Map<QidView, SizeView>,
    a: QidView,
    b: QidView,
    off_a: int,
    off_b: int,
    e: AxisSizeResolutionError,
)
    requires
        m.dom() == set![a, b],
        m[a] == (SizeView::Reference { target: b, offset: off_a }),
        m[b] == (SizeView::Reference { target: a, offset: off_b }),
        failed_resolution(m, e),
    ensures
        e is Loop,
{
    match &e {
        AxisSizeResolutionError::Unresolvable { visited } => {
            // The chain starts inside the declared ids and every reference
            // step stays inside them, so its end cannot be undeclared.
            let c = qid_views(visited@);
            assert(m.dom().contains(c[0]));
            assert forall|i: int| 0 <= i < c.len() implies m.dom().contains(#[trigger] c[i]) by {
                lemma_chain_stays_declared(m, c, i);
            }
            assert(m.dom().contains(c.last()));
        },
        _ => {},
    }
}

proof fn lemma_chain_stays_declared(m: Map<QidView, SizeView>, c: Seq<QidView>, i: int)
    requires
        0 <= i < c.len(),
        m.dom().contains(c[0]),
        forall|j: int| 0 <= j < c.len() - 1 ==> chain_step(m, c[j]) == Some(c[j + 1]),
        forall|x: QidView| #[trigger] m.dom().contains(x) ==> match m[x] {
            SizeView::Reference { target, offset } => m.dom().contains(target),
            _ => true,
        },
    ensures
        m.dom().contains(c[i]),
    decreases i,
{
    if i > 0 {
        lemma_chain_stays_declared(m, c, i - 1);
        assert(chain_step(m, c[i - 1]) == Some(c[i]));
    }
}

/// When a single declared id references an id that was never declared, any
/// failure that resolution certifies is `Unresolvable`, and its reported
/// chain begins with the declared id: there is no cycle to run into.
pub proof fn lemma_dangling_fails_as_unresolvable(
    m: Map<QidView, SizeView>,
    b: QidView,
    target: QidView,
    off: int,
    e: AxisSizeResolutionError,
)
    requires
        m.dom() == set![b],
        m[b] == (SizeView::Reference { target, offset: off }),
        !m.dom().contains(target),
        failed_resolution(m, e),
    ensures
        e matches AxisSizeResolutionError::Unresolvable { visited } && qid_views(visited@)[0] == b,
{
    match &e {
        AxisSizeResolutionError::Loop(id) => {
            // A cycle would need some declared id to reach itself again,
            // but the only declared id steps straight out of the map.
            assert(id@ == b);
            let k = choose|k: nat| k >= 1 && chain_at(m, id@, k) == Some(id@);
            assert(chain_at(m, b, k) == Some(b));
            assert(chain_step(m, b) == Some(target));
            if k == 1 {
                assert(chain_at(m, target, 0) == Some(target));
            } else {
                assert(chain_at(m, target, (k - 1) as nat) == Some(b));
                assert(chain_step(m, target) is None);
                lemma_chain_from_undeclared(m, target, (k - 1) as nat);
            }
        },
        AxisSizeResolutionError::Unresolvable { visited } => {
            assert(m.dom().contains(qid_views(visited@)[0]));
            assert(qid_views(visited@)[0] == b);
        },
        _ => {},
    }
}

proof fn lemma_chain_from_undeclared(m: Map<QidView, SizeView>, x: QidView, k: nat)
    requires
        !m.dom().contains(x),
        k >= 1,
    ensures
        chain_at(m, x, k) is None,
{
    assert(chain_step(m, x) is None);
}

/// A chain that has run off the declared ids stays off them.
proof fn lemma_chain_none_persists(m: Map<QidView, SizeView>, start: QidView, a: nat, b: nat)
    requires
        a <= b,
        chain_at(m, start, a) is None,
    ensures
        chain_at(m, start, b) is None,
    decreases a,
{
    assert(a > 0);
    match chain_step(m, start) {
        Some(t) => {
            lemma_chain_none_persists(m, t, (a - 1) as nat, (b - 1) as nat);
        },
        None => {},
    }
}

/// Walking `a + b` steps is walking `a` steps and then `b` more.
proof fn lemma_chain_add(m: Map<QidView, SizeView>, start: QidView, a: nat, b: nat, y: QidView)
    requires
        chain_at(m, start, a) == Some(y),
    ensures
        chain_at(m, start, (a + b) as nat) == chain_at(m, y, b),
    decreases a,
{
    if a == 0 {
    } else {
        let t = chain_step(m, start).unwrap();
        lemma_chain_add(m, t, (a - 1) as nat, b, y);
    }
}

/// The walk from an id on a cycle goes on forever.
proof fn lemma_cycle_chain_some(m: Map<QidView, SizeView>, id: QidView, n: nat)
    requires
        on_cycle(m, id),
    ensures
        chain_at(m, id, n) is Some,
    decreases n,
{
    let k = choose|k: nat| k >= 1 && chain_at(m, id, k) == Some(id);
    assert(chain_step(m, id) is Some);
    let t = chain_step(m, id).unwrap();
    assert(chain_at(m, t, (k - 1) as nat) == Some(id));
    lemma_chain_snoc(m, t, (k - 1) as nat, id, t);
    assert(on_cycle(m, t));
    if n > 0 {
        lemma_cycle_chain_some(m, t, (n - 1) as nat);
    }
}

/// Two dangling chains with the same head are the same chain: each step is
/// determined by the declarations, and the end is the first undeclared id.
proof fn lemma_dangling_chain_unique(m: Map<QidView, SizeView>, c1: Seq<QidView>, c2: Seq<QidView>)
    requires
        dangling_chain(m, c1),
        dangling_chain(m, c2),
        c1[0] == c2[0],
    ensures
        c1 == c2,
{
    if c1.len() < c2.len() {
        lemma_dangling_walk_ends(m, c1);
        lemma_chain_run(m, c2, 0, c1.len() as int);
        assert(chain_at(m, c2[0], (c1.len() as int - 0) as nat) == Some(c2[c1.len() as int]));
    }
    if c2.len() < c1.len() {
        lemma_dangling_walk_ends(m, c2);
        lemma_chain_run(m, c1, 0, c2.len() as int);
        assert(chain_at(m, c1[0], (c2.len() as int - 0) as nat) == Some(c1[c2.len() as int]));
    }
    assert(c1.len() == c2.len());
    assert forall|i: int| 0 <= i < c1.len() implies c1[i] == c2[i] by {
        lemma_chain_run(m, c1, 0, i);
        lemma_chain_run(m, c2, 0, i);
    }
    assert(c1 =~= c2);
}

/// What `solve` certifies of a failure report: the walk started at the
/// first waiting id that cannot be resolved, and the walk from there
/// produced the report.
pub open spec fn solve_failure_report(
    m: Map<QidView, SizeView>,
    w: Seq<QidView>,
    e: AxisSizeResolutionError,
) -> bool {
    exists|k: int|
        0 <= k < w.len() && !solvable(m, #[trigger] w[k]) && (forall|j: int|
            0 <= j < k ==> solvable(m, #[trigger] w[j])) && blamed_failure_from(m, w[k], e)
}

/// Two failure reports of the same kind and content.
pub open spec fn reports_alike(e1: AxisSizeResolutionError, e2: AxisSizeResolutionError) -> bool {
    match (e1, e2) {
        (AxisSizeResolutionError::Loop(a), AxisSizeResolutionError::Loop(b)) => a@ == b@,
        (
            AxisSizeResolutionError::Unresolvable { visited: v1 },
            AxisSizeResolutionError::Unresolvable { visited: v2 },
        ) => qid_views(v1@) == qid_views(v2@),
        _ => false,
    }
}

/// The walk from one start reports one failure: two reports blamed on the
/// same start agree in kind and content.
pub proof fn lemma_blame_unique(
    m: Map<QidView, SizeView>,
    start: QidView,
    e1: AxisSizeResolutionError,
    e2: AxisSizeResolutionError,
)
    requires
        blamed_failure_from(m, start, e1),
        blamed_failure_from(m, start, e2),
    ensures
        reports_alike(e1, e2),
{
    match (&e1, &e2) {
        (AxisSizeResolutionError::Loop(a), AxisSizeResolutionError::Loop(b)) => {
            let (j1, k1) = choose|j1: nat, k1: nat|
                #![trigger chain_at(m, start, j1), chain_at(m, start, k1)]
                j1 < k1 && chain_at(m, start, j1) == Some(a@) && chain_at(m, start, k1) == Some(
                    a@,
                ) && (forall|x: nat, y: nat|
                    x < y < k1 ==> chain_at(m, start, x) != chain_at(m, start, y));
            let (j2, k2) = choose|j2: nat, k2: nat|
                #![trigger chain_at(m, start, j2), chain_at(m, start, k2)]
                j2 < k2 && chain_at(m, start, j2) == Some(b@) && chain_at(m, start, k2) == Some(
                    b@,
                ) && (forall|x: nat, y: nat|
                    x < y < k2 ==> chain_at(m, start, x) != chain_at(m, start, y));
            // The first revisit happens at one position: an earlier
            // collision would contradict the other report's distinctness.
            if k1 < k2 {
                assert(chain_at(m, start, j1) != chain_at(m, start, k1));
            }
            if k2 < k1 {
                assert(chain_at(m, start, j2) != chain_at(m, start, k2));
            }
            assert(k1 == k2);
            assert(Some(a@) == Some(b@));
        },
        (AxisSizeResolutionError::Loop(a), AxisSizeResolutionError::Unresolvable { visited }) => {
            lemma_collision_walks_forever(m, start, a@);
            lemma_dangling_walk_ends(m, qid_views(visited@));
            assert(chain_at(m, start, qid_views(visited@).len() as nat) is Some);
        },
        (AxisSizeResolutionError::Unresolvable { visited }, AxisSizeResolutionError::Loop(b)) => {
            lemma_collision_walks_forever(m, start, b@);
            lemma_dangling_walk_ends(m, qid_views(visited@));
            assert(chain_at(m, start, qid_views(visited@).len() as nat) is Some);
        },
        (
            AxisSizeResolutionError::Unresolvable { visited: v1 },
            AxisSizeResolutionError::Unresolvable { visited: v2 },
        ) => {
            lemma_dangling_chain_unique(m, qid_views(v1@), qid_views(v2@));
        },
        _ => {},
    }
}

/// Failure reporting is a function of the input: two failure reports that
/// `solve` certifies for the same declarations and the same waiting order
/// blame the same id and show the same chain.
pub proof fn lemma_failure_report_deterministic(
    m: Map<QidView, SizeView>,
    w: Seq<QidView>,
    e1: AxisSizeResolutionError,
    e2: AxisSizeResolutionError,
)
    requires
        solve_failure_report(m, w, e1),
        solve_failure_report(m, w, e2),
    ensures
        reports_alike(e1, e2),
{
    let k1 = choose|k1: int|
        0 <= k1 < w.len() && !solvable(m, #[trigger] w[k1]) && (forall|j: int|
            0 <= j < k1 ==> solvable(m, #[trigger] w[j])) && blamed_failure_from(m, w[k1], e1);
    let k2 = choose|k2: int|
        0 <= k2 < w.len() && !solvable(m, #[trigger] w[k2]) && (forall|j: int|
            0 <= j < k2 ==> solvable(m, #[trigger] w[j])) && blamed_failure_from(m, w[k2], e2);
    assert(k1 == k2);
    lemma_blame_unique(m, w[k1], e1, e2);
}

/// A walk that revisits an id has entered a cycle and goes on forever.
proof fn lemma_collision_walks_forever(m: Map<QidView, SizeView>, start: QidView, looped: QidView)
    requires
        exists|j: nat, k: nat|
            #![trigger chain_at(m, start, j), chain_at(m, start, k)]
            j < k && chain_at(m, start, j) == Some(looped) && chain_at(m, start, k) == Some(looped)
                && (forall|x: nat, y: nat|
                x < y < k ==> chain_at(m, start, x) != chain_at(m, start, y)),
    ensures
        forall|n: nat| chain_at(m, start, n) is Some,
{
    let (j, k) = choose|j: nat, k: nat|
        #![trigger chain_at(m, start, j), chain_at(m, start, k)]
        j < k && chain_at(m, start, j) == Some(looped) && chain_at(m, start, k) == Some(looped) && (
        forall|x: nat, y: nat| x < y < k ==> chain_at(m, start, x) != chain_at(m, start, y));
    lemma_chain_add(m, start, j, (k - j) as nat, looped);
    assert(chain_at(m, looped, (k - j) as nat) == Some(looped));
    assert(on_cycle(m, looped));
    assert forall|n: nat| chain_at(m, start, n) is Some by {
        if n <= j {
            if chain_at(m, start, n) is None {
                lemma_chain_none_persists(m, start, n, j);
            }
        } else {
            lemma_cycle_chain_some(m, looped, (n - j) as nat);
            lemma_chain_add(m, start, j, (n - j) as nat, looped);
        }
    }
}

/// The walk along a dangling chain ends right after the chain.
proof fn lemma_dangling_walk_ends(m: Map<QidView, SizeView>, c: Seq<QidView>)
    requires
        dangling_chain(m, c),
    ensures
        chain_at(m, c[0], c.len() as nat) is None,
{
    lemma_chain_run(m, c, 0, c.len() - 1);
    assert(chain_step(m, c.last()) is None);
    if c.len() > 1 {
        lemma_chain_add(m, c[0], (c.len() - 1) as nat, 1, c.last());
    }
}

/// Resolution is a function of the declared sizes alone: two full resolved
/// mappings of the same declarations are equal, entry for entry.
pub proof fn lemma_resolution_deterministic(
    m: Map<QidView, SizeView>,
    r1: Map<QidView, ResolvedView>,
    r2: Map<QidView, ResolvedView>,
)
    requires
        r1.dom() == m.dom(),
        r2.dom() == m.dom(),
        forall|id: QidView| #[trigger] m.dom().contains(id) ==> resolves_to(m, id, r1[id]),
        forall|id: QidView| #[trigger] m.dom().contains(id) ==> resolves_to(m, id, r2[id]),
    ensures
        r1 == r2,
{
    assert forall|id: QidView| #[trigger] m.dom().contains(id) implies r1[id] == r2[id] by {
        let n1 = choose|n: nat| resolve_fuel(m, id, n) == Some(r1[id]);
        let n2 = choose|n: nat| resolve_fuel(m, id, n) == Some(r2[id]);
        lemma_resolution_unique(m, id, n1, n2);
    }
    assert(r1 =~= r2);
}

/// A resolved value inherits well-formedness from the declarations: when
/// every declared parameterized size has a positive step, so has every
/// resolved one.
pub proof fn lemma_resolution_preserves_wf(
    m: Map<QidView, SizeView>,
    id: QidView,
    rv: ResolvedView,
)
    requires
        resolves_to(m, id, rv),
        forall|x: QidView| #[trigger] m.dom().contains(x) ==> size_view_wf(m[x]),
    ensures
        resolved_view_wf(rv),
{
    let n = choose|n: nat| resolve_fuel(m, id, n) == Some(rv);
    lemma_fuel_wf(m, id, n, rv);
}

proof fn lemma_fuel_wf(m: Map<QidView, SizeView>, id: QidView, n: nat, rv: ResolvedView)
    requires
        resolve_fuel(m, id, n) == Some(rv),
        forall|x: QidView| #[trigger] m.dom().contains(x) ==> size_view_wf(m[x]),
    ensures
        resolved_view_wf(rv),
    decreases n,
{
    match m[id] {
        SizeView::Reference { target, offset } => {
            lemma_fuel_wf(m, target, (n - 1) as nat, rv);
        },
        _ => {},
    }
}

/// The full mapping that resolution produces: every declared qualified id,
/// bound to a size with no reference left in it.
pub struct ResolvedSizeMap {
    pub entries: Vec<(QualifiedAxisId, ResolvedAxisSize)>,
}

impl View for ResolvedSizeMap {
    type V = Map<QidView, ResolvedView>;

    open spec fn view(&self) -> Map<QidView, ResolvedView> {
        map_of(self.entries@)
    }
}

impl ResolvedSizeMap {
    /// The association list has pairwise distinct keys.
    pub open spec fn inv(self) -> bool {
        key_views(self.entries@).no_duplicates()
    }

    /// Looks a qualified id up in the mapping.
    pub fn get(&self, id: &QualifiedAxisId) -> (r: Option<&ResolvedAxisSize>)
        requires
            self.inv(),
        ensures
            match r {
                Some(v) => self@.dom().contains(id@) && v@ == self@[id@],
                None => !self@.dom().contains(id@),
            },
    {
        proof {
            lemma_map_of_dom(self.entries@);
        }
        let n = self.entries.len();
        for i in 0..n
            invariant
                n == self.entries@.len(),
                self.inv(),
                forall|j: int| 0 <= j < i ==> key_views(self.entries@)[j] != id@,
        {
            if self.entries[i].0.same_as(id) {
                proof {
                    assert(key_views(self.entries@)[i as int] == id@);
                    lemma_map_of_at(self.entries@, i as int);
                }
                return Some(&self.entries[i].1);
            }
            proof {
                assert(key_views(self.entries@)[i as int] == self.entries@[i as int].0@);
            }
        }
        proof {
            assert(forall|j: int|
                0 <= j < self.entries@.len() ==> key_views(self.entries@)[j] != id@);
            if self@.dom().contains(id@) {
                let j = choose|j: int|
                    0 <= j < key_views(self.entries@).len() && key_views(self.entries@)[j] == id@;
            }
        }
        None
    }
}

/// Finds the position of a qualified id in a plain list of qualified ids.
fn find_qid(v: &Vec<QualifiedAxisId>, id: &QualifiedAxisId) -> (r: Option<usize>)
    ensures
        match r {
            Some(i) => i < v@.len() && v@[i as int]@ == id@,
            None => forall|j: int| 0 <= j < v@.len() ==> v@[j]@ != id@,
        },
{
    let n = v.len();
    for i in 0..n
        invariant
            n == v@.len(),
            forall|j: int| 0 <= j < i ==> v@[j]@ != id@,
    {
        if v[i].same_as(id) {
            return Some(i);
        }
    }
    None
}

/// Finds the position of a qualified id among the keys of an association
/// list.
fn find_key<T>(entries: &Vec<(QualifiedAxisId, T)>, id: &QualifiedAxisId) -> (r: Option<usize>)
    ensures
        match r {
            Some(i) => i < entries@.len() && entries@[i as int].0@ == id@,
            None => forall|j: int| 0 <= j < entries@.len() ==> entries@[j].0@ != id@,
        },
{
    let n = entries.len();
    for i in 0..n
        invariant
            n == entries@.len(),
            forall|j: int| 0 <= j < i ==> entries@[j].0@ != id@,
    {
        if entries[i].0.same_as(id) {
            return Some(i);
        }
    }
    None
}

/// Resolves a collection of declared axis sizes: already-concrete entries
/// are kept in `resolved_axes`, reference entries wait in
/// `unresolved_axes`, and [`SlotResolver::solve`] eliminates the latter.
pub struct SlotResolver {
    resolved_axes: Vec<(QualifiedAxisId, ResolvedAxisSize)>,
    unresolved_axes: Vec<(QualifiedAxisId, AxisSizeReference)>,
    decl: Ghost<Map<QidView, SizeView>>,
}

/// Whether one driving step finished the whole resolution or must go on.
pub enum ResolverStatus {
    Done(ResolvedSizeMap),
    Resolving(SlotResolver),
}

impl SlotResolver {
    /// The declared mapping this resolver was built from.
    pub closed spec fn decl_map(self) -> Map<QidView, SizeView> {
        self.decl@
    }

    /// Internal consistency: the two association lists have pairwise
    /// distinct keys that together cover exactly the declared ids; every
    /// already-resolved entry carries the value its id resolves to; every
    /// waiting entry is exactly the declared reference.
    pub closed spec fn inv(self) -> bool {
        let m = self.decl@;
        &&& (key_views(self.resolved_axes@) + key_views(self.unresolved_axes@)).no_duplicates()
        &&& forall|x: QidView|
            #[trigger] m.dom().contains(x) <==> (key_views(self.resolved_axes@).contains(x)
                || key_views(self.unresolved_axes@).contains(x))
        &&& forall|i: int|
            0 <= i < self.resolved_axes@.len() ==> resolves_to(
                m,
                self.resolved_axes@[i].0@,
                #[trigger] self.resolved_axes@[i].1@,
            )
        &&& forall|i: int|
            0 <= i < self.unresolved_axes@.len() ==> m.dom().contains(
                #[trigger] self.unresolved_axes@[i].0@,
            ) && m[self.unresolved_axes@[i].0@] == SizeView::Reference {
                target: self.unresolved_axes@[i].1.qualified_axis_id@,
                offset: self.unresolved_axes@[i].1.offset as int,
            }
    }
}

proof fn lemma_insert_key_no_dup(a: Seq<QidView>, b: Seq<QidView>, q: QidView)
    requires
        (a + b).no_duplicates(),
        forall|j: int| 0 <= j < a.len() ==> a[j] != q,
        forall|j: int| 0 <= j < b.len() ==> b[j] != q,
    ensures
        (a.push(q) + b).no_duplicates(),
        (a + b.push(q)).no_duplicates(),
{
    let oldc = a + b;
    let c1 = a.push(q) + b;
    assert forall|i: int, j: int|
        0 <= i < c1.len() && 0 <= j < c1.len() && i != j implies c1[i] != c1[j] by {
        assert(forall|k: int|
            0 <= k < c1.len() && k < a.len() ==> c1[k] == oldc[k]);
        assert(c1[a.len() as int] == q);
        assert(forall|k: int|
            a.len() < k < c1.len() ==> c1[k] == oldc[k - 1]);
    }
    let c2 = a + b.push(q);
    assert(c2 =~= oldc.push(q));
    assert forall|i: int, j: int|
        0 <= i < c2.len() && 0 <= j < c2.len() && i != j implies c2[i] != c2[j] by {
        assert(forall|k: int| 0 <= k < oldc.len() && k < a.len() ==> oldc[k] == a[k]);
        assert(forall|k: int| a.len() <= k < oldc.len() ==> oldc[k] == b[k - a.len()]);
    }
}

proof fn lemma_push_contains(s: Seq<QidView>, q: QidView)
    ensures
        forall|x: QidView| #[trigger] s.push(q).contains(x) <==> (s.contains(x) || x == q),
{
    assert forall|x: QidView| #[trigger] s.push(q).contains(x) implies (s.contains(x) || x
        == q) by {
        let i = choose|i: int| 0 <= i < s.push(q).len() && s.push(q)[i] == x;
        if i < s.len() {
            assert(s[i] == x);
        }
    }
    assert forall|x: QidView| (s.contains(x) || x == q) implies #[trigger] s.push(q).contains(
        x,
    ) by {
        if s.contains(x) {
            let i = choose|i: int| 0 <= i < s.len() && s[i] == x;
            assert(s.push(q)[i] == x);
        } else {
            assert(s.push(q)[s.len() as int] == q);
        }
    }
}

impl SlotResolver {
    /// Partitions the declared sizes into concrete and reference entries,
    /// failing with `DuplicateId` when a qualified id is declared twice —
    /// whether both declarations are concrete, both references, or mixed.
    pub fn new(sizes: Vec<(QualifiedAxisId, AnyAxisSize)>) -> (r: Result<
        SlotResolver,
        AxisSizeResolutionError,
    >)
        ensures
            match r {
                Ok(res) => {
                    &&& distinct_qids(sizes@)
                    &&& res.decl_map() == map_of(sizes@)
                    &&& res.waiting() == ref_keys(sizes@)
                    &&& res.inv()
                },
                Err(e) => match e {
                    AxisSizeResolutionError::DuplicateId(id) => {
                        &&& !distinct_qids(sizes@)
                        &&& exists|j: int| #[trigger] first_duplicate_at(sizes@, j) && 0 <= j
                            < sizes@.len() && sizes@[j].0@ == id@
                    },
                    _ => false,
                },
            },
    {
        let mut resolved_axes: Vec<(QualifiedAxisId, ResolvedAxisSize)> = Vec::new();
        let mut unresolved_axes: Vec<(QualifiedAxisId, AxisSizeReference)> = Vec::new();
        let n = sizes.len();
        assert(key_views(resolved_axes@) + key_views(unresolved_axes@) =~= Seq::<
            QidView,
        >::empty());
        assert(key_views(unresolved_axes@) =~= ref_keys(sizes@.take(0)));
        for idx in 0..n
            invariant
                n == sizes@.len(),
                forall|i: int, j: int|
                    0 <= i < j < idx ==> sizes@[i].0@ != sizes@[j].0@,
                (key_views(resolved_axes@) + key_views(unresolved_axes@)).no_duplicates(),
                forall|x: QidView|
                    map_of(sizes@.take(idx as int)).dom().contains(x) <==> (key_views(
                        resolved_axes@,
                    ).contains(x) || key_views(unresolved_axes@).contains(x)),
                forall|i: int|
                    0 <= i < resolved_axes@.len() ==> map_of(sizes@.take(idx as int)).dom().contains(
                        resolved_axes@[i].0@,
                    ) && map_of(sizes@.take(idx as int))[resolved_axes@[i].0@] == as_size_view(
                        resolved_axes@[i].1@,
                    ),
                forall|i: int|
                    0 <= i < unresolved_axes@.len() ==> map_of(
                        sizes@.take(idx as int),
                    ).dom().contains(unresolved_axes@[i].0@) && map_of(
                        sizes@.take(idx as int),
                    )[unresolved_axes@[i].0@] == (SizeView::Reference {
                        target: unresolved_axes@[i].1.qualified_axis_id@,
                        offset: unresolved_axes@[i].1.offset as int,
                    }),
                key_views(unresolved_axes@) == ref_keys(sizes@.take(idx as int)),
        {
            let ghost prefix = sizes@.take(idx as int);
            let ghost prefix1 = sizes@.take(idx as int + 1);
            proof {
                assert(prefix1.drop_last() =~= prefix);
                assert(prefix1.last() == sizes@[idx as int]);
                assert(map_of(prefix1) == map_of(prefix).insert(
                    sizes@[idx as int].0@,
                    sizes@[idx as int].1@,
                ));
            }
            let qid = &sizes[idx].0;
            let in_resolved = find_key(&resolved_axes, qid);
            let in_unresolved = find_key(&unresolved_axes, qid);
            if in_resolved.is_some() || in_unresolved.is_some() {
                proof {
                    if let Some(i) = in_resolved {
                        assert(key_views(resolved_axes@)[i as int] == qid@);
                    } else {
                        let i = in_unresolved.unwrap();
                        assert(key_views(unresolved_axes@)[i as int] == qid@);
                    }
                    assert(map_of(prefix).dom().contains(qid@));
                    lemma_map_of_dom(prefix);
                    assert(key_views(prefix).contains(qid@));
                    let j = choose|j: int|
                        0 <= j < key_views(prefix).len() && key_views(prefix)[j] == qid@;
                    assert(sizes@[j].0@ == qid@ && sizes@[idx as int].0@ == qid@);
                    // The scanned prefix was duplicate-free, so this entry
                    // is the first repeated id.
                    assert(first_duplicate_at(sizes@, idx as int));
                }
                return Err(AxisSizeResolutionError::DuplicateId(qid.clone()));
            }
            let ghost old_res = resolved_axes@;
            let ghost old_unres = unresolved_axes@;
            let ghost old_res_keys = key_views(resolved_axes@);
            let ghost old_unres_keys = key_views(unresolved_axes@);
            proof {
                assert(forall|j: int| 0 <= j < old_res_keys.len() ==> old_res_keys[j] != qid@);
                assert(forall|j: int| 0 <= j < old_unres_keys.len() ==> old_unres_keys[j] != qid@);
                // The fresh key is not yet declared, so existing entries keep
                // their bindings when it is inserted.
                assert(!key_views(resolved_axes@).contains(qid@)) by {
                    if key_views(resolved_axes@).contains(qid@) {
                        let i = choose|i: int|
                            0 <= i < key_views(resolved_axes@).len() && key_views(
                                resolved_axes@,
                            )[i] == qid@;
                        assert(resolved_axes@[i].0@ == qid@);
                    }
                }
                assert(!key_views(unresolved_axes@).contains(qid@)) by {
                    if key_views(unresolved_axes@).contains(qid@) {
                        let i = choose|i: int|
                            0 <= i < key_views(unresolved_axes@).len() && key_views(
                                unresolved_axes@,
                            )[i] == qid@;
                        assert(unresolved_axes@[i].0@ == qid@);
                    }
                }
                assert(!map_of(prefix).dom().contains(qid@));
                // The id is new, so the distinctness of the processed prefix
                // extends by one entry.
                lemma_map_of_dom(prefix);
                assert forall|j: int| 0 <= j < idx implies sizes@[j].0@ != sizes@[idx as int].0@ by {
                    if sizes@[j].0@ == sizes@[idx as int].0@ {
                        assert(key_views(prefix)[j] == qid@);
                        assert(key_views(prefix).contains(qid@));
                        assert(map_of(prefix).dom().contains(qid@));
                    }
                }
                lemma_push_contains(old_res_keys, qid@);
                lemma_push_contains(old_unres_keys, qid@);
                lemma_insert_key_no_dup(old_res_keys, old_unres_keys, qid@);
            }
            match &sizes[idx].1 {
                AnyAxisSize::Reference(size_ref) => {
                    unresolved_axes.push((qid.clone(), size_ref.clone()));
                    proof {
                        assert(key_views(unresolved_axes@) =~= old_unres_keys.push(qid@));
                        assert(key_views(unresolved_axes@) =~= old_unres_keys + seq![qid@]);
                        assert(key_views(unresolved_axes@).contains(qid@));
                        assert(forall|x: QidView|
                            #[trigger] key_views(unresolved_axes@).contains(x) ==> (
                            old_unres_keys.contains(x) || x == qid@));
                        assert(unresolved_axes@[old_unres.len() as int].1.qualified_axis_id@
                            == size_ref.qualified_axis_id@);
                        assert(forall|i: int|
                            0 <= i < old_unres.len() ==> unresolved_axes@[i] == old_unres[i]);
                    }
                },
                AnyAxisSize::Parameterized(p) => {
                    resolved_axes.push((qid.clone(), ResolvedAxisSize::Parameterized(*p)));
                    proof {
                        assert(key_views(resolved_axes@) =~= old_res_keys.push(qid@));
                        assert(key_views(resolved_axes@).contains(qid@));
                        assert(forall|x: QidView|
                            #[trigger] key_views(resolved_axes@).contains(x) ==> (
                            old_res_keys.contains(x) || x == qid@));
                        assert(forall|i: int|
                            0 <= i < old_res.len() ==> resolved_axes@[i] == old_res[i]);
                    }
                },
                AnyAxisSize::Fixed(f) => {
                    resolved_axes.push((qid.clone(), ResolvedAxisSize::Fixed(*f)));
                    proof {
                        assert(key_views(resolved_axes@) =~= old_res_keys.push(qid@));
                        assert(key_views(resolved_axes@).contains(qid@));
                        assert(forall|x: QidView|
                            #[trigger] key_views(resolved_axes@).contains(x) ==> (
                            old_res_keys.contains(x) || x == qid@));
                        assert(forall|i: int|
                            0 <= i < old_res.len() ==> resolved_axes@[i] == old_res[i]);
                    }
                },
            }
            proof {
                assert((key_views(resolved_axes@) + key_views(unresolved_axes@)).no_duplicates());
                assert forall|x: QidView| #[trigger] map_of(prefix1).dom().contains(x) implies (
                key_views(resolved_axes@).contains(x) || key_views(
                    unresolved_axes@,
                ).contains(x)) by {
                    if x != qid@ {
                        assert(map_of(prefix).dom().contains(x));
                    }
                }
                assert forall|x: QidView|
                    (key_views(resolved_axes@).contains(x) || key_views(
                        unresolved_axes@,
                    ).contains(x)) implies #[trigger] map_of(prefix1).dom().contains(x) by {
                    if x != qid@ {
                        assert(old_res_keys.contains(x) || old_unres_keys.contains(x));
                        assert(map_of(prefix).dom().contains(x));
                    }
                }
            }
        }
        proof {
            assert(sizes@.take(n as int) =~= sizes@);
        }
        let resolver = SlotResolver {
            resolved_axes,
            unresolved_axes,
            decl: Ghost(map_of(sizes@)),
        };
        proof {
            let m = map_of(sizes@);
            assert forall|i: int| 0 <= i < resolver.resolved_axes@.len() implies resolves_to(
                m,
                resolver.resolved_axes@[i].0@,
                #[trigger] resolver.resolved_axes@[i].1@,
            ) by {
                let rv = resolver.resolved_axes@[i].1@;
                assert(m[resolver.resolved_axes@[i].0@] == as_size_view(rv));
                match rv {
                    ResolvedView::Fixed(f) => {
                        assert(resolve_fuel(m, resolver.resolved_axes@[i].0@, 0) == Some(rv));
                    },
                    ResolvedView::Parameterized { min, step } => {
                        assert(resolve_fuel(m, resolver.resolved_axes@[i].0@, 0) == Some(rv));
                    },
                }
            }
        }
        Ok(resolver)
    }
}

impl SlotResolver {
    /// Records the resolution of every id on a finished reference chain:
    /// each one leaves the waiting list and enters the resolved list, bound
    /// to the size the chain was found to reach.
    fn move_chain_to_resolved(&mut self, visited: &Vec<QualifiedAxisId>, v: ResolvedAxisSize)
        requires
            old(self).inv(),
            qid_views(visited@).no_duplicates(),
            forall|i: int|
                0 <= i < visited@.len() ==> key_views(old(self).unresolved_axes@).contains(
                    qid_views(visited@)[i],
                ),
            forall|i: int|
                0 <= i < visited@.len() ==> resolves_to(
                    old(self).decl_map(),
                    qid_views(visited@)[i],
                    v@,
                ),
        ensures
            final(self).inv(),
            final(self).decl_map() == old(self).decl_map(),
            forall|x: QidView|
                #[trigger] key_views(final(self).unresolved_axes@).contains(x) ==> (key_views(
                    old(self).unresolved_axes@,
                ).contains(x) && !qid_views(visited@).contains(x)),
            final(self).unresolved_axes@.len() == old(self).unresolved_axes@.len()
                - visited@.len(),
            key_views(final(self).unresolved_axes@) == drop_keys(
                key_views(old(self).unresolved_axes@),
                qid_views(visited@),
            ),
    {
        let ghost m = self.decl@;
        let ghost orig_keys = key_views(self.unresolved_axes@);
        proof {
            // The waiting keys are pairwise distinct, being part of the
            // resolver's key partition.
            assert(orig_keys.no_duplicates()) by {
                let all = key_views(self.resolved_axes@) + key_views(self.unresolved_axes@);
                assert(forall|a: int|
                    0 <= a < orig_keys.len() ==> all[key_views(self.resolved_axes@).len() + a]
                        == orig_keys[a]);
            }
            lemma_drop_keys_none(orig_keys);
            assert(qid_views(visited@).take(0) =~= Seq::<QidView>::empty());
        }
        let n = visited.len();
        for k in 0..n
            invariant
                n == visited@.len(),
                self.inv(),
                self.decl@ == m,
                self.resolved_axes@.len() == old(self).resolved_axes@.len() + k,
                self.unresolved_axes@.len() == old(self).unresolved_axes@.len() - k,
                qid_views(visited@).no_duplicates(),
                forall|i: int|
                    0 <= i < visited@.len() ==> resolves_to(m, qid_views(visited@)[i], v@),
                // Chain ids from position k on still wait; the ones before
                // have been moved out.
                forall|i: int|
                    k <= i < visited@.len() ==> key_views(self.unresolved_axes@).contains(
                        qid_views(visited@)[i],
                    ),
                forall|x: QidView|
                    #[trigger] key_views(self.unresolved_axes@).contains(x) ==> key_views(
                        old(self).unresolved_axes@,
                    ).contains(x),
                forall|x: QidView|
                    #[trigger] key_views(self.unresolved_axes@).contains(x) ==> !qid_views(
                        visited@,
                    ).take(k as int).contains(x),
                orig_keys == key_views(old(self).unresolved_axes@),
                orig_keys.no_duplicates(),
                key_views(self.unresolved_axes@) == drop_keys(
                    orig_keys,
                    qid_views(visited@).take(k as int),
                ),
        {
            let id = &visited[k];
            let found = find_key(&self.unresolved_axes, id);
            proof {
                if found is None {
                    assert(key_views(self.unresolved_axes@).contains(qid_views(visited@)[k as int]));
                    let j = choose|j: int|
                        0 <= j < key_views(self.unresolved_axes@).len() && key_views(
                            self.unresolved_axes@,
                        )[j] == qid_views(visited@)[k as int];
                    assert(self.unresolved_axes@[j].0@ == id@);
                }
            }
            let i = match found {
                Some(i) => i,
                None => {
                    // Every chain id still waits in the unresolved list, so
                    // this arm cannot be taken.
                    proof {
                        assert(false);
                    }
                    0
                },
            };
            let ghost pre_res = self.resolved_axes@;
            let ghost pre_unres = self.unresolved_axes@;
            self.unresolved_axes.remove(i);
            self.resolved_axes.push((id.clone(), v));
            proof {
                assert(key_views(self.resolved_axes@) =~= key_views(pre_res).push(id@));
                assert(key_views(self.unresolved_axes@) =~= key_views(pre_unres).remove(i as int));
                lemma_move_key_no_dup(key_views(pre_res), key_views(pre_unres), i as int);
                // One more waiting key, the chain's next id, leaves: taking
                // it out in place is adding it to the dropped keys.
                assert(key_views(pre_unres).no_duplicates()) by {
                    let all = key_views(pre_res) + key_views(pre_unres);
                    assert(forall|a: int|
                        0 <= a < key_views(pre_unres).len() ==> all[key_views(pre_res).len() + a]
                            == key_views(pre_unres)[a]);
                }
                lemma_drop_keys_remove(
                    orig_keys,
                    qid_views(visited@).take(k as int),
                    key_views(pre_unres),
                    i as int,
                    id@,
                );
                assert(qid_views(visited@).take(k as int).push(id@) =~= qid_views(
                    visited@,
                ).take(k as int + 1));
                assert(key_views(self.unresolved_axes@) == drop_keys(
                    orig_keys,
                    qid_views(visited@).take(k as int + 1),
                ));
                assert(key_views(pre_res).push(key_views(pre_unres)[i as int]) == key_views(
                    pre_res,
                ).push(id@));
                // Memberships: removing one occurrence of a key that the
                // list holds exactly once removes the key.
                assert forall|x: QidView|
                    #[trigger] key_views(self.unresolved_axes@).contains(x) implies (key_views(
                    pre_unres,
                ).contains(x) && x != id@) by {
                    let b = key_views(pre_unres);
                    let j = choose|j: int|
                        0 <= j < b.remove(i as int).len() && b.remove(i as int)[j] == x;
                    if j < i {
                        assert(b[j] == x);
                        if x == id@ {
                            assert((key_views(pre_res) + b)[key_views(pre_res).len() + j] == x);
                            assert((key_views(pre_res) + b)[key_views(pre_res).len() + i] == id@);
                        }
                    } else {
                        assert(b[j + 1] == x);
                        if x == id@ {
                            assert((key_views(pre_res) + b)[key_views(pre_res).len() + j + 1] == x);
                            assert((key_views(pre_res) + b)[key_views(pre_res).len() + i] == id@);
                        }
                    }
                }
                assert forall|x: QidView|
                    key_views(pre_unres).contains(x) && x != id@ implies #[trigger] key_views(
                    self.unresolved_axes@,
                ).contains(x) by {
                    let b = key_views(pre_unres);
                    let j = choose|j: int| 0 <= j < b.len() && b[j] == x;
                    if j < i {
                        assert(b.remove(i as int)[j] == x);
                    } else {
                        assert(j != i);
                        assert(b.remove(i as int)[j - 1] == x);
                    }
                }
                // The dom partition is unchanged: the moved key is now on
                // the resolved side.
                lemma_push_contains(key_views(pre_res), id@);
                assert forall|x: QidView| #[trigger] m.dom().contains(x) implies (key_views(
                    self.resolved_axes@,
                ).contains(x) || key_views(self.unresolved_axes@).contains(x)) by {
                    if x != id@ {
                        assert(key_views(pre_res).contains(x) || key_views(pre_unres).contains(x));
                    }
                }
                // Entry bindings survive: old resolved entries are intact,
                // the new one resolves by assumption, and the remaining
                // waiting entries are a sub-list of the old ones.
                assert(forall|j: int|
                    0 <= j < pre_res.len() ==> self.resolved_axes@[j] == pre_res[j]);
                assert(self.resolved_axes@[pre_res.len() as int].0@ == id@);
                assert(self.resolved_axes@[pre_res.len() as int].1 == v);
                assert(resolves_to(m, qid_views(visited@)[k as int], v@));
                assert forall|j: int|
                    0 <= j < self.unresolved_axes@.len() implies m.dom().contains(
                    #[trigger] self.unresolved_axes@[j].0@,
                ) && m[self.unresolved_axes@[j].0@] == (SizeView::Reference {
                    target: self.unresolved_axes@[j].1.qualified_axis_id@,
                    offset: self.unresolved_axes@[j].1.offset as int,
                }) by {
                    if j < i {
                        assert(self.unresolved_axes@[j] == pre_unres[j]);
                    } else {
                        assert(self.unresolved_axes@[j] == pre_unres[j + 1]);
                    }
                }
                // Chain ids past this one are still waiting: they are
                // distinct from the id just moved.
                assert forall|i2: int|
                    k + 1 <= i2 < visited@.len() implies key_views(
                    self.unresolved_axes@,
                ).contains(qid_views(visited@)[i2]) by {
                    assert(qid_views(visited@)[i2] != id@);
                    assert(key_views(pre_unres).contains(qid_views(visited@)[i2]));
                }
                assert forall|x: QidView|
                    #[trigger] key_views(self.unresolved_axes@).contains(x) implies !qid_views(
                    visited@,
                ).take(k + 1).contains(x) by {
                    if qid_views(visited@).take(k + 1).contains(x) {
                        let t = qid_views(visited@).take(k + 1);
                        let j = choose|j: int| 0 <= j < t.len() && t[j] == x;
                        assert(qid_views(visited@)[j] == x);
                        if j < k {
                            assert(qid_views(visited@).take(k as int)[j] == x);
                            assert(qid_views(visited@).take(k as int).contains(x));
                        }
                    }
                }
            }
        }
        proof {
            assert(qid_views(visited@).take(n as int) =~= qid_views(visited@));
            assert forall|x: QidView|
                #[trigger] key_views(self.unresolved_axes@).contains(x) implies !qid_views(
                visited@,
            ).contains(x) by {}
        }
    }

    /// Follows the reference chain that starts at `start` until it reaches a
    /// concrete size, revisits an id (a cycle), or falls off the declared
    /// ids (unresolvable); on success every id on the chain is moved into
    /// the resolved list, so later requests find it at once.
    fn try_resolve(&mut self, start: QualifiedAxisId) -> (r: Result<
        ResolvedAxisSize,
        AxisSizeResolutionError,
    >)
        requires
            old(self).inv(),
        ensures
            final(self).inv(),
            final(self).decl_map() == old(self).decl_map(),
            match r {
                Ok(v) => {
                    &&& resolves_to(old(self).decl_map(), start@, v@)
                    &&& forall|x: QidView|
                        #[trigger] key_views(final(self).unresolved_axes@).contains(x) ==> (
                        key_views(old(self).unresolved_axes@).contains(x) && x != start@)
                    &&& key_views(old(self).unresolved_axes@).contains(start@)
                        ==> final(self).unresolved_axes@.len() < old(self).unresolved_axes@.len()
                    &&& exists|moved: Seq<QidView>|
                        #![trigger drop_keys(key_views(old(self).unresolved_axes@), moved)]
                        key_views(final(self).unresolved_axes@) == drop_keys(
                            key_views(old(self).unresolved_axes@),
                            moved,
                        ) && (forall|x: QidView|
                            #[trigger] moved.contains(x) ==> solvable(old(self).decl_map(), x))
                },
                Err(e) => {
                    &&& !solvable(old(self).decl_map(), start@)
                    &&& *final(self) == *old(self)
                    &&& blamed_failure_from(old(self).decl_map(), start@, e)
                    &&& match e {
                        AxisSizeResolutionError::Loop(id) => on_cycle(old(self).decl_map(), id@)
                            && old(self).decl_map().dom().contains(id@),
                        AxisSizeResolutionError::Unresolvable { visited } => dangling_chain(
                            old(self).decl_map(),
                            qid_views(visited@),
                        ) && qid_views(visited@)[0] == start@,
                        _ => false,
                    }
                },
            },
    {
        let ghost m = self.decl@;
        let mut visited: Vec<QualifiedAxisId> = Vec::new();
        let mut current: QualifiedAxisId = start;
        loop
            invariant
                self.inv(),
                self.decl@ == m,
                self == old(self),
                qid_views(visited@).no_duplicates(),
                forall|i: int|
                    0 <= i < visited@.len() ==> key_views(self.unresolved_axes@).contains(
                        qid_views(visited@)[i],
                    ),
                forall|i: int|
                    0 <= i < visited@.len() - 1 ==> chain_step(m, qid_views(visited@)[i]) == Some(
                        qid_views(visited@)[i + 1],
                    ),
                visited@.len() > 0 ==> qid_views(visited@)[0] == start@,
                visited@.len() > 0 ==> chain_step(m, qid_views(visited@).last()) == Some(current@),
                visited@.len() == 0 ==> current@ == start@,
                forall|i: int|
                    0 <= i < visited@.len() ==> chain_at(m, start@, i as nat) == Some(
                        qid_views(visited@)[i],
                    ),
                chain_at(m, start@, visited@.len() as nat) == Some(current@),
            decreases self.unresolved_axes@.len() - visited@.len(),
        {
            proof {
                lemma_distinct_within_len(qid_views(visited@), key_views(self.unresolved_axes@));
            }
            if let Some(i) = find_key(&self.resolved_axes, &current) {
                let v = self.resolved_axes[i].1;
                let ghost pre_res_keys = key_views(self.resolved_axes@);
                let ghost pre_unres_keys = key_views(self.unresolved_axes@);
                proof {
                    assert(resolves_to(m, current@, v@));
                    lemma_chain_resolves(m, qid_views(visited@), current@, v@);
                    assert(forall|i: int|
                        0 <= i < visited@.len() ==> resolves_to(m, qid_views(visited@)[i], v@));
                    // A key never sits in both lists at once, so a memoized
                    // id is not among the waiting ones.
                    if pre_unres_keys.contains(current@) {
                        let j = choose|j: int|
                            0 <= j < pre_unres_keys.len() && pre_unres_keys[j] == current@;
                        assert((pre_res_keys + pre_unres_keys)[i as int] == current@);
                        assert((pre_res_keys + pre_unres_keys)[pre_res_keys.len() + j]
                            == current@);
                    }
                    assert(!pre_unres_keys.contains(current@));
                }
                self.move_chain_to_resolved(&visited, v);
                proof {
                    // Every id moved out resolves to the found size, so it
                    // is solvable; what remains is the old list with the
                    // moved ids taken out, order kept.
                    assert forall|x: QidView| #[trigger] qid_views(visited@).contains(x) implies
                        solvable(m, x) by {
                        let ii = choose|ii: int|
                            0 <= ii < qid_views(visited@).len() && qid_views(visited@)[ii] == x;
                        assert(resolves_to(m, x, v@));
                        let nn = choose|nn: nat| resolve_fuel(m, x, nn) == Some(v@);
                        assert(resolve_fuel(m, x, nn) is Some);
                    }
                    assert(key_views(self.unresolved_axes@) == drop_keys(
                        pre_unres_keys,
                        qid_views(visited@),
                    ));
                    if visited@.len() == 0 {
                        assert(current@ == start@);
                    } else {
                        assert(qid_views(visited@)[0] == start@);
                        assert(qid_views(visited@).contains(start@));
                        assert(resolves_to(m, start@, v@));
                    }
                    assert forall|x: QidView|
                        #[trigger] key_views(self.unresolved_axes@).contains(x) implies (
                    pre_unres_keys.contains(x) && x != start@) by {}
                }
                return Ok(v);
            }
            if let Some(i) = find_qid(&visited, &current) {
                proof {
                    lemma_chain_run(m, qid_views(visited@), i as int, visited@.len() - 1);
                    lemma_chain_snoc(
                        m,
                        qid_views(visited@)[i as int],
                        (visited@.len() - 1 - i) as nat,
                        qid_views(visited@).last(),
                        current@,
                    );
                    assert(chain_at(
                        m,
                        current@,
                        (visited@.len() - i) as nat,
                    ) == Some(current@));
                    assert(on_cycle(m, current@));
                    lemma_cycle_unsolvable(m, current@);
                    assert(qid_views(visited@)[i as int] == current@);
                    lemma_run_unsolvable(m, qid_views(visited@), 0, i as int);
                    assert(!solvable(m, start@));
                    assert(m.dom().contains(current@));
                    // The walk revisits `current` for the first time here:
                    // position `i` and the present position both hold it,
                    // and everything walked so far was distinct.
                    let kk = visited@.len() as nat;
                    let jj = i as nat;
                    assert(chain_at(m, start@, jj) == Some(current@));
                    assert(chain_at(m, start@, kk) == Some(current@));
                    assert forall|a: nat, b: nat| a < b < kk implies chain_at(m, start@, a)
                        != chain_at(m, start@, b) by {
                        assert(chain_at(m, start@, a) == Some(qid_views(visited@)[a as int]));
                        assert(chain_at(m, start@, b) == Some(qid_views(visited@)[b as int]));
                    }
                }
                return Err(AxisSizeResolutionError::Loop(current));
            }
            let ghost pre_visited = qid_views(visited@);
            visited.push(current.clone());
            proof {
                assert(qid_views(visited@) =~= pre_visited.push(current@));
                lemma_push_contains(pre_visited, current@);
                assert forall|i2: int| 0 <= i2 < visited@.len() implies chain_at(
                    m,
                    start@,
                    i2 as nat,
                ) == Some(qid_views(visited@)[i2]) by {
                    if i2 < pre_visited.len() {
                        assert(qid_views(visited@)[i2] == pre_visited[i2]);
                    } else {
                        assert(qid_views(visited@)[i2] == current@);
                    }
                }
            }
            match find_key(&self.unresolved_axes, &current) {
                None => {
                    proof {
                        let c = qid_views(visited@);
                        assert(c.last() == current@);
                        assert(forall|j: int|
                            0 <= j < key_views(self.resolved_axes@).len() ==> key_views(
                                self.resolved_axes@,
                            )[j] != current@);
                        assert(!key_views(self.resolved_axes@).contains(current@));
                        assert(forall|j: int|
                            0 <= j < key_views(self.unresolved_axes@).len() ==> key_views(
                                self.unresolved_axes@,
                            )[j] != current@);
                        assert(!key_views(self.unresolved_axes@).contains(current@));
                        assert(!m.dom().contains(current@));
                        assert(dangling_chain(m, c));
                        lemma_dangling_unsolvable(m, c);
                        assert(c[0] == start@);
                    }
                    return Err(AxisSizeResolutionError::Unresolvable { visited });
                },
                Some(i) => {
                    let next = self.unresolved_axes[i].1.qualified_axis_id.clone();
                    proof {
                        assert(self.unresolved_axes@[i as int].0@ == current@);
                        assert(m.dom().contains(current@));
                        assert(chain_step(m, current@) == Some(next@));
                        assert(key_views(self.unresolved_axes@).contains(current@)) by {
                            assert(key_views(self.unresolved_axes@)[i as int] == current@);
                        }
                        // The chain grew by one id that still waits for
                        // resolution, so the measure stays in bounds.
                        lemma_distinct_within_len(
                            qid_views(visited@),
                            key_views(self.unresolved_axes@),
                        );
                        lemma_chain_snoc(
                            m,
                            start@,
                            (visited@.len() - 1) as nat,
                            current@,
                            next@,
                        );
                        assert(chain_at(m, start@, visited@.len() as nat) == Some(next@));
                    }
                    current = next;
                },
            }
        }
    }
}

impl SlotResolver {
    /// One driving step: when nothing remains unresolved, the full mapping
    /// is done; otherwise the first waiting id is resolved together with
    /// every id on its reference chain.
    fn step(self) -> (r: Result<ResolverStatus, AxisSizeResolutionError>)
        requires
            self.inv(),
        ensures
            match r {
                Ok(status) => match status {
                    ResolverStatus::Done(map) => {
                        &&& map.inv()
                        &&& map@.dom() == self.decl_map().dom()
                        &&& forall|id: QidView|
                            #[trigger] self.decl_map().dom().contains(id) ==> resolves_to(
                                self.decl_map(),
                                id,
                                map@[id],
                            )
                    },
                    ResolverStatus::Resolving(next) => {
                        &&& next.inv()
                        &&& next.decl_map() == self.decl_map()
                        &&& next.pending() < self.pending()
                        &&& exists|moved: Seq<QidView>|
                            #![trigger drop_keys(self.waiting(), moved)]
                            next.waiting() == drop_keys(self.waiting(), moved) && (forall|
                                x: QidView,
                            |
                                #[trigger] moved.contains(x) ==> solvable(self.decl_map(), x))
                    },
                },
                Err(e) => {
                    &&& failed_resolution(self.decl_map(), e)
                    &&& self.pending() > 0
                    &&& !solvable(self.decl_map(), self.waiting()[0])
                    &&& blamed_failure_from(self.decl_map(), self.waiting()[0], e)
                },
            },
    {
        let ghost m = self.decl@;
        let mut this = self;
        if this.unresolved_axes.len() == 0 {
            let map = ResolvedSizeMap { entries: this.resolved_axes };
            proof {
                let a = key_views(map.entries@);
                let b = key_views(this.unresolved_axes@);
                assert(a =~= a + b);
                assert(a.no_duplicates());
                lemma_map_of_dom(map.entries@);
                assert forall|x: QidView| #[trigger] m.dom().contains(x) implies
                    map_of(map.entries@).dom().contains(x) by {
                    assert(a.contains(x) || b.contains(x));
                }
                assert forall|x: QidView| #[trigger] map_of(map.entries@).dom().contains(x)
                    implies m.dom().contains(x) by {
                    assert(a.contains(x));
                }
                assert(m.dom() =~= map_of(map.entries@).dom());
                assert forall|id: QidView| #[trigger] m.dom().contains(id) implies resolves_to(
                    m,
                    id,
                    map_of(map.entries@)[id],
                ) by {
                    assert(a.contains(id));
                    let j = choose|j: int| 0 <= j < a.len() && a[j] == id;
                    lemma_map_of_at(map.entries@, j);
                    assert(map_of(map.entries@)[id] == map.entries@[j].1@);
                    assert(resolves_to(m, map.entries@[j].0@, map.entries@[j].1@));
                }
            }
            return Ok(ResolverStatus::Done(map));
        }
        let key = this.unresolved_axes[0].0.clone();
        proof {
            assert(key_views(this.unresolved_axes@)[0] == key@);
            assert(key_views(this.unresolved_axes@).contains(key@));
        }
        let ghost pre_waiting = key_views(this.unresolved_axes@);
        match this.try_resolve(key) {
            Ok(_) => {
                proof {
                    let moved = choose|moved: Seq<QidView>|
                        #![trigger drop_keys(pre_waiting, moved)]
                        key_views(this.unresolved_axes@) == drop_keys(pre_waiting, moved) && (
                        forall|x: QidView| #[trigger] moved.contains(x) ==> solvable(m, x));
                    assert(this.waiting() == drop_keys(self.waiting(), moved));
                }
                Ok(ResolverStatus::Resolving(this))
            },
            Err(e) => {
                proof {
                    match &e {
                        AxisSizeResolutionError::Loop(id) => {
                            lemma_cycle_unsolvable(m, id@);
                        },
                        AxisSizeResolutionError::Unresolvable { visited } => {
                            lemma_dangling_unsolvable(m, qid_views(visited@));
                            assert(m.dom().contains(qid_views(visited@)[0]));
                        },
                        _ => {},
                    }
                }
                Err(e)
            },
        }
    }

    /// The number of declared ids whose references are not yet eliminated.
    pub closed spec fn pending(self) -> nat {
        self.unresolved_axes@.len()
    }

    /// The declared ids whose references are not yet eliminated, in
    /// declaration order.
    pub closed spec fn waiting(self) -> Seq<QidView> {
        key_views(self.unresolved_axes@)
    }

    /// Resolves every declared id, eliminating all references: the result
    /// binds each declared qualified id to exactly the size its reference
    /// chain reaches.  Fails with `Loop` when a chain revisits an id and
    /// with `Unresolvable` when a chain leaves the declared ids; either
    /// error certifies that some declared id cannot be resolved.
    ///
    /// Each driving step picks the first still-waiting id in declaration
    /// order.  Any total, deterministic choice would do: the resolved
    /// mapping is a function of the declarations alone (see
    /// [`lemma_resolution_deterministic`]), and a fixed choice keeps the
    /// error reporting reproducible as well.
    pub fn solve(self) -> (r: Result<ResolvedSizeMap, AxisSizeResolutionError>)
        requires
            self.inv(),
        ensures
            match r {
                Ok(map) => {
                    &&& map.inv()
                    &&& map@.dom() == self.decl_map().dom()
                    &&& forall|id: QidView|
                        #[trigger] self.decl_map().dom().contains(id) ==> resolves_to(
                            self.decl_map(),
                            id,
                            map@[id],
                        )
                },
                Err(e) => {
                    &&& failed_resolution(self.decl_map(), e)
                    &&& exists|id: QidView|
                        #[trigger] self.decl_map().dom().contains(id) && !solvable(
                            self.decl_map(),
                            id,
                        )
                    // The failure report is a function of the declarations
                    // and the waiting order: the walk starts at the first
                    // waiting id that cannot be resolved, and the walk from
                    // there determines the error completely (see
                    // `lemma_failure_report_deterministic`).
                    &&& solve_failure_report(self.decl_map(), self.waiting(), e)
                },
            },
    {
        let ghost m = self.decl@;
        let mut resolver = self;
        let ghost mut dead: Seq<QidView> = Seq::empty();
        proof {
            lemma_drop_keys_none(self.waiting());
        }
        loop
            invariant
                resolver.inv(),
                resolver.decl_map() == m,
                m == self.decl_map(),
                resolver.waiting() == drop_keys(self.waiting(), dead),
                forall|x: QidView| #[trigger] dead.contains(x) ==> solvable(m, x),
            decreases resolver.pending(),
        {
            let ghost prev_waiting = resolver.waiting();
            match resolver.step() {
                Ok(ResolverStatus::Done(map)) => {
                    return Ok(map);
                },
                Ok(ResolverStatus::Resolving(next)) => {
                    proof {
                        let moved = choose|moved: Seq<QidView>|
                            #![trigger drop_keys(prev_waiting, moved)]
                            next.waiting() == drop_keys(prev_waiting, moved) && (forall|x: QidView|
                                #[trigger] moved.contains(x) ==> solvable(m, x));
                        lemma_drop_keys_concat(self.waiting(), dead, moved);
                        lemma_qid_concat_contains(dead, moved);
                        dead = dead + moved;
                        assert(next.waiting() == drop_keys(self.waiting(), dead));
                    }
                    resolver = next;
                },
                Err(e) => {
                    proof {
                        match &e {
                            AxisSizeResolutionError::Loop(id) => {
                                assert(m.dom().contains(id@) && !solvable(m, id@));
                            },
                            AxisSizeResolutionError::Unresolvable { visited } => {
                                assert(m.dom().contains(qid_views(visited@)[0]) && !solvable(
                                    m,
                                    qid_views(visited@)[0],
                                ));
                            },
                            _ => {},
                        }
                        // The failed walk started at the head of what still
                        // waits, which is the first waiting id of the whole
                        // run that cannot be resolved: everything removed
                        // before it was solvable.
                        assert(prev_waiting.len() > 0);
                        lemma_drop_keys_head(self.waiting(), dead);
                        let k = choose|k: int|
                            0 <= k < self.waiting().len() && self.waiting()[k] == drop_keys(
                                self.waiting(),
                                dead,
                            )[0] && (forall|j: int|
                                0 <= j < k ==> dead.contains(#[trigger] self.waiting()[j]));
                        assert(self.waiting()[k] == prev_waiting[0]);
                        assert(!solvable(m, self.waiting()[k]));
                        assert(blamed_failure_from(m, self.waiting()[k], e));
                        assert forall|j: int| 0 <= j < k implies solvable(
                            m,
                            #[trigger] self.waiting()[j],
                        ) by {
                            assert(dead.contains(self.waiting()[j]));
                        }
                        assert(solve_failure_report(m, self.waiting(), e));
                    }
                    return Err(e);
                },
            }
        }
    }
}

/// Walking a linked chain from position `a` to position `b` takes `b - a`
/// steps.
proof fn lemma_chain_run(m: Map<QidView, SizeView>, c: Seq<QidView>, a: int, b: int)
    requires
        0 <= a <= b < c.len(),
        forall|i: int| 0 <= i < c.len() - 1 ==> chain_step(m, c[i]) == Some(c[i + 1]),
    ensures
        chain_at(m, c[a], (b - a) as nat) == Some(c[b]),
    decreases b - a,
{
    if a < b {
        assert(chain_step(m, c[a]) == Some(c[a + 1]));
        lemma_chain_run(m, c, a + 1, b);
    }
}

/// A declared reference to an unsolvable id is itself unsolvable.
proof fn lemma_step_unsolvable(m: Map<QidView, SizeView>, a: QidView, b: QidView)
    requires
        chain_step(m, a) == Some(b),
        !solvable(m, b),
    ensures
        !solvable(m, a),
{
    assert forall|n: nat| resolve_fuel(m, a, n) is None by {
        if n > 0 {
            assert(resolve_fuel(m, a, n) == resolve_fuel(m, b, (n - 1) as nat));
            assert(resolve_fuel(m, b, (n - 1) as nat) is None);
        }
    }
}

/// Unsolvability travels backwards along a reference chain.
proof fn lemma_run_unsolvable(m: Map<QidView, SizeView>, c: Seq<QidView>, a: int, b: int)
    requires
        0 <= a <= b < c.len(),
        forall|i: int| 0 <= i < c.len() - 1 ==> chain_step(m, c[i]) == Some(c[i + 1]),
        !solvable(m, c[b]),
    ensures
        !solvable(m, c[a]),
    decreases b - a,
{
    if a < b {
        lemma_run_unsolvable(m, c, a + 1, b);
        lemma_step_unsolvable(m, c[a], c[a + 1]);
    }
}

/// Every id on a chain of declared references resolves to whatever the id
/// just past the chain's end resolves to.
proof fn lemma_chain_resolves(
    m: Map<QidView, SizeView>,
    c: Seq<QidView>,
    endv: QidView,
    rv: ResolvedView,
)
    requires
        forall|i: int| 0 <= i < c.len() - 1 ==> chain_step(m, c[i]) == Some(c[i + 1]),
        c.len() > 0 ==> chain_step(m, c.last()) == Some(endv),
        resolves_to(m, endv, rv),
    ensures
        forall|i: int| 0 <= i < c.len() ==> resolves_to(m, c[i], rv),
    decreases c.len(),
{
    if c.len() > 0 {
        let n = choose|n: nat| resolve_fuel(m, endv, n) == Some(rv);
        assert(resolve_fuel(m, c.last(), (n + 1) as nat) == Some(rv));
        assert(resolves_to(m, c.last(), rv));
        let head = c.drop_last();
        assert(forall|i: int|
            0 <= i < head.len() - 1 ==> chain_step(m, head[i]) == Some(head[i + 1]));
        if head.len() > 0 {
            assert(chain_step(m, head.last()) == Some(c.last()));
        }
        lemma_chain_resolves(m, head, c.last(), rv);
        assert forall|i: int| 0 <= i < c.len() implies resolves_to(m, c[i], rv) by {
            if i < c.len() - 1 {
                assert(head[i] == c[i]);
            }
        }
    }
}

/// Moving one keyed entry from the waiting list to the finished list keeps
/// the keys of the two lists pairwise distinct.
proof fn lemma_move_key_no_dup(a: Seq<QidView>, b: Seq<QidView>, i: int)
    requires
        0 <= i < b.len(),
        (a + b).no_duplicates(),
    ensures
        (a.push(b[i]) + b.remove(i)).no_duplicates(),
{
    let moved = a.push(b[i]) + b.remove(i);
    let orig = a + b;
    assert forall|p: int, q: int|
        0 <= p < moved.len() && 0 <= q < moved.len() && p != q implies moved[p] != moved[q] by {
        assert(forall|k: int| 0 <= k < a.len() ==> moved[k] == orig[k]);
        assert(moved[a.len() as int] == orig[a.len() + i]);
        assert(forall|k: int|
            a.len() < k <= a.len() + i ==> moved[k] == orig[k - 1]);
        assert(forall|k: int|
            a.len() + i < k < moved.len() ==> moved[k] == orig[k]);
    }
}

/// Distinct sequences drawn from a smaller set cannot be longer than it.
proof fn lemma_distinct_within_len(a: Seq<QidView>, b: Seq<QidView>)
    requires
        a.no_duplicates(),
        forall|x: QidView| a.to_set().contains(x) ==> b.to_set().contains(x),
    ensures
        a.len() <= b.len(),
{
    broadcast use vstd::seq_lib::seq_to_set_is_finite;

    a.unique_seq_to_set();
    b.lemma_cardinality_of_set();
    lemma_len_subset(a.to_set(), b.to_set());
}

} // verus!
