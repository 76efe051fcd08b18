//! The order in which features are installed.
use crate::features::{FeatureMetadata, ResolvedFeature};
use crate::lists::opt_text;
use crate::text::{concat, ends_with, has_suffix, same, spec_split_once, split_once};
use vstd::prelude::*;
use vstd::set_lib::{lemma_int_range, lemma_subset_equality, set_int_range};

verus! {

/// Whether an `installsAfter` entry, apart from its tag, refers to the feature: by its full
/// reference, by the end of that, or by its id.
pub open spec fn refers_to(
    ref_no_tag: Seq<char>,
    id: Option<Seq<char>>,
    entry: Seq<char>,
) -> bool {
    let name = match spec_split_once(entry, ':') {
        Some((name, _)) => name,
        None => entry,
    };
    ref_no_tag == name || has_suffix(ref_no_tag, "/"@ + name) || id == Some(name)
}

/// Whether an `installsAfter` entry refers to the given feature.
pub fn ref_matches(ref_no_tag: &str, metadata: &FeatureMetadata, entry: &str) -> (r: bool)
    ensures
        r == refers_to(ref_no_tag@, opt_text(metadata.id), entry@),
{
    let name = match split_once(entry, ':') {
        Some((name, _)) => name,
        None => entry.to_owned(),
    };
    let end = concat("/", name.as_str());
    same(ref_no_tag, name.as_str()) || ends_with(ref_no_tag, end.as_str()) || match &metadata.id {
        Some(id) => same(id.as_str(), name.as_str()),
        None => false,
    }
}

/// Whether feature `i` asks to be installed after feature `j`.
pub open spec fn installs_after(features: Seq<ResolvedFeature>, i: int, j: int) -> bool {
    i != j && exists|k: int|
        0 <= k < features[i].metadata.installs_after@.len() && refers_to(
            features[j].ref_no_tag@,
            opt_text(features[j].metadata.id),
            (#[trigger] features[i].metadata.installs_after@[k])@,
        )
}

/// Whether feature `i` is among the first `k` of the order.
pub open spec fn placed(order: Seq<usize>, k: int, i: int) -> bool {
    exists|m: int| 0 <= m < k && #[trigger] order[m] == i
}

/// Whether all that feature `i` asks to be installed after is among the first `k` of the order.
pub open spec fn is_ready(
    features: Seq<ResolvedFeature>,
    order: Seq<usize>,
    k: int,
    i: int,
) -> bool {
    forall|j: int|
        0 <= j < features.len() && #[trigger] installs_after(features, i, j) ==> placed(order, k, j)
}

/// Whether feature `i` is the one that comes at place `k` of the order: the first, in the order in
/// which they are configured, of those that are not placed yet and are ready, or the first that
/// is not placed yet where none is ready.
pub open spec fn comes_next(
    features: Seq<ResolvedFeature>,
    order: Seq<usize>,
    k: int,
    i: int,
) -> bool {
    &&& 0 <= i < features.len()
    &&& !placed(order, k, i)
    &&& if is_ready(features, order, k, i) {
        forall|h: int|
            #![trigger placed(order, k, h)]
            0 <= h < i && !placed(order, k, h) ==> !is_ready(features, order, k, h)
    } else {
        &&& forall|h: int|
            #![trigger placed(order, k, h)]
            0 <= h < features.len() && !placed(order, k, h) ==> !is_ready(features, order, k, h)
        &&& forall|h: int| 0 <= h < i ==> #[trigger] placed(order, k, h)
    }
}

/// Whether this is the order of installation.
pub open spec fn is_install_order(features: Seq<ResolvedFeature>, order: Seq<usize>) -> bool {
    &&& order.len() == features.len()
    &&& forall|k: int| 0 <= k < order.len() ==> comes_next(
        features,
        order,
        k,
        #[trigger] order[k] as int,
    )
}

/// What comes at a place depends only on what stands before it.
proof fn lemma_same_beginning(
    features: Seq<ResolvedFeature>,
    a: Seq<usize>,
    b: Seq<usize>,
    k: int,
    i: int,
)
    requires
        0 <= k <= a.len(),
        k <= b.len(),
        forall|m: int| 0 <= m < k ==> a[m] == b[m],
        comes_next(features, a, k, i),
    ensures
        comes_next(features, b, k, i),
{
    assert forall|h: int| #[trigger] placed(b, k, h) == placed(a, k, h) by {
        if placed(a, k, h) {
            let m = choose|m: int| 0 <= m < k && #[trigger] a[m] == h;
            assert(b[m] == h);
        }
        if placed(b, k, h) {
            let m = choose|m: int| 0 <= m < k && #[trigger] b[m] == h;
            assert(a[m] == h);
        }
    }
    assert forall|h: int| #[trigger] is_ready(features, b, k, h) == is_ready(features, a, k, h) by {
        if is_ready(features, a, k, h) {
            assert forall|j: int|
                0 <= j < features.len() && #[trigger] installs_after(
                    features,
                    h,
                    j,
                ) implies placed(b, k, j) by {
                assert(placed(a, k, j));
            }
        }
        if is_ready(features, b, k, h) {
            assert forall|j: int|
                0 <= j < features.len() && #[trigger] installs_after(
                    features,
                    h,
                    j,
                ) implies placed(a, k, j) by {
                assert(placed(b, k, j));
            }
        }
    }
    assert(placed(b, k, i) == placed(a, k, i));
    assert(is_ready(features, b, k, i) == is_ready(features, a, k, i));
    assert forall|h: int| #![trigger placed(b, k, h)]
        0 <= h < features.len() && !placed(b, k, h) && (h < i || !is_ready(
            features,
            b,
            k,
            i,
        )) implies !is_ready(features, b, k, h) by {
        assert(placed(b, k, h) == placed(a, k, h));
        assert(is_ready(features, b, k, h) == is_ready(features, a, k, h));
    }
}

/// For each feature, the places of those that it asks to be installed after.
fn prerequisites(features: &Vec<ResolvedFeature>) -> (r: Vec<Vec<usize>>)
    ensures
        r@.len() == features@.len(),
        forall|i: int, j: usize|
            0 <= i < features@.len() ==> (#[trigger] r@[i]@.contains(j) <==> j < features@.len()
                && installs_after(features@, i, j as int)),
{
    let n = features.len();
    let mut r: Vec<Vec<usize>> = Vec::new();
    let mut i: usize = 0;
    while i < n
        invariant
            i <= n == features@.len(),
            r@.len() == i,
            forall|h: int, j: usize|
                0 <= h < i ==> (#[trigger] r@[h]@.contains(j) <==> j < n && installs_after(
                    features@,
                    h,
                    j as int,
                )),
        decreases n - i,
    {
        let mut list: Vec<usize> = Vec::new();
        let mut j: usize = 0;
        while j < n
            invariant
                i < n,
                j <= n == features@.len(),
                forall|p: usize|
                    #[trigger] list@.contains(p) <==> p < j && installs_after(
                        features@,
                        i as int,
                        p as int,
                    ),
            decreases n - j,
        {
            let ghost before = list@;
            if asks_after(&features[i], &features[j]) && i != j {
                list.push(j);
                assert(list@[before.len() as int] == j);
                assert forall|p: usize| #[trigger] list@.contains(p) <==> p < j + 1
                    && installs_after(features@, i as int, p as int) by {
                    if before.contains(p) {
                        let q = before.index_of(p);
                        assert(list@[q] == p);
                    }
                    if list@.contains(p) && p != j {
                        let q = list@.index_of(p);
                        assert(before[q] == p);
                    }
                }
            }
            j += 1;
        }
        r.push(list);
        i += 1;
    }
    r
}

/// Whether one of the first feature's `installsAfter` entries refers to the other.
fn asks_after(feature: &ResolvedFeature, other: &ResolvedFeature) -> (r: bool)
    ensures
        r == exists|k: int|
            0 <= k < feature.metadata.installs_after@.len() && refers_to(
                other.ref_no_tag@,
                opt_text(other.metadata.id),
                (#[trigger] feature.metadata.installs_after@[k])@,
            ),
{
    let entries = &feature.metadata.installs_after;
    let mut k: usize = 0;
    while k < entries.len()
        invariant
            k <= entries@.len(),
            entries == feature.metadata.installs_after,
            forall|m: int|
                0 <= m < k ==> !refers_to(
                    other.ref_no_tag@,
                    opt_text(other.metadata.id),
                    (#[trigger] entries@[m])@,
                ),
        decreases entries@.len() - k,
    {
        if ref_matches(other.ref_no_tag.as_str(), &other.metadata, entries[k].as_str()) {
            return true;
        }
        k += 1;
    }
    false
}

/// Whether all of `list` are marked.
fn all_marked(list: &Vec<usize>, marks: &Vec<bool>) -> (r: bool)
    requires
        forall|i: int| 0 <= i < list@.len() ==> #[trigger] list@[i] < marks@.len(),
    ensures
        r == forall|i: int| 0 <= i < list@.len() ==> marks@[#[trigger] list@[i] as int],
{
    let mut i: usize = 0;
    while i < list.len()
        invariant
            i <= list@.len(),
            forall|m: int| 0 <= m < list@.len() ==> #[trigger] list@[m] < marks@.len(),
            forall|m: int| 0 <= m < i ==> marks@[#[trigger] list@[m] as int],
        decreases list@.len() - i,
    {
        if !marks[list[i]] {
            return false;
        }
        i += 1;
    }
    true
}

/// Topologically orders features by `installsAfter`, stable to config order and tolerant of
/// cycles.
pub fn install_order(features: &Vec<ResolvedFeature>) -> (r: Vec<usize>)
    ensures
        is_install_order(features@, r@),
{
    let n = features.len();
    let prereqs = prerequisites(features);
    let mut done: Vec<bool> = Vec::new();
    while done.len() < n
        invariant
            done@.len() <= n,
            forall|i: int| 0 <= i < done@.len() ==> !#[trigger] done@[i],
        decreases n - done@.len(),
    {
        done.push(false);
    }
    let mut order: Vec<usize> = Vec::new();
    while order.len() < n
        invariant
            n == features@.len(),
            order@.len() <= n,
            done@.len() == n,
            prereqs@.len() == n,
            forall|i: int, j: usize|
                0 <= i < n ==> (#[trigger] prereqs@[i]@.contains(j) <==> j < n && installs_after(
                    features@,
                    i,
                    j as int,
                )),
            forall|i: int|
                0 <= i < n ==> #[trigger] done@[i] == placed(order@, order@.len() as int, i),
            forall|k: int|
                0 <= k < order@.len() ==> comes_next(
                    features@,
                    order@,
                    k,
                    #[trigger] order@[k] as int,
                ),
        decreases n - order@.len(),
    {
        let ghost before = order@;
        let ghost k = order@.len() as int;
        let next = next_feature(features, &prereqs, &done, Ghost(before));
        order.push(next);
        done.set(next, true);
        proof {
            assert forall|m: int| 0 <= m < order@.len() implies comes_next(
                features@,
                order@,
                m,
                #[trigger] order@[m] as int,
            ) by {
                if m < k {
                    assert(comes_next(features@, before, m, before[m] as int));
                    lemma_same_beginning(features@, before, order@, m, before[m] as int);
                } else {
                    lemma_same_beginning(features@, before, order@, k, next as int);
                }
            }
            assert forall|i: int| 0 <= i < n implies #[trigger] done@[i] == placed(
                order@,
                order@.len() as int,
                i,
            ) by {
                if placed(before, k, i) {
                    let m = choose|m: int| 0 <= m < k && #[trigger] before[m] == i;
                    assert(order@[m] == i);
                }
                if i == next {
                    assert(order@[k] == i);
                }
                if placed(order@, k + 1, i) && i != next {
                    let m = choose|m: int| 0 <= m < k + 1 && #[trigger] order@[m] == i;
                    assert(before[m] == i);
                }
            }
        }
    }
    order
}

/// The feature that the order `before` goes on with.
fn next_feature(
    features: &Vec<ResolvedFeature>,
    prereqs: &Vec<Vec<usize>>,
    done: &Vec<bool>,
    before: Ghost<Seq<usize>>,
) -> (r: usize)
    requires
        before@.len() < features@.len(),
        done@.len() == features@.len(),
        prereqs@.len() == features@.len(),
        forall|i: int, j: usize|
            0 <= i < features@.len() ==> (#[trigger] prereqs@[i]@.contains(j) <==> j
                < features@.len() && installs_after(features@, i, j as int)),
        forall|i: int|
            0 <= i < features@.len() ==> #[trigger] done@[i] == placed(
                before@,
                before@.len() as int,
                i,
            ),
    ensures
        comes_next(features@, before@, before@.len() as int, r as int),
{
    let n = features.len();
    let ghost k = before@.len() as int;
    let mut first: Option<usize> = None;
    let mut i: usize = 0;
    while i < n
        invariant
            i <= n == features@.len(),
            k == before@.len(),
            done@.len() == n,
            prereqs@.len() == n,
            forall|i: int, j: usize|
                0 <= i < n ==> (#[trigger] prereqs@[i]@.contains(j) <==> j < n && installs_after(
                    features@,
                    i,
                    j as int,
                )),
            forall|i: int| 0 <= i < n ==> #[trigger] done@[i] == placed(before@, k, i),
            forall|h: int|
                #![trigger placed(before@, k, h)]
                0 <= h < i && !placed(before@, k, h) ==> !is_ready(features@, before@, k, h),
            match first {
                Some(f) => f < i && !placed(before@, k, f as int) && forall|h: int|
                    0 <= h < f ==> #[trigger] placed(before@, k, h),
                None => forall|h: int| 0 <= h < i ==> #[trigger] placed(before@, k, h),
            },
        decreases n - i,
    {
        assert(done@[i as int] == placed(before@, k, i as int));
        if !done[i] {
            let list = &prereqs[i];
            assert forall|m: int| 0 <= m < list@.len() implies #[trigger] list@[m] < n by {
                assert(prereqs@[i as int]@.contains(list@[m]));
            }
            let ready = all_marked(list, done);
            proof {
                if ready {
                    assert forall|j: int|
                        0 <= j < features@.len() && #[trigger] installs_after(
                            features@,
                            i as int,
                            j,
                        ) implies placed(before@, k, j) by {
                        assert(prereqs@[i as int]@.contains(j as usize));
                        let m = list@.index_of(j as usize);
                        assert(done@[list@[m] as int]);
                    }
                    assert(is_ready(features@, before@, k, i as int));
                } else {
                    let m = choose|m: int|
                        0 <= m < list@.len() && !done@[#[trigger] list@[m] as int];
                    assert(prereqs@[i as int]@.contains(list@[m]));
                    assert(installs_after(features@, i as int, list@[m] as int));
                    assert(!placed(before@, k, list@[m] as int));
                    assert(!is_ready(features@, before@, k, i as int));
                }
            }
            if ready {
                return i;
            }
            if first.is_none() {
                first = Some(i);
            }
        }
        i += 1;
    }
    match first {
        Some(f) => f,
        None => {
            proof {
                lemma_all_placed(before@, n as nat);
            }
            0
        },
    }
}

/// Fewer places than features cannot hold them all.
proof fn lemma_all_placed(order: Seq<usize>, n: nat)
    requires
        forall|i: int| 0 <= i < n ==> #[trigger] placed(order, order.len() as int, i),
    ensures
        order.len() >= n,
{
    let numbers = order.map_values(|v: usize| v as int);
    let all = vstd::set_lib::set_int_range(0, n as int);
    vstd::set_lib::lemma_int_range(0, n as int);
    assert forall|i: int| all.contains(i) implies numbers.to_set().contains(i) by {
        assert(placed(order, order.len() as int, i));
        let m = choose|m: int| 0 <= m < order.len() && #[trigger] order[m] == i;
        assert(numbers[m] == i);
    }
    numbers.lemma_cardinality_of_set();
    vstd::set_lib::lemma_len_subset(all, numbers.to_set());
}

// --- laws ---

/// Every feature is installed, and none twice.
pub proof fn law_order_is_permutation(features: Seq<ResolvedFeature>, order: Seq<usize>)
    requires
        is_install_order(features, order),
        features.len() <= usize::MAX,
    ensures
        forall|k: int, m: int|
            #![trigger order[k], order[m]]
            0 <= k < m < order.len() ==> order[k] != order[m],
        forall|i: int| 0 <= i < features.len() ==> order.contains(#[trigger] (i as usize)),
{
    let n = features.len();
    assert forall|k: int, m: int| #![trigger order[k], order[m]] 0 <= k < m < order.len() implies order[k]
        != order[m] by {
        assert(comes_next(features, order, m, order[m] as int));
        if order[k] == order[m] {
            assert(placed(order, m, order[m] as int));
        }
    }
    assert forall|k: int| 0 <= k < order.len() implies 0 <= #[trigger] order[k] < n by {
        assert(comes_next(features, order, k, order[k] as int));
    }
    // As many different places as there are features are all of them.
    let places = order.map_values(|i: usize| i as int);
    let all = set_int_range(0, n as int);
    places.unique_seq_to_set();
    lemma_int_range(0, n as int);
    assert(places.to_set().subset_of(all));
    lemma_subset_equality(places.to_set(), all);
    assert forall|i: int| 0 <= i < n implies order.contains(#[trigger] (i as usize)) by {
        assert(all.contains(i));
        let m = places.index_of(i);
        assert(order[m] == i as usize);
    }
}

/// Whether the rank of every feature is higher than the ranks of those that it asks to be
/// installed after. Such ranks exist exactly where the features do not ask for a cycle.
pub open spec fn is_ranking(features: Seq<ResolvedFeature>, rank: spec_fn(int) -> nat) -> bool {
    forall|i: int, j: int|
        0 <= i < features.len() && 0 <= j < features.len() && #[trigger] installs_after(
            features,
            i,
            j,
        ) ==> rank(j) < rank(i)
}

/// Where the features do not ask for a cycle, each one is installed after all that it asks to be
/// installed after.
pub proof fn law_prerequisites_come_first(
    features: Seq<ResolvedFeature>,
    order: Seq<usize>,
    rank: spec_fn(int) -> nat,
)
    requires
        is_install_order(features, order),
        is_ranking(features, rank),
    ensures
        forall|k: int, m: int|
            0 <= k < order.len() && 0 <= m < order.len() && #[trigger] installs_after(
                features,
                order[k] as int,
                order[m] as int,
            ) ==> m < k,
{
    assert forall|k: int, m: int|
        0 <= k < order.len() && 0 <= m < order.len() && #[trigger] installs_after(
            features,
            order[k] as int,
            order[m] as int,
        ) implies m < k by {
        let i = order[k] as int;
        assert(comes_next(features, order, k, i));
        assert(comes_next(features, order, m, order[m] as int));
        let h = lemma_some_ready(features, order, k, i, rank);
        assert(!placed(order, k, h));
        assert(is_ready(features, order, k, i));
        assert(placed(order, k, order[m] as int));
        let p = choose|p: int| 0 <= p < k && #[trigger] order[p] == order[m] as int;
        if p < m {
            assert(placed(order, m, order[m] as int));
        }
    }
}

/// Without a cycle, one of the features that are not placed yet is ready.
proof fn lemma_some_ready(
    features: Seq<ResolvedFeature>,
    order: Seq<usize>,
    k: int,
    i: int,
    rank: spec_fn(int) -> nat,
) -> (h: int)
    requires
        0 <= i < features.len(),
        !placed(order, k, i),
        is_ranking(features, rank),
    ensures
        0 <= h < features.len(),
        !placed(order, k, h),
        is_ready(features, order, k, h),
    decreases rank(i),
{
    if is_ready(features, order, k, i) {
        i
    } else {
        let j = choose|j: int|
            0 <= j < features.len() && #[trigger] installs_after(features, i, j) && !placed(
                order,
                k,
                j,
            );
        lemma_some_ready(features, order, k, j, rank)
    }
}

/// Where no feature asks to be installed after another, they are installed in the order in which
/// they are configured.
pub proof fn law_config_order(features: Seq<ResolvedFeature>, order: Seq<usize>, k: int)
    requires
        is_install_order(features, order),
        forall|i: int, j: int|
            0 <= i < features.len() && 0 <= j < features.len() ==> !#[trigger] installs_after(
                features,
                i,
                j,
            ),
        0 <= k < order.len(),
    ensures
        order[k] == k,
    decreases k,
{
    let i = order[k] as int;
    assert(comes_next(features, order, k, i));
    assert forall|m: int| 0 <= m < k implies order[m] == m by {
        law_config_order(features, order, m);
    }
    assert(!placed(order, k, k)) by {
        if placed(order, k, k) {
            let m = choose|m: int| 0 <= m < k && #[trigger] order[m] == k;
        }
    }
    assert(is_ready(features, order, k, i));
    assert(is_ready(features, order, k, k));
    if i < k {
        assert(order[i] == i);
        assert(placed(order, k, i));
    }
}

/// A feature that is installed before one that is configured before it did not have to wait, and
/// that one had to.
pub proof fn law_order_is_stable(
    features: Seq<ResolvedFeature>,
    order: Seq<usize>,
    k: int,
    m: int,
)
    requires
        is_install_order(features, order),
        0 <= k < m < order.len(),
        order[m] < order[k],
    ensures
        is_ready(features, order, k, order[k] as int),
        !is_ready(features, order, k, order[m] as int),
{
    let h = order[m] as int;
    assert(comes_next(features, order, k, order[k] as int));
    assert(comes_next(features, order, m, h));
    assert(!placed(order, k, h)) by {
        if placed(order, k, h) {
            let p = choose|p: int| 0 <= p < k && #[trigger] order[p] == h;
            assert(placed(order, m, h));
        }
    }
}

/// There is only one order of installation.
pub proof fn law_order_is_unique(
    features: Seq<ResolvedFeature>,
    a: Seq<usize>,
    b: Seq<usize>,
)
    requires
        is_install_order(features, a),
        is_install_order(features, b),
    ensures
        a == b,
{
    assert forall|k: int| 0 <= k < a.len() implies a[k] == b[k] by {
        lemma_same_place(features, a, b, k);
    }
    assert(a =~= b);
}

proof fn lemma_same_place(
    features: Seq<ResolvedFeature>,
    a: Seq<usize>,
    b: Seq<usize>,
    k: int,
)
    requires
        is_install_order(features, a),
        is_install_order(features, b),
        0 <= k < a.len(),
    ensures
        a[k] == b[k],
    decreases k,
{
    assert forall|m: int| 0 <= m < k implies a[m] == b[m] by {
        lemma_same_place(features, a, b, m);
    }
    let i = a[k] as int;
    let j = b[k] as int;
    assert(comes_next(features, a, k, i));
    assert(comes_next(features, b, k, j));
    lemma_same_beginning(features, a, b, k, i);
    if i < j {
        assert(!placed(b, k, i));
    } else if j < i {
        assert(!placed(b, k, j));
    }
}

/// The tag of an `installsAfter` entry does not matter.
pub proof fn law_entry_tag_ignored(
    ref_no_tag: Seq<char>,
    id: Option<Seq<char>>,
    name: Seq<char>,
    tag: Seq<char>,
)
    requires
        !name.contains(':'),
    ensures
        refers_to(ref_no_tag, id, name + ":"@ + tag) == refers_to(ref_no_tag, id, name),
{
    reveal_strlit(":");
    let entry = name + ":"@ + tag;
    assert(entry[name.len() as int] == ':');
    entry.index_of_first_ensures(':');
    name.index_of_first_ensures(':');
    let first = entry.index_of_first(':')->0;
    if first < name.len() {
        assert(entry[first] == name[first]);
        assert(name.contains(':'));
    }
    assert(entry.take(name.len() as int) =~= name);
}

/// A feature can be referred to by its full reference, by the last part of that, and by its id.
pub proof fn law_references(before: Seq<char>, name: Seq<char>, id: Option<Seq<char>>)
    requires
        !name.contains(':'),
    ensures
        refers_to(name, id, name),
        refers_to(before + "/"@ + name, id, name),
        refers_to(before, Some(name), name),
{
    reveal_strlit("/");
    name.index_of_first_ensures(':');
    let reference = before + "/"@ + name;
    assert(reference.skip(before.len() as int) =~= "/"@ + name);
}

/// An entry without a tag refers to a feature by nothing but its full reference, the end of that
/// behind a separator, or its id.
pub proof fn law_nothing_else_refers(
    ref_no_tag: Seq<char>,
    id: Option<Seq<char>>,
    name: Seq<char>,
)
    requires
        !name.contains(':'),
        refers_to(ref_no_tag, id, name),
    ensures
        ref_no_tag == name || id == Some(name) || exists|before: Seq<char>|
            ref_no_tag == #[trigger] (before + "/"@) + name,
{
    name.index_of_first_ensures(':');
    if ref_no_tag != name && id != Some(name) {
        let end = "/"@ + name;
        let before = ref_no_tag.take(ref_no_tag.len() - end.len());
        assert(ref_no_tag =~= before + end);
        assert(ref_no_tag =~= (before + "/"@) + name);
    }
}

/// A feature asks to be installed after another where any of its entries refers to that one, and
/// never after itself.
pub proof fn law_installs_after(features: Seq<ResolvedFeature>, i: int, j: int, k: int)
    requires
        0 <= k < features[i].metadata.installs_after@.len(),
    ensures
        i != j && refers_to(
            features[j].ref_no_tag@,
            opt_text(features[j].metadata.id),
            features[i].metadata.installs_after@[k]@,
        ) ==> installs_after(features, i, j),
        !installs_after(features, i, i),
{
}

/// Where none of its entries refers to another feature, a feature does not ask to be installed
/// after it.
pub proof fn law_does_not_install_after(features: Seq<ResolvedFeature>, i: int, j: int)
    requires
        forall|k: int|
            0 <= k < features[i].metadata.installs_after@.len() ==> !refers_to(
                features[j].ref_no_tag@,
                opt_text(features[j].metadata.id),
                (#[trigger] features[i].metadata.installs_after@[k])@,
            ),
    ensures
        !installs_after(features, i, j),
{
}

/// A feature that has to wait asks for one that is not installed yet; one that is ready does not.
pub proof fn law_ready(features: Seq<ResolvedFeature>, order: Seq<usize>, k: int, i: int)
    requires
        0 <= k <= order.len(),
    ensures
        is_ready(features, order, k, i) <==> forall|j: int|
            0 <= j < features.len() && #[trigger] installs_after(features, i, j) ==> exists|m: int|
                0 <= m < k && #[trigger] order[m] == j,
{
    if is_ready(features, order, k, i) {
        assert forall|j: int|
            0 <= j < features.len() && #[trigger] installs_after(features, i, j) implies exists|
            m: int,
        |
            0 <= m < k && #[trigger] order[m] == j by {
            assert(placed(order, k, j));
        }
    }
}

} // verus!
