//! The order in which instances are listed and balanced: by name, version,
//! internal ip and internal port, texts compared character by character.

use crate::instance::{InstanceView, ServiceInstance};
use crate::text::chars_of;
use vstd::prelude::*;

verus! {

/// Lexicographic "strictly before" on texts, by character code.
pub open spec fn text_less(a: Seq<char>, b: Seq<char>) -> bool
    decreases a.len(),
{
    if b.len() == 0 {
        false
    } else if a.len() == 0 {
        true
    } else if a[0] != b[0] {
        (a[0] as int) < (b[0] as int)
    } else {
        text_less(a.drop_first(), b.drop_first())
    }
}

/// Two instances have the same identity when name, version, ip and port agree.
pub open spec fn same_identity(a: InstanceView, b: InstanceView) -> bool {
    a.name == b.name && a.version == b.version && a.ip == b.ip && a.port == b.port
}

/// "Strictly before" on instances: by name, then version, then ip, then port.
pub open spec fn instance_less(a: InstanceView, b: InstanceView) -> bool {
    if a.name != b.name {
        text_less(a.name, b.name)
    } else if a.version != b.version {
        text_less(a.version, b.version)
    } else if a.ip != b.ip {
        text_less(a.ip, b.ip)
    } else {
        a.port < b.port
    }
}

/// Every element is strictly before every later one.
pub open spec fn strictly_sorted(s: Seq<InstanceView>) -> bool {
    forall|i: int, j: int| 0 <= i < j < s.len() ==> instance_less(#[trigger] s[i], #[trigger] s[j])
}

/// No two elements share an identity.
pub open spec fn distinct_identities(s: Seq<InstanceView>) -> bool {
    forall|i: int, j: int|
        0 <= i < s.len() && 0 <= j < s.len() && i != j ==> !same_identity(#[trigger] s[i], #[trigger] s[j])
}

/// The models of a sequence of instances.
pub open spec fn views_of(s: Seq<ServiceInstance>) -> Seq<InstanceView> {
    s.map_values(|x: ServiceInstance| x@)
}

/// How many members of `set` come strictly before `x`: its position in the
/// sorted order of `set`.
pub open spec fn rank(x: InstanceView, set: Set<InstanceView>) -> nat {
    set.filter(|y: InstanceView| instance_less(y, x)).len()
}

/// No text comes strictly before itself.
pub proof fn lemma_text_less_irreflexive(a: Seq<char>)
    ensures
        !text_less(a, a),
    decreases a.len(),
{
    if a.len() > 0 {
        lemma_text_less_irreflexive(a.drop_first());
    }
}

/// The text order is transitive.
pub proof fn lemma_text_less_transitive(a: Seq<char>, b: Seq<char>, c: Seq<char>)
    requires
        text_less(a, b),
        text_less(b, c),
    ensures
        text_less(a, c),
    decreases a.len(),
{
    if a.len() > 0 && b.len() > 0 && c.len() > 0 && a[0] == b[0] && b[0] == c[0] {
        lemma_text_less_transitive(a.drop_first(), b.drop_first(), c.drop_first());
    }
}

/// Of two different texts, one comes strictly before the other.
pub proof fn lemma_text_less_total(a: Seq<char>, b: Seq<char>)
    requires
        a != b,
    ensures
        text_less(a, b) || text_less(b, a),
    decreases a.len(),
{
    if a.len() > 0 && b.len() > 0 && a[0] == b[0] {
        if a.drop_first() == b.drop_first() {
            assert(a =~= seq![a[0]] + a.drop_first());
            assert(b =~= seq![b[0]] + b.drop_first());
        }
        lemma_text_less_total(a.drop_first(), b.drop_first());
    } else if a.len() == 0 && b.len() == 0 {
        assert(a =~= b);
    } else if a.len() > 0 && b.len() > 0 {
        assert((a[0] as int) != (b[0] as int));
    }
}

/// Two texts never come strictly before each other.
pub proof fn lemma_text_less_asymmetric(a: Seq<char>, b: Seq<char>)
    requires
        text_less(a, b),
    ensures
        !text_less(b, a),
{
    if text_less(b, a) {
        lemma_text_less_transitive(a, b, a);
        lemma_text_less_irreflexive(a);
    }
}

/// No instance comes strictly before itself.
pub proof fn lemma_instance_less_irreflexive(a: InstanceView)
    ensures
        !instance_less(a, a),
{
    lemma_text_less_irreflexive(a.name);
}

/// The instance order is transitive.
pub proof fn lemma_instance_less_transitive(a: InstanceView, b: InstanceView, c: InstanceView)
    requires
        instance_less(a, b),
        instance_less(b, c),
    ensures
        instance_less(a, c),
{
    if a.name != b.name {
        if b.name != c.name {
            lemma_text_less_transitive(a.name, b.name, c.name);
            if a.name == c.name {
                lemma_text_less_asymmetric(a.name, b.name);
            }
        }
    } else if b.name != c.name {
    } else if a.version != b.version {
        if b.version != c.version {
            lemma_text_less_transitive(a.version, b.version, c.version);
            if a.version == c.version {
                lemma_text_less_asymmetric(a.version, b.version);
            }
        }
    } else if b.version != c.version {
    } else if a.ip != b.ip {
        if b.ip != c.ip {
            lemma_text_less_transitive(a.ip, b.ip, c.ip);
            if a.ip == c.ip {
                lemma_text_less_asymmetric(a.ip, b.ip);
            }
        }
    }
}

/// Of two instances with different identities, one comes strictly before
/// the other.
pub proof fn lemma_instance_less_total(a: InstanceView, b: InstanceView)
    requires
        !same_identity(a, b),
    ensures
        instance_less(a, b) || instance_less(b, a),
{
    if a.name != b.name {
        lemma_text_less_total(a.name, b.name);
    } else if a.version != b.version {
        lemma_text_less_total(a.version, b.version);
    } else if a.ip != b.ip {
        lemma_text_less_total(a.ip, b.ip);
    }
}

/// Two instances never come strictly before each other.
pub proof fn lemma_instance_less_asymmetric(a: InstanceView, b: InstanceView)
    requires
        instance_less(a, b),
    ensures
        !instance_less(b, a),
        !same_identity(a, b),
{
    if instance_less(b, a) {
        lemma_instance_less_transitive(a, b, a);
        lemma_instance_less_irreflexive(a);
    }
    if same_identity(a, b) {
        lemma_instance_less_irreflexive(a);
    }
}

/// Whether text `a` comes strictly before text `b`.
fn text_precedes(a: &Vec<char>, b: &Vec<char>) -> (r: bool)
    ensures
        r == text_less(a@, b@),
{
    let mut i: usize = 0;
    assert(a@.skip(0) =~= a@);
    assert(b@.skip(0) =~= b@);
    while i < a.len() && i < b.len() && a[i] == b[i]
        invariant
            i <= a@.len(),
            i <= b@.len(),
            text_less(a@, b@) == text_less(a@.skip(i as int), b@.skip(i as int)),
        decreases a@.len() - i,
    {
        assert(a@.skip(i as int).drop_first() == a@.skip(i + 1));
        assert(b@.skip(i as int).drop_first() == b@.skip(i + 1));
        i = i + 1;
    }
    if i == b.len() {
        false
    } else if i == a.len() {
        true
    } else {
        a[i] < b[i]
    }
}

/// Whether instance `a` comes strictly before instance `b`.
pub fn instance_precedes(a: &ServiceInstance, b: &ServiceInstance) -> (r: bool)
    ensures
        r == instance_less(a@, b@),
{
    if a.name != b.name {
        return text_precedes(&chars_of(a.name.as_str()), &chars_of(b.name.as_str()));
    }
    if a.version != b.version {
        return text_precedes(&chars_of(a.version.as_str()), &chars_of(b.version.as_str()));
    }
    if a.ip != b.ip {
        return text_precedes(&chars_of(a.ip.as_str()), &chars_of(b.ip.as_str()));
    }
    a.port < b.port
}

proof fn lemma_sorted_insert(s: Seq<InstanceView>, p: int, x: InstanceView)
    requires
        strictly_sorted(s),
        0 <= p <= s.len(),
        forall|k: int| 0 <= k < p ==> instance_less(s[k], x),
        p < s.len() ==> instance_less(x, s[p]),
    ensures
        strictly_sorted(s.insert(p, x)),
{
    let t = s.insert(p, x);
    assert forall|i: int, j: int| 0 <= i < j < t.len() implies instance_less(#[trigger] t[i], #[trigger] t[j]) by {
        if i < p && j < p {
        } else if i < p && j == p {
        } else if i < p && j > p {
            assert(t[j] == s[j - 1]);
        } else if i == p {
            assert(t[j] == s[j - 1]);
            if j - 1 > p {
                lemma_instance_less_transitive(x, s[p], s[j - 1]);
            }
        } else {
            assert(t[i] == s[i - 1]);
            assert(t[j] == s[j - 1]);
        }
    }
}

/// The instances of `v`, sorted by identity.
pub(crate) fn sort_instances(v: Vec<ServiceInstance>) -> (out: Vec<ServiceInstance>)
    requires
        distinct_identities(views_of(v@)),
    ensures
        strictly_sorted(views_of(out@)),
        views_of(out@).to_set() == views_of(v@).to_set(),
        out@.len() == v@.len(),
{
    let mut out: Vec<ServiceInstance> = Vec::new();
    let n = v.len();
    let mut i: usize = 0;
    while i < n
        invariant
            n == v@.len(),
            i <= n,
            distinct_identities(views_of(v@)),
            strictly_sorted(views_of(out@)),
            views_of(out@).to_set() == views_of(v@).take(i as int).to_set(),
            out@.len() == i,
        decreases n - i,
    {
        let x = v[i].clone();
        let ghost xv = x@;
        let ghost before = views_of(out@);
        let mut p: usize = 0;
        while p < out.len() && !instance_precedes(&x, &out[p])
            invariant
                p <= out@.len(),
                x@ == xv,
                before == views_of(out@),
                forall|k: int| 0 <= k < p ==> !instance_less(xv, #[trigger] before[k]),
            decreases out@.len() - p,
        {
            p = p + 1;
        }
        proof {
            assert forall|k: int| 0 <= k < p implies instance_less(before[k], xv) by {
                assert(before.to_set().contains(before[k]));
                assert(views_of(v@).take(i as int).to_set().contains(before[k]));
                let j = choose|j: int| 0 <= j < i && views_of(v@).take(i as int)[j] == before[k];
                assert(views_of(v@)[j] == before[k]);
                assert(views_of(v@)[i as int] == xv);
                assert(!same_identity(views_of(v@)[j], views_of(v@)[i as int]));
                lemma_instance_less_total(before[k], xv);
            }
            lemma_sorted_insert(before, p as int, xv);
        }
        out.insert(p, x);
        proof {
            assert(views_of(out@) =~= before.insert(p as int, xv));
            let ti1 = views_of(v@).take(i + 1);
            let lhs = views_of(out@).to_set();
            let rhs = ti1.to_set();
            assert(views_of(v@).take(i + 1) =~= views_of(v@).take(i as int).push(xv));
            assert forall|y: InstanceView| lhs.contains(y) <==> rhs.contains(y) by {
                if lhs.contains(y) {
                    let k = choose|k: int| 0 <= k < views_of(out@).len() && views_of(out@)[k] == y;
                    if k == p {
                        assert(ti1[i as int] == y);
                    } else if k < p {
                        assert(before[k] == y);
                        assert(before.to_set().contains(y));
                        let j = choose|j: int| 0 <= j < i && views_of(v@).take(i as int)[j] == y;
                        assert(ti1[j] == y);
                    } else {
                        assert(before[k - 1] == y);
                        assert(before.to_set().contains(y));
                        let j = choose|j: int| 0 <= j < i && views_of(v@).take(i as int)[j] == y;
                        assert(ti1[j] == y);
                    }
                }
                if rhs.contains(y) {
                    let j = choose|j: int| 0 <= j < ti1.len() && ti1[j] == y;
                    if j == i {
                        assert(views_of(out@)[p as int] == y);
                    } else {
                        assert(views_of(v@).take(i as int)[j] == y);
                        assert(views_of(v@).take(i as int).to_set().contains(y));
                        assert(before.to_set().contains(y));
                        let k = choose|k: int| 0 <= k < before.len() && before[k] == y;
                        if k < p {
                            assert(views_of(out@)[k] == y);
                        } else {
                            assert(views_of(out@)[k + 1] == y);
                        }
                    }
                }
            }
            assert(lhs =~= rhs);
        }
        i = i + 1;
    }
    assert(views_of(v@).take(n as int) =~= views_of(v@));
    out
}

/// In a strictly sorted sequence, the element at position `i` has rank `i`
/// among the sequence's members.
pub proof fn lemma_sorted_rank(s: Seq<InstanceView>, i: int)
    requires
        strictly_sorted(s),
        0 <= i < s.len(),
    ensures
        rank(s[i], s.to_set()) == i,
{
    let x = s[i];
    let f = s.to_set().filter(|y: InstanceView| instance_less(y, x));
    let t = s.take(i);
    assert forall|y: InstanceView| f.contains(y) <==> t.to_set().contains(y) by {
        if f.contains(y) {
            let k = choose|k: int| 0 <= k < s.len() && s[k] == y;
            if k >= i {
                if k == i {
                    lemma_instance_less_irreflexive(x);
                } else {
                    lemma_instance_less_asymmetric(x, y);
                }
            }
            assert(t[k] == y);
        }
        if t.to_set().contains(y) {
            let k = choose|k: int| 0 <= k < t.len() && t[k] == y;
            assert(s[k] == y);
        }
    }
    assert(f =~= t.to_set());
    lemma_sorted_no_duplicates(t);
    t.unique_seq_to_set();
}

/// A strictly sorted sequence has no duplicates.
pub proof fn lemma_sorted_no_duplicates(s: Seq<InstanceView>)
    requires
        strictly_sorted(s),
    ensures
        s.no_duplicates(),
{
    assert forall|i: int, j: int| 0 <= i < s.len() && 0 <= j < s.len() && i != j implies s[i] != s[j] by {
        if i < j {
            assert(instance_less(s[i], s[j]));
            lemma_instance_less_irreflexive(s[i]);
        } else {
            assert(instance_less(s[j], s[i]));
            lemma_instance_less_irreflexive(s[i]);
        }
    }
}

/// In a finite set, a member's rank is below the set's size.
pub proof fn lemma_rank_bound(set: Set<InstanceView>, x: InstanceView)
    requires
        set.finite(),
        set.contains(x),
    ensures
        rank(x, set) < set.len(),
{
    let f = set.filter(|y: InstanceView| instance_less(y, x));
    set.lemma_len_filter(|y: InstanceView| instance_less(y, x));
    lemma_instance_less_irreflexive(x);
    f.lemma_subset_not_in_lt(set, x);
}

/// A member strictly before another has a strictly smaller rank.
proof fn lemma_rank_less(set: Set<InstanceView>, x: InstanceView, y: InstanceView)
    requires
        set.finite(),
        set.contains(x),
        instance_less(x, y),
    ensures
        rank(x, set) < rank(y, set),
{
    let fx = set.filter(|z: InstanceView| instance_less(z, x));
    let fy = set.filter(|z: InstanceView| instance_less(z, y));
    set.lemma_len_filter(|z: InstanceView| instance_less(z, y));
    assert forall|z: InstanceView| fx.contains(z) implies fy.contains(z) by {
        lemma_instance_less_transitive(z, x, y);
    }
    lemma_instance_less_irreflexive(x);
    fx.lemma_subset_not_in_lt(fy, x);
}

/// Members of a finite set with different identities have different ranks.
pub proof fn lemma_rank_injective(set: Set<InstanceView>, x: InstanceView, y: InstanceView)
    requires
        set.finite(),
        set.contains(x),
        set.contains(y),
        !same_identity(x, y),
    ensures
        rank(x, set) != rank(y, set),
{
    lemma_instance_less_total(x, y);
    if instance_less(x, y) {
        lemma_rank_less(set, x, y);
    } else {
        lemma_rank_less(set, y, x);
    }
}

} // verus!
