//! Last-write-wins resolution: a total order on versions and the choice of
//! its greatest element.

use core::cmp::Ordering;
use vstd::prelude::*;
use crate::order::{
    lemma_str_lt_asymmetric, lemma_str_lt_irreflexive, lemma_str_lt_total,
    lemma_str_lt_transitive, str_less, str_lt,
};
use crate::version::ClientVersion;

verus! {

/// `a` loses to `b`: it has the earlier timestamp; or the same timestamp and
/// the larger writer id; or the same timestamp and writer id and the smaller
/// value. Strings compare by their UTF-8 bytes.
pub open spec fn loses_to(a: ClientVersion, b: ClientVersion) -> bool {
    ||| a.timestamp < b.timestamp
    ||| a.timestamp == b.timestamp && str_lt(b.writer_node_id@, a.writer_node_id@)
    ||| a.timestamp == b.timestamp && a.writer_node_id@ == b.writer_node_id@ && str_lt(
        a.value@,
        b.value@,
    )
}

/// `a` and `b` agree on every field that resolution compares.
pub open spec fn same_rank(a: ClientVersion, b: ClientVersion) -> bool {
    &&& a.timestamp == b.timestamp
    &&& a.writer_node_id@ == b.writer_node_id@
    &&& a.value@ == b.value@
}

/// `vs[i]` is the winner: no version beats it, and every later version loses
/// to it (of versions that rank alike, the last one wins).
pub open spec fn is_winner_at(vs: Seq<ClientVersion>, i: int) -> bool {
    &&& 0 <= i < vs.len()
    &&& forall|j: int| 0 <= j < vs.len() ==> !#[trigger] loses_to(vs[i], vs[j])
    &&& forall|j: int| i < j < vs.len() ==> #[trigger] loses_to(vs[j], vs[i])
}

/// The version that last-write-wins resolution picks, `None` for no versions.
pub open spec fn lww_resolve(vs: Seq<ClientVersion>) -> Option<ClientVersion> {
    if exists|i: int| is_winner_at(vs, i) {
        Some(vs[choose|i: int| is_winner_at(vs, i)])
    } else {
        None
    }
}

/// Versions that rank alike are identical.
pub open spec fn ranks_identify(vs: Seq<ClientVersion>) -> bool {
    forall|i: int, j: int|
        0 <= i < vs.len() && 0 <= j < vs.len() && same_rank(vs[i], vs[j]) ==> vs[i] == vs[j]
}

proof fn lemma_str_lt_transitive_all()
    ensures
        forall|a: Seq<char>, b: Seq<char>, c: Seq<char>|
            #![trigger str_lt(a, b), str_lt(b, c)]
            str_lt(a, b) && str_lt(b, c) ==> str_lt(a, c),
{
    assert forall|a: Seq<char>, b: Seq<char>, c: Seq<char>|
        str_lt(a, b) && str_lt(b, c) implies str_lt(a, c) by {
        lemma_str_lt_transitive(a, b, c);
    }
}

/// No version loses to itself.
pub proof fn lemma_loses_to_irreflexive(a: ClientVersion)
    ensures
        !loses_to(a, a),
{
    lemma_str_lt_irreflexive(a.writer_node_id@);
    lemma_str_lt_irreflexive(a.value@);
}

/// Of two versions at most one loses to the other.
pub proof fn lemma_loses_to_asymmetric(a: ClientVersion, b: ClientVersion)
    ensures
        !(loses_to(a, b) && loses_to(b, a)),
{
    lemma_str_lt_asymmetric(a.writer_node_id@, b.writer_node_id@);
    lemma_str_lt_asymmetric(a.value@, b.value@);
    lemma_str_lt_irreflexive(a.writer_node_id@);
}

/// Two versions of which neither loses to the other rank alike.
pub proof fn lemma_loses_to_total(a: ClientVersion, b: ClientVersion)
    ensures
        loses_to(a, b) || loses_to(b, a) || same_rank(a, b),
{
    lemma_str_lt_total(a.writer_node_id@, b.writer_node_id@);
    lemma_str_lt_total(a.value@, b.value@);
}

/// Whenever `a` loses to `c`, any `b` lies above `a` or below `c`.
pub proof fn lemma_loses_to_split(a: ClientVersion, b: ClientVersion, c: ClientVersion)
    requires
        loses_to(a, c),
    ensures
        loses_to(a, b) || loses_to(b, c),
{
    lemma_str_lt_transitive_all();
    lemma_str_lt_total(a.writer_node_id@, b.writer_node_id@);
    lemma_str_lt_total(b.writer_node_id@, c.writer_node_id@);
    lemma_str_lt_total(a.value@, b.value@);
    lemma_str_lt_total(b.value@, c.value@);
}

proof fn lemma_winner_unique(vs: Seq<ClientVersion>, i: int, k: int)
    requires
        is_winner_at(vs, i),
        is_winner_at(vs, k),
    ensures
        i == k,
{
    if i < k {
        assert(loses_to(vs[k], vs[i]));
    } else if k < i {
        assert(loses_to(vs[i], vs[k]));
    }
}

proof fn lemma_winner_exists(vs: Seq<ClientVersion>)
    requires
        vs.len() > 0,
    ensures
        exists|i: int| is_winner_at(vs, i),
    decreases vs.len(),
{
    let last = vs.len() - 1;
    if last == 0 {
        lemma_loses_to_irreflexive(vs[0]);
        assert(is_winner_at(vs, 0));
    } else {
        let init = vs.drop_last();
        lemma_winner_exists(init);
        let i = choose|i: int| is_winner_at(init, i);
        assert(forall|j: int| 0 <= j < init.len() ==> init[j] == vs[j]);
        if loses_to(vs[last], vs[i]) {
            lemma_loses_to_asymmetric(vs[last], vs[i]);
            assert forall|j: int| 0 <= j < vs.len() implies !#[trigger] loses_to(vs[i], vs[j]) by {
                if j < last {
                    assert(!loses_to(init[i], init[j]));
                }
            }
            assert forall|j: int| i < j < vs.len() implies #[trigger] loses_to(vs[j], vs[i]) by {
                if j < last {
                    assert(loses_to(init[j], init[i]));
                }
            }
            assert(is_winner_at(vs, i));
        } else {
            assert forall|j: int| 0 <= j < vs.len() implies !#[trigger] loses_to(
                vs[last],
                vs[j],
            ) by {
                if j < last {
                    assert(!loses_to(init[i], init[j]));
                    if loses_to(vs[last], vs[j]) {
                        lemma_loses_to_split(vs[last], vs[i], vs[j]);
                    }
                } else {
                    lemma_loses_to_irreflexive(vs[last]);
                }
            }
            assert(is_winner_at(vs, last));
        }
    }
}

proof fn lemma_resolve_at(vs: Seq<ClientVersion>, i: int)
    requires
        is_winner_at(vs, i),
    ensures
        lww_resolve(vs) == Some(vs[i]),
{
    let k = choose|k: int| is_winner_at(vs, k);
    lemma_winner_unique(vs, i, k);
}

/// Resolution gives a version exactly when there is at least one.
pub proof fn law_resolve_total(vs: Seq<ClientVersion>)
    ensures
        lww_resolve(vs) is None <==> vs.len() == 0,
{
    if vs.len() > 0 {
        lemma_winner_exists(vs);
    }
}

/// Resolution does not depend on the order of the versions: two orderings of
/// one multiset of versions give winners that rank alike, and the very same
/// winner where versions that rank alike are identical.
pub proof fn law_resolve_order_independent(a: Seq<ClientVersion>, b: Seq<ClientVersion>)
    requires
        a.to_multiset() == b.to_multiset(),
    ensures
        lww_resolve(a) is None <==> lww_resolve(b) is None,
        lww_resolve(a) is Some ==> same_rank(lww_resolve(a).unwrap(), lww_resolve(b).unwrap()),
        ranks_identify(a) ==> lww_resolve(a) == lww_resolve(b),
{
    a.to_multiset_ensures();
    b.to_multiset_ensures();
    law_resolve_total(a);
    law_resolve_total(b);
    if a.len() > 0 {
        lemma_winner_exists(a);
        lemma_winner_exists(b);
        let ia = choose|i: int| is_winner_at(a, i);
        let ib = choose|i: int| is_winner_at(b, i);
        assert(a.contains(a[ia]));
        assert(b.contains(b[ib]));
        assert(a.to_multiset().count(a[ia]) > 0);
        assert(b.to_multiset().count(b[ib]) > 0);
        assert(b.contains(a[ia]));
        assert(a.contains(b[ib]));
        let ka = choose|k: int| 0 <= k < b.len() && b[k] == a[ia];
        let kb = choose|k: int| 0 <= k < a.len() && a[k] == b[ib];
        assert(!loses_to(a[ia], a[kb]));
        assert(!loses_to(b[ib], b[ka]));
        lemma_loses_to_total(a[ia], b[ib]);
        if ranks_identify(a) {
            assert(same_rank(a[ia], a[kb]));
        }
    }
}

/// Resolving the winner alone gives the winner again.
pub proof fn law_resolve_idempotent(vs: Seq<ClientVersion>)
    requires
        vs.len() > 0,
    ensures
        lww_resolve(seq![lww_resolve(vs).unwrap()]) == lww_resolve(vs),
{
    law_resolve_total(vs);
    let w = lww_resolve(vs).unwrap();
    let single = seq![w];
    lemma_loses_to_irreflexive(w);
    assert(is_winner_at(single, 0));
    lemma_resolve_at(single, 0);
}

proof fn lemma_pair_winner(v1: ClientVersion, v2: ClientVersion)
    requires
        loses_to(v2, v1),
    ensures
        lww_resolve(seq![v1, v2]) == Some(v1),
        lww_resolve(seq![v2, v1]) == Some(v1),
{
    lemma_loses_to_irreflexive(v1);
    lemma_loses_to_asymmetric(v1, v2);
    let s12 = seq![v1, v2];
    let s21 = seq![v2, v1];
    assert(is_winner_at(s12, 0));
    assert(is_winner_at(s21, 1));
    lemma_resolve_at(s12, 0);
    lemma_resolve_at(s21, 1);
}

/// Of two versions, the one with the later timestamp wins, whatever their
/// writer ids and values, in either order.
pub proof fn law_later_timestamp_wins(v1: ClientVersion, v2: ClientVersion)
    requires
        v1.timestamp > v2.timestamp,
    ensures
        lww_resolve(seq![v1, v2]) == Some(v1),
        lww_resolve(seq![v2, v1]) == Some(v1),
{
    lemma_pair_winner(v1, v2);
}

/// Of two versions with one timestamp, the one with the smaller writer id
/// wins, in either order.
pub proof fn law_smaller_writer_wins(v1: ClientVersion, v2: ClientVersion)
    requires
        v1.timestamp == v2.timestamp,
        str_lt(v1.writer_node_id@, v2.writer_node_id@),
    ensures
        lww_resolve(seq![v1, v2]) == Some(v1),
        lww_resolve(seq![v2, v1]) == Some(v1),
{
    lemma_pair_winner(v1, v2);
}

/// Of two versions with one timestamp and one writer id, the one with the
/// larger value wins, in either order.
pub proof fn law_larger_value_wins(v1: ClientVersion, v2: ClientVersion)
    requires
        v1.timestamp == v2.timestamp,
        v1.writer_node_id@ == v2.writer_node_id@,
        str_lt(v2.value@, v1.value@),
    ensures
        lww_resolve(seq![v1, v2]) == Some(v1),
        lww_resolve(seq![v2, v1]) == Some(v1),
{
    lemma_pair_winner(v1, v2);
}

/// Compares two versions in resolution order: `Less` when `a` loses to `b`,
/// `Greater` when `b` loses to `a`, `Equal` when they rank alike.
pub fn compare_lww(a: &ClientVersion, b: &ClientVersion) -> (r: Ordering)
    ensures
        (r == Ordering::Less) == loses_to(*a, *b),
        (r == Ordering::Greater) == loses_to(*b, *a),
        (r == Ordering::Equal) == same_rank(*a, *b),
{
    proof {
        lemma_loses_to_asymmetric(*a, *b);
        lemma_loses_to_total(*a, *b);
        lemma_loses_to_irreflexive(*a);
    }
    if a.timestamp < b.timestamp {
        return Ordering::Less;
    }
    if a.timestamp > b.timestamp {
        return Ordering::Greater;
    }
    let aw: &str = a.writer_node_id.as_str();
    let bw: &str = b.writer_node_id.as_str();
    if str_less(bw, aw) {
        return Ordering::Less;
    }
    if str_less(aw, bw) {
        return Ordering::Greater;
    }
    proof {
        lemma_str_lt_total(aw@, bw@);
    }
    let av: &str = a.value.as_str();
    let bv: &str = b.value.as_str();
    if str_less(av, bv) {
        return Ordering::Less;
    }
    if str_less(bv, av) {
        return Ordering::Greater;
    }
    proof {
        lemma_str_lt_total(av@, bv@);
    }
    Ordering::Equal
}

/// Picks the winning version by last-write-wins: the latest timestamp; on a
/// tie the smallest writer id; on a further tie the largest value. Of versions
/// that rank alike the last one wins. `None` when there are no versions.
pub fn resolve_lww_client(versions: Vec<ClientVersion>) -> (r: Option<ClientVersion>)
    ensures
        r == lww_resolve(versions@),
        r is None <==> versions@.len() == 0,
        r matches Some(w) ==> versions@.contains(w) && forall|j: int|
            0 <= j < versions@.len() ==> !#[trigger] loses_to(w, versions@[j]),
{
    let mut versions = versions;
    let ghost input = versions@;
    let n: usize = versions.len();
    if n == 0 {
        proof {
            if exists|i: int| is_winner_at(input, i) {
                let i = choose|i: int| is_winner_at(input, i);
                assert(false);
            }
        }
        return None;
    }
    let mut best: usize = 0;
    let mut i: usize = 1;
    proof {
        lemma_loses_to_irreflexive(versions@[0]);
    }
    while i < n
        invariant
            versions@ == input,
            n == input.len(),
            best < i <= n,
            forall|j: int| 0 <= j < i ==> !#[trigger] loses_to(input[best as int], input[j]),
            forall|j: int| best < j < i ==> #[trigger] loses_to(input[j], input[best as int]),
        decreases n - i,
    {
        let ord = compare_lww(&versions[i], &versions[best]);
        if matches!(ord, Ordering::Less) {
            proof {
                lemma_loses_to_asymmetric(input[i as int], input[best as int]);
            }
        } else {
            proof {
                let b = best as int;
                assert forall|j: int| 0 <= j < i + 1 implies !#[trigger] loses_to(
                    input[i as int],
                    input[j],
                ) by {
                    if j == i {
                        lemma_loses_to_irreflexive(input[j]);
                    } else if loses_to(input[i as int], input[j]) {
                        lemma_loses_to_split(input[i as int], input[b], input[j]);
                    }
                }
            }
            best = i;
        }
        i = i + 1;
    }
    proof {
        assert(is_winner_at(input, best as int));
        lemma_resolve_at(input, best as int);
    }
    let w = versions.swap_remove(best);
    Some(w)
}

} // verus!
