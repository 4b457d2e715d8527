//! Request parameters and their canonical form.

use crate::oauth::encode::{
    free_of, is_encoded_text, lemma_encoded_text_free_of_separators, lemma_percent_encode_alphabet,
    lemma_percent_encode_injective, lemma_split_at_first, lemma_split_at_last, percent_encode,
    percent_encode_bytes,
};
use crate::oauth::order::{
    bytes_le, le_bytes, lemma_bytes_le_antisymmetric, lemma_bytes_le_total,
    lemma_bytes_le_transitive, lemma_pair_order_total, pair_order,
};
use vstd::prelude::*;
use vstd::relations::*;
use vstd::string::StringSliceAdditionalSpecFns;

verus! {

/// The parameters as byte strings, in the order given.
pub open spec fn param_bytes(params: Seq<(&str, &str)>) -> Seq<(Seq<u8>, Seq<u8>)> {
    Seq::new(params.len(), |i: int| (params[i].0.spec_bytes(), params[i].1.spec_bytes()))
}

/// The mapping from name to value that a list of parameters stands for.
/// Where a name occurs more than once, its last value counts.
pub open spec fn param_map(params: Seq<(Seq<u8>, Seq<u8>)>) -> Map<Seq<u8>, Seq<u8>>
    decreases params.len(),
{
    if params.len() == 0 {
        Map::empty()
    } else {
        param_map(params.drop_last()).insert(params.last().0, params.last().1)
    }
}

/// The encoded name and value of the parameter called `name`.
pub open spec fn encoded_pair(m: Map<Seq<u8>, Seq<u8>>, name: Seq<u8>) -> (Seq<u8>, Seq<u8>) {
    (percent_encode(name), percent_encode(m[name]))
}

/// Every parameter of `m`, name and value percent-encoded on their own.
pub open spec fn encoded_pairs(m: Map<Seq<u8>, Seq<u8>>) -> Set<(Seq<u8>, Seq<u8>)> {
    m.dom().map(|name: Seq<u8>| encoded_pair(m, name))
}

/// The encoded parameters in signing order: ascending by encoded name, then
/// by encoded value, compared byte by byte.
pub open spec fn canonical_pairs(m: Map<Seq<u8>, Seq<u8>>) -> Seq<(Seq<u8>, Seq<u8>)> {
    encoded_pairs(m).to_sorted_seq(pair_order())
}

/// `name=value`.
pub open spec fn pair_text(p: (Seq<u8>, Seq<u8>)) -> Seq<u8> {
    p.0 + seq![0x3Du8] + p.1
}

/// The pairs written as `name=value` and joined by `&`.
pub open spec fn join_pairs(pairs: Seq<(Seq<u8>, Seq<u8>)>) -> Seq<u8>
    decreases pairs.len(),
{
    if pairs.len() == 0 {
        Seq::empty()
    } else if pairs.len() == 1 {
        pair_text(pairs[0])
    } else {
        join_pairs(pairs.drop_last()) + seq![0x26u8] + pair_text(pairs.last())
    }
}

/// The normalized parameter string of `m`.
pub open spec fn normalized_params(m: Map<Seq<u8>, Seq<u8>>) -> Seq<u8> {
    join_pairs(canonical_pairs(m))
}

/// Names strictly ascending: sorted, and no name twice.
pub open spec fn names_ascending(s: Seq<(Seq<u8>, Seq<u8>)>) -> bool {
    forall|i: int, j: int|
        0 <= i < j < s.len() ==> (#[trigger] s[i]).0 != (#[trigger] s[j]).0 && bytes_le(
            s[i].0,
            s[j].0,
        )
}

/// The list of parameters has a finite mapping.
pub proof fn lemma_param_map_finite(params: Seq<(Seq<u8>, Seq<u8>)>)
    ensures
        param_map(params).dom().finite(),
    decreases params.len(),
{
    if params.len() > 0 {
        lemma_param_map_finite(params.drop_last());
    }
}

/// A set's arbitrary enumeration lists each element once.
proof fn lemma_to_seq_distinct<A>(s: Set<A>)
    requires
        s.finite(),
    ensures
        s.to_seq().no_duplicates(),
        s.to_seq().to_set() == s,
    decreases s.len(),
{
    broadcast use vstd::set::group_set_axioms;

    s.lemma_to_seq_to_set_id();
    if s.len() > 0 {
        let x = s.choose();
        let rest = s.remove(x).to_seq();
        lemma_to_seq_distinct(s.remove(x));
        assert(s.to_seq() =~= Seq::<A>::empty().push(x) + rest);
        assert(!rest.contains(x)) by {
            if rest.contains(x) {
                assert(rest.to_set().contains(x));
            }
        }
        assert forall|i: int, j: int|
            0 <= i < s.to_seq().len() && 0 <= j < s.to_seq().len() && i != j implies s.to_seq()[i]
            != s.to_seq()[j] by {
            if i == 0 {
                assert(rest.contains(rest[j - 1]));
            } else if j == 0 {
                assert(rest.contains(rest[i - 1]));
            } else {
                assert(rest[i - 1] != rest[j - 1]);
            }
        }
    }
}

/// Two duplicate-free sequences with the same elements are the same multiset.
proof fn lemma_distinct_same_elements<A>(a: Seq<A>, b: Seq<A>)
    requires
        a.no_duplicates(),
        b.no_duplicates(),
        a.to_set() == b.to_set(),
    ensures
        a.to_multiset() == b.to_multiset(),
{
    broadcast use vstd::seq_lib::group_to_multiset_ensures;

    a.lemma_multiset_has_no_duplicates();
    b.lemma_multiset_has_no_duplicates();
    assert forall|x: A| a.to_multiset().count(x) == b.to_multiset().count(x) by {
        assert(a.contains(x) <==> a.to_set().contains(x));
        assert(b.contains(x) <==> b.to_set().contains(x));
        assert(a.contains(x) <==> a.to_multiset().count(x) > 0);
        assert(b.contains(x) <==> b.to_multiset().count(x) > 0);
    }
    assert(a.to_multiset() =~= b.to_multiset());
}

/// A sorted, duplicate-free sequence that holds exactly the elements of a
/// set is the set's sorted sequence.
proof fn lemma_sorted_seq_of_set<A>(set: Set<A>, s: Seq<A>, leq: spec_fn(A, A) -> bool)
    requires
        set.finite(),
        total_ordering(leq),
        sorted_by(s, leq),
        s.no_duplicates(),
        s.to_set() == set,
    ensures
        set.to_sorted_seq(leq) == s,
{
    let t = set.to_seq();
    lemma_to_seq_distinct(set);
    t.lemma_sort_by_ensures(leq);
    lemma_distinct_same_elements(s, t);
    vstd::seq_lib::lemma_sorted_unique(s, t.sort_by(leq), leq);
}

/// The signing order is the one sequence that lists the encoded parameters
/// of `m` with names strictly ascending.
pub proof fn lemma_canonical_pairs_unique(m: Map<Seq<u8>, Seq<u8>>, s: Seq<(Seq<u8>, Seq<u8>)>)
    requires
        m.dom().finite(),
        names_ascending(s),
        s.to_set() == encoded_pairs(m),
    ensures
        canonical_pairs(m) == s,
{
    lemma_pair_order_total();
    m.dom().lemma_map_finite(|name: Seq<u8>| encoded_pair(m, name));
    assert forall|i: int, j: int| 0 <= i < j < s.len() implies #[trigger] pair_order()(
        s[i],
        s[j],
    ) by {
        assert(s[i].0 != s[j].0 && bytes_le(s[i].0, s[j].0));
    }
    assert forall|i: int, j: int| 0 <= i < s.len() && 0 <= j < s.len() && i != j implies s[i]
        != s[j] by {
        if i < j {
            assert(s[i].0 != s[j].0);
        } else {
            assert(s[j].0 != s[i].0);
        }
    }
    lemma_sorted_seq_of_set(encoded_pairs(m), s, pair_order());
}

/// No name occurs twice in the list.
pub open spec fn distinct_names(params: Seq<(Seq<u8>, Seq<u8>)>) -> bool {
    forall|i: int, j: int|
        0 <= i < j < params.len() ==> (#[trigger] params[i]).0 != (#[trigger] params[j]).0
}

/// The names of the mapping are the names in the list.
pub proof fn lemma_param_map_names(params: Seq<(Seq<u8>, Seq<u8>)>, name: Seq<u8>)
    ensures
        param_map(params).dom().contains(name) <==> exists|i: int|
            0 <= i < params.len() && (#[trigger] params[i]).0 == name,
    decreases params.len(),
{
    if params.len() > 0 {
        let rest = params.drop_last();
        lemma_param_map_names(rest, name);
        if param_map(params).dom().contains(name) {
            if params.last().0 == name {
                assert(params[params.len() - 1].0 == name);
            } else {
                let i = choose|i: int| 0 <= i < rest.len() && (#[trigger] rest[i]).0 == name;
                assert(params[i].0 == name);
            }
        }
        if exists|i: int| 0 <= i < params.len() && (#[trigger] params[i]).0 == name {
            let i = choose|i: int| 0 <= i < params.len() && (#[trigger] params[i]).0 == name;
            if i < rest.len() {
                assert(rest[i].0 == name);
            }
        }
    }
}

/// Where no name occurs twice, every parameter of the list has its value in
/// the mapping.
pub proof fn lemma_param_map_value(params: Seq<(Seq<u8>, Seq<u8>)>, i: int)
    requires
        distinct_names(params),
        0 <= i < params.len(),
    ensures
        param_map(params).dom().contains(params[i].0),
        param_map(params)[params[i].0] == params[i].1,
    decreases params.len(),
{
    let rest = params.drop_last();
    if i < params.len() - 1 {
        assert forall|a: int, b: int| 0 <= a < b < rest.len() implies (#[trigger] rest[a]).0 != (
        #[trigger] rest[b]).0 by {
            assert(params[a].0 != params[b].0);
        }
        lemma_param_map_value(rest, i);
        assert(params[i].0 != params[params.len() - 1].0);
        assert(rest[i] == params[i]);
    }
}

/// The order in which the parameters are given does not matter: two lists
/// that hold the same parameters, each name once, stand for the same
/// mapping and so have the same normalized parameter string.
pub proof fn lemma_order_of_params_is_immaterial(
    params: Seq<(Seq<u8>, Seq<u8>)>,
    reordered: Seq<(Seq<u8>, Seq<u8>)>,
)
    requires
        distinct_names(params),
        distinct_names(reordered),
        params.to_set() == reordered.to_set(),
    ensures
        param_map(params) == param_map(reordered),
        normalized_params(param_map(params)) == normalized_params(param_map(reordered)),
{
    let m1 = param_map(params);
    let m2 = param_map(reordered);
    assert forall|k: Seq<u8>| m1.dom().contains(k) == m2.dom().contains(k) by {
        lemma_param_map_names(params, k);
        lemma_param_map_names(reordered, k);
        if m1.dom().contains(k) {
            let i = choose|i: int| 0 <= i < params.len() && (#[trigger] params[i]).0 == k;
            assert(params.to_set().contains(params[i]));
            assert(reordered.contains(params[i]));
            let j = choose|j: int| 0 <= j < reordered.len() && reordered[j] == params[i];
            assert(reordered[j].0 == k);
        }
        if m2.dom().contains(k) {
            let i = choose|i: int| 0 <= i < reordered.len() && (#[trigger] reordered[i]).0 == k;
            assert(reordered.to_set().contains(reordered[i]));
            assert(params.contains(reordered[i]));
            let j = choose|j: int| 0 <= j < params.len() && params[j] == reordered[i];
            assert(params[j].0 == k);
        }
    }
    assert(m1.dom() =~= m2.dom());
    assert forall|k: Seq<u8>| m1.dom().contains(k) implies #[trigger] m1[k] == m2[k] by {
        lemma_param_map_names(params, k);
        let i = choose|i: int| 0 <= i < params.len() && (#[trigger] params[i]).0 == k;
        assert(params.to_set().contains(params[i]));
        assert(reordered.contains(params[i]));
        let j = choose|j: int| 0 <= j < reordered.len() && reordered[j] == params[i];
        lemma_param_map_value(params, i);
        lemma_param_map_value(reordered, j);
    }
    assert(m1 =~= m2);
}

/// Both parts of every pair are encoded text.
pub open spec fn all_encoded(pairs: Seq<(Seq<u8>, Seq<u8>)>) -> bool {
    forall|i: int|
        0 <= i < pairs.len() ==> is_encoded_text((#[trigger] pairs[i]).0) && is_encoded_text(
            pairs[i].1,
        )
}

/// `name=value` of an encoded pair holds its `=` and no `&`.
proof fn lemma_pair_text_shape(p: (Seq<u8>, Seq<u8>))
    requires
        is_encoded_text(p.0),
        is_encoded_text(p.1),
    ensures
        free_of(pair_text(p), 0x26),
        pair_text(p).len() > 0,
{
    lemma_encoded_text_free_of_separators(p.0);
    lemma_encoded_text_free_of_separators(p.1);
    let t = pair_text(p);
    assert forall|i: int| 0 <= i < t.len() implies #[trigger] t[i] != 0x26 by {
        if i < p.0.len() {
            assert(t[i] == p.0[i]);
        } else if i > p.0.len() {
            assert(t[i] == p.1[i - p.0.len() - 1]);
        }
    }
}

/// An encoded pair can be read back from its text.
proof fn lemma_pair_text_injective(p: (Seq<u8>, Seq<u8>), q: (Seq<u8>, Seq<u8>))
    requires
        is_encoded_text(p.0),
        is_encoded_text(q.0),
        pair_text(p) == pair_text(q),
    ensures
        p == q,
{
    lemma_encoded_text_free_of_separators(p.0);
    lemma_encoded_text_free_of_separators(q.0);
    lemma_split_at_first(p.0, p.1, q.0, q.1, 0x3D);
}

/// A list of encoded pairs can be read back from its joined text.
pub proof fn lemma_join_pairs_injective(ps: Seq<(Seq<u8>, Seq<u8>)>, qs: Seq<(Seq<u8>, Seq<u8>)>)
    requires
        all_encoded(ps),
        all_encoded(qs),
        join_pairs(ps) == join_pairs(qs),
    ensures
        ps == qs,
    decreases ps.len() + qs.len(),
{
    if ps.len() == 0 || qs.len() == 0 {
        if ps.len() > 0 {
            lemma_join_pairs_nonempty(ps);
        }
        if qs.len() > 0 {
            lemma_join_pairs_nonempty(qs);
        }
        assert(ps =~= qs);
    } else if ps.len() == 1 && qs.len() == 1 {
        lemma_pair_text_injective(ps[0], qs[0]);
        assert(ps =~= qs);
    } else if ps.len() == 1 {
        lemma_pair_text_shape(ps[0]);
        lemma_join_pairs_has_separator(qs);
    } else if qs.len() == 1 {
        lemma_pair_text_shape(qs[0]);
        lemma_join_pairs_has_separator(ps);
    } else {
        lemma_pair_text_shape(ps.last());
        lemma_pair_text_shape(qs.last());
        lemma_split_at_last(
            join_pairs(ps.drop_last()),
            pair_text(ps.last()),
            join_pairs(qs.drop_last()),
            pair_text(qs.last()),
            0x26,
        );
        lemma_pair_text_injective(ps.last(), qs.last());
        lemma_join_pairs_injective(ps.drop_last(), qs.drop_last());
        assert(ps =~= ps.drop_last().push(ps.last()));
        assert(qs =~= qs.drop_last().push(qs.last()));
    }
}

/// The text of one pair or more is not empty.
proof fn lemma_join_pairs_nonempty(ps: Seq<(Seq<u8>, Seq<u8>)>)
    requires
        ps.len() > 0,
    ensures
        join_pairs(ps).len() > 0,
{
}

/// The text of two pairs or more holds an `&`.
proof fn lemma_join_pairs_has_separator(ps: Seq<(Seq<u8>, Seq<u8>)>)
    requires
        ps.len() >= 2,
    ensures
        !free_of(join_pairs(ps), 0x26),
{
    let t = join_pairs(ps);
    let n = join_pairs(ps.drop_last()).len() as int;
    assert(t[n] == 0x26);
}

/// The signing order lists exactly the encoded parameters.
pub proof fn lemma_canonical_pairs_elements(m: Map<Seq<u8>, Seq<u8>>)
    requires
        m.dom().finite(),
    ensures
        canonical_pairs(m).to_set() == encoded_pairs(m),
        all_encoded(canonical_pairs(m)),
{
    broadcast use vstd::seq_lib::group_to_multiset_ensures;

    lemma_pair_order_total();
    m.dom().lemma_map_finite(|name: Seq<u8>| encoded_pair(m, name));
    let set = encoded_pairs(m);
    let t = set.to_seq();
    let s = canonical_pairs(m);
    set.lemma_to_seq_to_set_id();
    t.lemma_sort_by_ensures(pair_order());
    assert forall|p: (Seq<u8>, Seq<u8>)| s.to_set().contains(p) <==> set.contains(p) by {
        assert(s.contains(p) <==> s.to_multiset().count(p) > 0);
        assert(t.contains(p) <==> t.to_multiset().count(p) > 0);
        assert(t.to_set().contains(p) <==> t.contains(p));
    }
    assert(s.to_set() =~= set);
    assert forall|i: int| 0 <= i < s.len() implies is_encoded_text((#[trigger] s[i]).0)
        && is_encoded_text(s[i].1) by {
        assert(s.to_set().contains(s[i]));
        let k = choose|k: Seq<u8>| m.dom().contains(k) && s[i] == encoded_pair(m, k);
        lemma_percent_encode_alphabet(k);
        lemma_percent_encode_alphabet(m[k]);
    }
}

/// Parameters with the same encoded pairs are the same parameters.
pub proof fn lemma_encoded_pairs_injective(m1: Map<Seq<u8>, Seq<u8>>, m2: Map<Seq<u8>, Seq<u8>>)
    requires
        encoded_pairs(m1) == encoded_pairs(m2),
    ensures
        m1 == m2,
{
    assert forall|k: Seq<u8>| m1.dom().contains(k) == m2.dom().contains(k) by {
        if m1.dom().contains(k) {
            lemma_encoded_pair_found(m1, m2, k);
        }
        if m2.dom().contains(k) {
            lemma_encoded_pair_found(m2, m1, k);
        }
    }
    assert(m1.dom() =~= m2.dom());
    assert forall|k: Seq<u8>| m1.dom().contains(k) implies #[trigger] m1[k] == m2[k] by {
        lemma_encoded_pair_found(m1, m2, k);
    }
    assert(m1 =~= m2);
}

proof fn lemma_encoded_pair_found(m1: Map<Seq<u8>, Seq<u8>>, m2: Map<Seq<u8>, Seq<u8>>, k: Seq<u8>)
    requires
        encoded_pairs(m1) == encoded_pairs(m2),
        m1.dom().contains(k),
    ensures
        m2.dom().contains(k),
        m2[k] == m1[k],
{
    assert(encoded_pairs(m1).contains(encoded_pair(m1, k)));
    assert(encoded_pairs(m2).contains(encoded_pair(m1, k)));
    let k2 = choose|k2: Seq<u8>| m2.dom().contains(k2) && encoded_pair(m1, k) == encoded_pair(m2, k2);
    lemma_percent_encode_injective(k, k2);
    lemma_percent_encode_injective(m1[k], m2[k2]);
}

/// The normalized parameter string determines the parameters.
pub proof fn lemma_normalized_params_injective(
    m1: Map<Seq<u8>, Seq<u8>>,
    m2: Map<Seq<u8>, Seq<u8>>,
)
    requires
        m1.dom().finite(),
        m2.dom().finite(),
        normalized_params(m1) == normalized_params(m2),
    ensures
        m1 == m2,
{
    lemma_canonical_pairs_elements(m1);
    lemma_canonical_pairs_elements(m2);
    lemma_join_pairs_injective(canonical_pairs(m1), canonical_pairs(m2));
    lemma_encoded_pairs_injective(m1, m2);
}

/// What a parameter written once more does to the encoded parameters: its
/// pair comes in, and the pair that had its name goes.
pub proof fn lemma_encoded_pairs_insert(m: Map<Seq<u8>, Seq<u8>>, name: Seq<u8>, value: Seq<u8>)
    ensures
        forall|p: (Seq<u8>, Seq<u8>)|
            #[trigger] encoded_pairs(m.insert(name, value)).contains(p) <==> (p == (
                percent_encode(name),
                percent_encode(value),
            ) || (encoded_pairs(m).contains(p) && p.0 != percent_encode(name))),
{
    let m2 = m.insert(name, value);
    let new_pair = (percent_encode(name), percent_encode(value));
    assert forall|p: (Seq<u8>, Seq<u8>)| #[trigger]
        encoded_pairs(m2).contains(p) <==> (p == new_pair || (encoded_pairs(m).contains(p) && p.0
            != percent_encode(name))) by {
        if encoded_pairs(m2).contains(p) {
            let k = choose|k: Seq<u8>| m2.dom().contains(k) && p == encoded_pair(m2, k);
            if k != name {
                assert(m.dom().contains(k) && p == encoded_pair(m, k));
                if percent_encode(k) == percent_encode(name) {
                    lemma_percent_encode_injective(k, name);
                }
            }
        }
        if p == new_pair {
            assert(m2.dom().contains(name) && p == encoded_pair(m2, name));
        }
        if encoded_pairs(m).contains(p) && p.0 != percent_encode(name) {
            let k = choose|k: Seq<u8>| m.dom().contains(k) && p == encoded_pair(m, k);
            assert(m2.dom().contains(k) && p == encoded_pair(m2, k));
        }
    }
}

/// The pairs that a vector of encoded parameters holds.
pub open spec fn pairs_view(v: Seq<(Vec<u8>, Vec<u8>)>) -> Seq<(Seq<u8>, Seq<u8>)> {
    Seq::new(v.len(), |i: int| (v[i].0@, v[i].1@))
}

/// Writes `name = value` into a list kept in ascending order of names: in
/// place of the pair with that name if there is one, else at its place in
/// the order.
fn upsert(sorted: &mut Vec<(Vec<u8>, Vec<u8>)>, name: Vec<u8>, value: Vec<u8>)
    requires
        names_ascending(pairs_view(old(sorted)@)),
    ensures
        names_ascending(pairs_view(final(sorted)@)),
        forall|p: (Seq<u8>, Seq<u8>)|
            #[trigger] pairs_view(final(sorted)@).contains(p) <==> (p == (name@, value@) || (
            pairs_view(old(sorted)@).contains(p) && p.0 != name@)),
{
    let ghost before = pairs_view(sorted@);
    let ghost new_pair = (name@, value@);
    let mut j: usize = 0;
    let mut found = false;
    while j < sorted.len()
        invariant_except_break
            !found,
        invariant
            j <= sorted.len(),
            sorted@ == old(sorted)@,
            before == pairs_view(sorted@),
            forall|i: int|
                0 <= i < j ==> (#[trigger] before[i]).0 != name@ && bytes_le(before[i].0, name@),
        ensures
            j < sorted.len() ==> bytes_le(name@, before[j as int].0),
            found <==> j < sorted.len() && before[j as int].0 == name@,
        decreases sorted.len() - j,
    {
        assert(before[j as int].0 == sorted@[j as int].0@);
        if le_bytes(name.as_slice(), sorted[j].0.as_slice()) {
            if le_bytes(sorted[j].0.as_slice(), name.as_slice()) {
                proof {
                    lemma_bytes_le_antisymmetric(name@, before[j as int].0);
                }
                found = true;
            }
            break;
        }
        proof {
            lemma_bytes_le_total(name@, before[j as int].0);
        }
        j += 1;
    }
    if found {
        sorted.set(j, (name, value));
        let ghost after = pairs_view(sorted@);
        assert(after =~= before.update(j as int, new_pair));
        assert forall|a: int, b: int| 0 <= a < b < after.len() implies (#[trigger] after[a]).0 != (
        #[trigger] after[b]).0 && bytes_le(after[a].0, after[b].0) by {
            assert(before[a].0 != before[b].0 && bytes_le(before[a].0, before[b].0));
        }
        assert forall|p: (Seq<u8>, Seq<u8>)| #[trigger]
            after.contains(p) <==> (p == new_pair || (before.contains(p) && p.0 != name@)) by {
            if after.contains(p) {
                let i = choose|i: int| 0 <= i < after.len() && after[i] == p;
                if i != j {
                    assert(before[i] == p);
                    if i < j {
                        assert(before[i].0 != before[j as int].0);
                    } else {
                        assert(before[j as int].0 != before[i].0);
                    }
                }
            }
            if p == new_pair {
                assert(after[j as int] == p);
            }
            if before.contains(p) && p.0 != name@ {
                let i = choose|i: int| 0 <= i < before.len() && before[i] == p;
                assert(after[i] == p);
            }
        }
    } else {
        sorted.insert(j, (name, value));
        let ghost after = pairs_view(sorted@);
        assert(after =~= before.insert(j as int, new_pair));
        assert forall|a: int, b: int| 0 <= a < b < after.len() implies (#[trigger] after[a]).0 != (
        #[trigger] after[b]).0 && bytes_le(after[a].0, after[b].0) by {
            if b < j {
                assert(before[a].0 != before[b].0 && bytes_le(before[a].0, before[b].0));
            } else if b == j {
                assert(before[a].0 != name@ && bytes_le(before[a].0, name@));
            } else if a < j {
                assert(before[a].0 != before[b - 1].0 && bytes_le(before[a].0, before[b - 1].0));
            } else if a == j {
                assert(bytes_le(name@, before[j as int].0));
                if b - 1 > j {
                    assert(before[j as int].0 != before[b - 1].0 && bytes_le(
                        before[j as int].0,
                        before[b - 1].0,
                    ));
                    lemma_bytes_le_transitive(
                        name@,
                        before[j as int].0,
                        before[b - 1].0,
                    );
                    if name@ == before[b - 1].0 {
                        lemma_bytes_le_antisymmetric(before[j as int].0, name@);
                    }
                }
            } else {
                assert(before[a - 1].0 != before[b - 1].0 && bytes_le(
                    before[a - 1].0,
                    before[b - 1].0,
                ));
            }
        }
        assert forall|p: (Seq<u8>, Seq<u8>)| #[trigger]
            after.contains(p) <==> (p == new_pair || (before.contains(p) && p.0 != name@)) by {
            if after.contains(p) {
                let i = choose|i: int| 0 <= i < after.len() && after[i] == p;
                if i < j {
                    assert(before[i] == p);
                } else if i > j {
                    assert(before[i - 1] == p);
                    assert(bytes_le(name@, before[j as int].0));
                    if i - 1 > j {
                        assert(before[j as int].0 != before[i - 1].0 && bytes_le(
                            before[j as int].0,
                            before[i - 1].0,
                        ));
                        if p.0 == name@ {
                            lemma_bytes_le_antisymmetric(before[j as int].0, name@);
                        }
                    }
                }
            }
            if p == new_pair {
                assert(after[j as int] == p);
            }
            if before.contains(p) && p.0 != name@ {
                let i = choose|i: int| 0 <= i < before.len() && before[i] == p;
                if i < j {
                    assert(after[i] == p);
                } else {
                    assert(after[i + 1] == p);
                }
            }
        }
    }
}

/// The encoded parameters in signing order.
pub fn canonical_params(params: &[(&str, &str)]) -> (r: Vec<(Vec<u8>, Vec<u8>)>)
    ensures
        pairs_view(r@) == canonical_pairs(param_map(param_bytes(params@))),
{
    let ghost all = param_bytes(params@);
    let mut sorted: Vec<(Vec<u8>, Vec<u8>)> = Vec::new();
    let mut i: usize = 0;
    proof {
        assert(pairs_view(sorted@).to_set() =~= encoded_pairs(param_map(all.take(0))));
    }
    while i < params.len()
        invariant
            i <= params.len(),
            all == param_bytes(params@),
            names_ascending(pairs_view(sorted@)),
            pairs_view(sorted@).to_set() == encoded_pairs(param_map(all.take(i as int))),
        decreases params.len() - i,
    {
        let name = percent_encode_bytes(params[i].0.as_bytes());
        let value = percent_encode_bytes(params[i].1.as_bytes());
        let ghost before = pairs_view(sorted@);
        let ghost m = param_map(all.take(i as int));
        upsert(&mut sorted, name, value);
        proof {
            let after = pairs_view(sorted@);
            assert(all.take(i + 1).drop_last() =~= all.take(i as int));
            assert(all.take(i + 1).last() == all[i as int]);
            lemma_encoded_pairs_insert(m, all[i as int].0, all[i as int].1);
            assert forall|p: (Seq<u8>, Seq<u8>)|
                after.to_set().contains(p) <==> encoded_pairs(
                    param_map(all.take(i + 1)),
                ).contains(p) by {
                assert(after.to_set().contains(p) <==> after.contains(p));
                assert(before.to_set().contains(p) <==> before.contains(p));
            }
            assert(after.to_set() =~= encoded_pairs(param_map(all.take(i + 1))));
        }
        i += 1;
    }
    proof {
        assert(all.take(params.len() as int) =~= all);
        lemma_param_map_finite(all);
        lemma_canonical_pairs_unique(param_map(all), pairs_view(sorted@));
    }
    sorted
}

/// Writes the pairs as `name=value`, joined by `&`.
pub fn join_params(pairs: &Vec<(Vec<u8>, Vec<u8>)>) -> (r: Vec<u8>)
    ensures
        r@ == join_pairs(pairs_view(pairs@)),
{
    let ghost all = pairs_view(pairs@);
    let mut out: Vec<u8> = Vec::new();
    let mut i: usize = 0;
    while i < pairs.len()
        invariant
            i <= pairs.len(),
            all == pairs_view(pairs@),
            out@ == join_pairs(all.take(i as int)),
        decreases pairs.len() - i,
    {
        let ghost before = out@;
        if i > 0 {
            out.push(0x26u8);
        }
        out.extend_from_slice(pairs[i].0.as_slice());
        out.push(0x3Du8);
        out.extend_from_slice(pairs[i].1.as_slice());
        proof {
            assert(all.take(i + 1).drop_last() =~= all.take(i as int));
            assert(all.take(i + 1).last() == all[i as int]);
            assert(all[i as int] == (pairs@[i as int].0@, pairs@[i as int].1@));
            if i > 0 {
                assert(out@ =~= before + seq![0x26u8] + pair_text(all[i as int]));
            } else {
                assert(all.take(1)[0] == all[0]);
                assert(out@ =~= pair_text(all[0]));
            }
        }
        i += 1;
    }
    proof {
        assert(all.take(pairs.len() as int) =~= all);
    }
    out
}

/// The normalized parameter string: every name and value percent-encoded,
/// the pairs sorted by encoded name and then encoded value, written as
/// `name=value` and joined by `&`. The order in which the parameters are
/// given does not matter; of a name given twice the last value counts.
pub fn normalize_params(params: &[(&str, &str)]) -> (r: Vec<u8>)
    ensures
        r@ == normalized_params(param_map(param_bytes(params@))),
{
    let sorted = canonical_params(params);
    join_params(&sorted)
}

} // verus!
