//! The parameter set of a request: a mapping from parameter name to value
//! whose iteration order is lexicographic by key.
//!
//! The order is part of the signature contract: two parameter sets holding
//! the same key/value pairs canonicalize to byte-identical query strings
//! regardless of insertion order.

use vstd::prelude::*;

verus! {

use crate::encoding::percent_encoded;

/// Strict lexicographic order on character sequences, by scalar value.
/// A proper prefix comes before every extension of it.
pub open spec fn lex_lt(a: Seq<char>, b: Seq<char>) -> bool
    decreases a.len(),
{
    if b.len() == 0 {
        false
    } else if a.len() == 0 {
        true
    } else if a[0] != b[0] {
        (a[0] as u32) < (b[0] as u32)
    } else {
        lex_lt(a.drop_first(), b.drop_first())
    }
}

/// Two characters with the same scalar value are the same character.
pub proof fn lemma_char_cast_injective(c1: char, c2: char)
    requires
        (c1 as u32) == (c2 as u32),
    ensures
        c1 == c2,
{
    vstd::utf8::char_u32_cast(c1, c1 as u32);
    vstd::utf8::char_u32_cast(c2, c2 as u32);
}

/// `lex_lt` is asymmetric, and strictly ordered sequences are distinct.
pub proof fn lemma_lex_lt_asym(a: Seq<char>, b: Seq<char>)
    requires
        lex_lt(a, b),
    ensures
        !lex_lt(b, a),
        a != b,
    decreases a.len() + b.len(),
{
    if a.len() == 0 {
        assert(a != b);
    } else if a[0] != b[0] {
        assert(a != b) by {
            assert(a[0] != b[0]);
        }
    } else {
        lemma_lex_lt_asym(a.drop_first(), b.drop_first());
        assert(a != b) by {
            if a == b {
                assert(a.drop_first() == b.drop_first());
            }
        }
    }
}

/// `lex_lt` is total: two sequences neither of which comes before the other
/// are equal.
pub proof fn lemma_lex_lt_total(a: Seq<char>, b: Seq<char>)
    requires
        !lex_lt(a, b),
        !lex_lt(b, a),
    ensures
        a == b,
    decreases a.len() + b.len(),
{
    if a.len() == 0 && b.len() == 0 {
        assert(a =~= b);
    } else if a.len() == 0 {
        assert(lex_lt(a, b));
        assert(false);
    } else if b.len() == 0 {
        assert(lex_lt(b, a));
        assert(false);
    } else if a[0] != b[0] {
        lemma_char_cast_injective(a[0], b[0]);
        assert(false);
    } else {
        lemma_lex_lt_total(a.drop_first(), b.drop_first());
        assert(a =~= seq![a[0]] + a.drop_first());
        assert(b =~= seq![b[0]] + b.drop_first());
        assert(a =~= b);
    }
}

/// `lex_lt` is transitive.
pub proof fn lemma_lex_lt_trans(a: Seq<char>, b: Seq<char>, c: Seq<char>)
    requires
        lex_lt(a, b),
        lex_lt(b, c),
    ensures
        lex_lt(a, c),
    decreases a.len() + b.len() + c.len(),
{
    if a.len() == 0 {
    } else if a[0] != b[0] {
        if b[0] != c[0] {
            assert(a[0] != c[0]);
        }
    } else {
        if b[0] != c[0] {
        } else {
            lemma_lex_lt_trans(a.drop_first(), b.drop_first(), c.drop_first());
        }
    }
}

/// Dropping a shared prefix does not change how two sequences compare.
pub proof fn lemma_lex_lt_skip_prefix(a: Seq<char>, b: Seq<char>, i: int)
    requires
        0 <= i <= a.len(),
        i <= b.len(),
        forall|j: int| 0 <= j < i ==> a[j] == b[j],
    ensures
        lex_lt(a, b) == lex_lt(a.skip(i), b.skip(i)),
    decreases i,
{
    if i == 0 {
        assert(a.skip(0) =~= a);
        assert(b.skip(0) =~= b);
    } else {
        assert(a[0] == b[0]);
        assert(a.drop_first() =~= a.skip(1));
        assert(b.drop_first() =~= b.skip(1));
        lemma_lex_lt_skip_prefix(a.skip(1), b.skip(1), i - 1);
        assert(a.skip(1).skip(i - 1) =~= a.skip(i));
        assert(b.skip(1).skip(i - 1) =~= b.skip(i));
    }
}

/// Three-way comparison of two strings in the order `lex_lt` describes.
pub fn str_compare(a: &str, b: &str) -> (r: i32)
    ensures
        (r < 0) == lex_lt(a@, b@),
        (r == 0) == (a@ == b@),
        (r > 0) == lex_lt(b@, a@),
{
    let alen = a.unicode_len();
    let blen = b.unicode_len();
    let mut i: usize = 0;
    loop
        invariant
            i <= alen,
            i <= blen,
            alen == a@.len(),
            blen == b@.len(),
            forall|j: int| 0 <= j < i ==> a@[j] == b@[j],
        ensures
            i <= alen,
            i <= blen,
            i >= alen || i >= blen,
            alen == a@.len(),
            blen == b@.len(),
            forall|j: int| 0 <= j < i ==> a@[j] == b@[j],
        decreases alen + blen - 2 * i,
    {
        if i >= alen || i >= blen {
            break ;
        }
        let ca = a.get_char(i);
        let cb = b.get_char(i);
        if (ca as u32) < (cb as u32) {
            proof {
                lemma_lex_lt_skip_prefix(a@, b@, i as int);
                assert(a@.skip(i as int)[0] == a@[i as int]);
                assert(lex_lt(a@, b@));
                lemma_lex_lt_asym(a@, b@);
            }
            return -1;
        }
        if (cb as u32) < (ca as u32) {
            proof {
                lemma_lex_lt_skip_prefix(b@, a@, i as int);
                assert(lex_lt(b@, a@));
                lemma_lex_lt_asym(b@, a@);
            }
            return 1;
        }
        proof {
            lemma_char_cast_injective(ca, cb);
        }
        i = i + 1;
    }
    if i < blen {
        proof {
            lemma_lex_lt_skip_prefix(a@, b@, i as int);
            assert(a@.skip(i as int).len() == 0);
            assert(lex_lt(a@, b@));
            lemma_lex_lt_asym(a@, b@);
        }
        return -1;
    }
    if i < alen {
        proof {
            lemma_lex_lt_skip_prefix(b@, a@, i as int);
            assert(lex_lt(b@, a@));
            lemma_lex_lt_asym(b@, a@);
        }
        return 1;
    }
    proof {
        assert(a@ =~= b@);
        if lex_lt(a@, b@) {
            lemma_lex_lt_asym(a@, b@);
        }
        if lex_lt(b@, a@) {
            lemma_lex_lt_asym(b@, a@);
        }
    }
    0
}

/// A pair sequence whose keys are strictly increasing in `lex_lt`: the
/// iteration order the signature contract demands, with unique keys.
pub open spec fn sorted_keys(ps: Seq<(Seq<char>, Seq<char>)>) -> bool {
    forall|i: int, j: int|
        #![trigger ps[i], ps[j]]
        0 <= i < j < ps.len() ==> lex_lt(ps[i].0, ps[j].0)
}

/// Where a new pair lands in a sorted pair sequence: before the first key
/// not below it, replacing that key's pair if the keys are equal.
pub open spec fn sorted_insert(
    ps: Seq<(Seq<char>, Seq<char>)>,
    k: Seq<char>,
    v: Seq<char>,
) -> Seq<(Seq<char>, Seq<char>)>
    decreases ps.len(),
{
    if ps.len() == 0 {
        seq![(k, v)]
    } else if lex_lt(ps[0].0, k) {
        seq![ps[0]] + sorted_insert(ps.drop_first(), k, v)
    } else if ps[0].0 == k {
        seq![(k, v)] + ps.drop_first()
    } else {
        seq![(k, v)] + ps
    }
}

/// The mapping a pair sequence stands for.
pub open spec fn map_of(ps: Seq<(Seq<char>, Seq<char>)>) -> Map<Seq<char>, Seq<char>>
    decreases ps.len(),
{
    if ps.len() == 0 {
        Map::empty()
    } else {
        map_of(ps.drop_first()).insert(ps[0].0, ps[0].1)
    }
}

/// A key is in the mapping exactly when some pair holds it.
pub proof fn lemma_map_of_dom(ps: Seq<(Seq<char>, Seq<char>)>, k: Seq<char>)
    ensures
        map_of(ps).dom().contains(k) <==> exists|i: int| 0 <= i < ps.len() && ps[i].0 == k,
    decreases ps.len(),
{
    if ps.len() > 0 {
        lemma_map_of_dom(ps.drop_first(), k);
        if ps[0].0 == k {
            assert(ps[0].0 == k && 0 < ps.len());
        } else if exists|i: int| 0 <= i < ps.len() && ps[i].0 == k {
            let i = choose|i: int| 0 <= i < ps.len() && ps[i].0 == k;
            if map_of(ps).dom().contains(k) {
            } else {
                assert(ps.drop_first()[i - 1] == ps[i]);
            }
        } else if map_of(ps).dom().contains(k) {
            let i = choose|i: int| 0 <= i < ps.drop_first().len() && ps.drop_first()[i].0 == k;
            assert(ps[i + 1] == ps.drop_first()[i]);
        }
    }
}

/// In a sorted pair sequence the mapping returns each pair's own value.
pub proof fn lemma_map_of_index(ps: Seq<(Seq<char>, Seq<char>)>, i: int)
    requires
        sorted_keys(ps),
        0 <= i < ps.len(),
    ensures
        map_of(ps).dom().contains(ps[i].0),
        map_of(ps)[ps[i].0] == ps[i].1,
    decreases ps.len(),
{
    if i == 0 {
        lemma_map_of_dom(ps.drop_first(), ps[0].0);
        if map_of(ps.drop_first()).dom().contains(ps[0].0) {
            let j = choose|j: int|
                0 <= j < ps.drop_first().len() && ps.drop_first()[j].0 == ps[0].0;
            assert(ps[j + 1] == ps.drop_first()[j]);
            assert(lex_lt(ps[0].0, ps[j + 1].0));
            lemma_lex_lt_asym(ps[0].0, ps[j + 1].0);
            assert(false);
        }
    } else {
        assert forall|a: int, b: int|
            #![trigger ps.drop_first()[a], ps.drop_first()[b]]
            0 <= a < b < ps.drop_first().len() implies lex_lt(
            ps.drop_first()[a].0,
            ps.drop_first()[b].0,
        ) by {
            assert(ps.drop_first()[a] == ps[a + 1]);
            assert(ps.drop_first()[b] == ps[b + 1]);
        }
        lemma_map_of_index(ps.drop_first(), i - 1);
        assert(ps.drop_first()[i - 1] == ps[i]);
        assert(lex_lt(ps[0].0, ps[i].0));
        lemma_lex_lt_asym(ps[0].0, ps[i].0);
    }
}

/// Inserting a pair keeps the keys sorted and updates the mapping at that
/// key alone.
pub proof fn lemma_sorted_insert_props(ps: Seq<(Seq<char>, Seq<char>)>, k: Seq<char>, v: Seq<char>)
    requires
        sorted_keys(ps),
    ensures
        sorted_keys(sorted_insert(ps, k, v)),
        map_of(sorted_insert(ps, k, v)) == map_of(ps).insert(k, v),
    decreases ps.len(),
{
    let out = sorted_insert(ps, k, v);
    if ps.len() == 0 {
        assert(out.drop_first() =~= Seq::<(Seq<char>, Seq<char>)>::empty());
        assert(map_of(out.drop_first()) =~= Map::<Seq<char>, Seq<char>>::empty());
        assert(out[0] == (k, v));
        assert(map_of(ps) =~= Map::<Seq<char>, Seq<char>>::empty());
        assert(map_of(out) =~= map_of(ps).insert(k, v));
    } else if lex_lt(ps[0].0, k) {
        let tail = ps.drop_first();
        assert forall|a: int, b: int|
            #![trigger tail[a], tail[b]]
            0 <= a < b < tail.len() implies lex_lt(tail[a].0, tail[b].0) by {
            assert(tail[a] == ps[a + 1]);
            assert(tail[b] == ps[b + 1]);
        }
        lemma_sorted_insert_props(tail, k, v);
        let rec = sorted_insert(tail, k, v);
        assert(out =~= seq![ps[0]] + rec);
        // every key of the recursive result is either a tail key or `k`,
        // and each of those is above ps[0].0
        assert forall|a: int, b: int|
            #![trigger out[a], out[b]]
            0 <= a < b < out.len() implies lex_lt(out[a].0, out[b].0) by {
            if a == 0 {
                assert(out[b] == rec[b - 1]);
                lemma_sorted_insert_membership(tail, k, v, b - 1);
                if rec[b - 1].0 == k {
                } else {
                    let j = choose|j: int| 0 <= j < tail.len() && tail[j].0 == rec[b - 1].0;
                    assert(tail[j] == ps[j + 1]);
                }
            } else {
                assert(out[a] == rec[a - 1]);
                assert(out[b] == rec[b - 1]);
            }
        }
        assert(map_of(out) =~= map_of(ps).insert(k, v)) by {
            assert(out.drop_first() =~= rec);
            assert(map_of(out) == map_of(rec).insert(ps[0].0, ps[0].1));
            assert(map_of(rec) == map_of(tail).insert(k, v));
            assert(map_of(ps) == map_of(tail).insert(ps[0].0, ps[0].1));
            lemma_lex_lt_asym(ps[0].0, k);
        }
    } else if ps[0].0 == k {
        assert(out =~= seq![(k, v)] + ps.drop_first());
        assert forall|a: int, b: int|
            #![trigger out[a], out[b]]
            0 <= a < b < out.len() implies lex_lt(out[a].0, out[b].0) by {
            if a == 0 {
                assert(out[b] == ps.drop_first()[b - 1]);
                assert(ps.drop_first()[b - 1] == ps[b]);
            } else {
                assert(out[a] == ps[a]);
                assert(out[b] == ps[b]);
            }
        }
        assert(map_of(out) =~= map_of(ps).insert(k, v)) by {
            assert(out.drop_first() =~= ps.drop_first());
        }
    } else {
        if !lex_lt(k, ps[0].0) {
            lemma_lex_lt_total(ps[0].0, k);
            assert(false);
        }
        assert(lex_lt(k, ps[0].0));
        assert(out =~= seq![(k, v)] + ps);
        assert forall|a: int, b: int|
            #![trigger out[a], out[b]]
            0 <= a < b < out.len() implies lex_lt(out[a].0, out[b].0) by {
            if a == 0 {
                assert(out[b] == ps[b - 1]);
                if b == 1 {
                } else {
                    assert(lex_lt(ps[0].0, ps[b - 1].0));
                    lemma_lex_lt_trans(k, ps[0].0, ps[b - 1].0);
                }
            } else {
                assert(out[a] == ps[a - 1]);
                assert(out[b] == ps[b - 1]);
            }
        }
        assert(map_of(out) =~= map_of(ps).insert(k, v)) by {
            assert(out.drop_first() =~= ps);
        }
    }
}

/// The tail of a sorted pair sequence is sorted.
pub proof fn lemma_sorted_tail(ps: Seq<(Seq<char>, Seq<char>)>)
    requires
        sorted_keys(ps),
        ps.len() > 0,
    ensures
        sorted_keys(ps.drop_first()),
{
    assert forall|a: int, b: int|
        #![trigger ps.drop_first()[a], ps.drop_first()[b]]
        0 <= a < b < ps.drop_first().len() implies lex_lt(
        ps.drop_first()[a].0,
        ps.drop_first()[b].0,
    ) by {
        assert(ps.drop_first()[a] == ps[a + 1]);
        assert(ps.drop_first()[b] == ps[b + 1]);
    }
}

/// The head's key of a sorted pair sequence is not a key of its tail.
pub proof fn lemma_sorted_head_not_in_tail(ps: Seq<(Seq<char>, Seq<char>)>)
    requires
        sorted_keys(ps),
        ps.len() > 0,
    ensures
        !map_of(ps.drop_first()).dom().contains(ps[0].0),
{
    lemma_map_of_dom(ps.drop_first(), ps[0].0);
    if map_of(ps.drop_first()).dom().contains(ps[0].0) {
        let t = choose|t: int| 0 <= t < ps.drop_first().len() && ps.drop_first()[t].0 == ps[0].0;
        assert(ps.drop_first()[t] == ps[t + 1]);
        assert(lex_lt(ps[0].0, ps[t + 1].0));
        lemma_lex_lt_asym(ps[0].0, ps[t + 1].0);
        assert(false);
    }
}

/// The order the signature contract rests on is determined by the mapping
/// alone: two sorted pair sequences standing for the same mapping are the
/// same sequence, whatever order their pairs were inserted in.
pub proof fn lemma_sorted_map_determined(
    ps1: Seq<(Seq<char>, Seq<char>)>,
    ps2: Seq<(Seq<char>, Seq<char>)>,
)
    requires
        sorted_keys(ps1),
        sorted_keys(ps2),
        map_of(ps1) == map_of(ps2),
    ensures
        ps1 == ps2,
    decreases ps1.len(),
{
    if ps1.len() == 0 {
        if ps2.len() > 0 {
            lemma_map_of_index(ps2, 0);
            lemma_map_of_dom(ps1, ps2[0].0);
            assert(false);
        }
        assert(ps1 =~= ps2);
    } else if ps2.len() == 0 {
        lemma_map_of_index(ps1, 0);
        lemma_map_of_dom(ps2, ps1[0].0);
        assert(false);
    } else {
        lemma_map_of_index(ps1, 0);
        lemma_map_of_index(ps2, 0);
        lemma_map_of_dom(ps2, ps1[0].0);
        let j = choose|j: int| 0 <= j < ps2.len() && ps2[j].0 == ps1[0].0;
        lemma_map_of_dom(ps1, ps2[0].0);
        let i = choose|i: int| 0 <= i < ps1.len() && ps1[i].0 == ps2[0].0;
        if i > 0 && j > 0 {
            assert(lex_lt(ps1[0].0, ps1[i].0));
            assert(lex_lt(ps2[0].0, ps2[j].0));
            lemma_lex_lt_asym(ps1[0].0, ps2[0].0);
            assert(false);
        }
        assert(ps1[0].0 == ps2[0].0);
        assert(ps1[0].1 == ps2[0].1);
        lemma_sorted_head_not_in_tail(ps1);
        lemma_sorted_head_not_in_tail(ps2);
        assert(map_of(ps1.drop_first()) =~= map_of(ps1).remove(ps1[0].0));
        assert(map_of(ps2.drop_first()) =~= map_of(ps2).remove(ps2[0].0));
        lemma_sorted_tail(ps1);
        lemma_sorted_tail(ps2);
        lemma_sorted_map_determined(ps1.drop_first(), ps2.drop_first());
        assert(ps1 =~= ps2) by {
            assert(ps1[0] == ps2[0]);
            assert forall|t: int| 0 <= t < ps1.len() implies ps1[t] == ps2[t] by {
                if t > 0 {
                    assert(ps1.drop_first()[t - 1] == ps1[t]);
                    assert(ps2.drop_first()[t - 1] == ps2[t]);
                }
            }
        }
    }
}

/// Every pair of an insertion result carries the new key or one of the old.
pub proof fn lemma_sorted_insert_membership(
    ps: Seq<(Seq<char>, Seq<char>)>,
    k: Seq<char>,
    v: Seq<char>,
    i: int,
)
    requires
        0 <= i < sorted_insert(ps, k, v).len(),
    ensures
        sorted_insert(ps, k, v)[i].0 == k || exists|j: int|
            0 <= j < ps.len() && ps[j].0 == sorted_insert(ps, k, v)[i].0,
    decreases ps.len(),
{
    let out = sorted_insert(ps, k, v);
    if ps.len() == 0 {
    } else if lex_lt(ps[0].0, k) {
        if i == 0 {
            assert(ps[0].0 == out[0].0);
        } else {
            lemma_sorted_insert_membership(ps.drop_first(), k, v, i - 1);
            let rec = sorted_insert(ps.drop_first(), k, v);
            assert(out[i] == rec[i - 1]);
            if rec[i - 1].0 == k {
            } else {
                let j = choose|j: int|
                    0 <= j < ps.drop_first().len() && ps.drop_first()[j].0 == rec[i - 1].0;
                assert(ps[j + 1] == ps.drop_first()[j]);
            }
        }
    } else if ps[0].0 == k {
        if i > 0 {
            assert(out[i] == ps.drop_first()[i - 1]);
            assert(ps[i] == ps.drop_first()[i - 1]);
        }
    } else {
        if i > 0 {
            assert(out[i] == ps[i - 1]);
        }
    }
}

/// Where the insertion scan stops, the insertion result is an update of the
/// pair at that slot (equal key) or an insertion before it (new key).
pub proof fn lemma_sorted_insert_at(
    ps: Seq<(Seq<char>, Seq<char>)>,
    k: Seq<char>,
    v: Seq<char>,
    idx: int,
)
    requires
        0 <= idx <= ps.len(),
        forall|j: int| 0 <= j < idx ==> lex_lt(#[trigger] ps[j].0, k),
        idx < ps.len() ==> !lex_lt(ps[idx].0, k),
    ensures
        idx < ps.len() && ps[idx].0 == k ==> sorted_insert(ps, k, v) == ps.update(idx, (k, v)),
        (idx == ps.len() || ps[idx].0 != k) ==> sorted_insert(ps, k, v) == ps.insert(idx, (k, v)),
    decreases ps.len(),
{
    if idx == 0 {
        if ps.len() == 0 {
            assert(sorted_insert(ps, k, v) =~= ps.insert(0, (k, v)));
        } else if ps[0].0 == k {
            assert(sorted_insert(ps, k, v) =~= ps.update(0, (k, v)));
        } else {
            assert(sorted_insert(ps, k, v) =~= ps.insert(0, (k, v)));
        }
    } else {
        assert(lex_lt(ps[0].0, k));
        let tail = ps.drop_first();
        assert(forall|j: int| 0 <= j < idx - 1 ==> lex_lt(#[trigger] tail[j].0, k)) by {
            assert(forall|j: int| 0 <= j < idx - 1 ==> tail[j] == #[trigger] ps[j + 1]);
        }
        assert(idx - 1 < tail.len() ==> !lex_lt(tail[idx - 1].0, k)) by {
            if idx - 1 < tail.len() {
                assert(tail[idx - 1] == ps[idx]);
            }
        }
        lemma_sorted_insert_at(tail, k, v, idx - 1);
        if idx < ps.len() && ps[idx].0 == k {
            assert(tail[idx - 1] == ps[idx]);
            assert(seq![ps[0]] + tail.update(idx - 1, (k, v)) =~= ps.update(idx, (k, v)));
        } else {
            assert(seq![ps[0]] + tail.insert(idx - 1, (k, v)) =~= ps.insert(idx, (k, v)));
        }
    }
}

/// The view of a vector of string pairs: each pair as character sequences.
pub open spec fn pairs_view(pairs: Seq<(String, String)>) -> Seq<(Seq<char>, Seq<char>)> {
    pairs.map_values(|p: (String, String)| (p.0@, p.1@))
}

/// An ordered parameter set: a mapping from parameter name to value whose
/// keys are unique and iterate in lexicographic order.
pub struct ParamMap {
    pairs: Vec<(String, String)>,
}

impl View for ParamMap {
    type V = Seq<(Seq<char>, Seq<char>)>;

    closed spec fn view(&self) -> Seq<(Seq<char>, Seq<char>)> {
        pairs_view(self.pairs@)
    }
}

fn find_slot(pairs: &Vec<(String, String)>, key: &str) -> (idx: usize)
    ensures
        idx <= pairs@.len(),
        forall|j: int| 0 <= j < idx ==> lex_lt(#[trigger] pairs_view(pairs@)[j].0, key@),
        idx < pairs@.len() ==> !lex_lt(pairs_view(pairs@)[idx as int].0, key@),
{
    let mut idx: usize = 0;
    loop
        invariant
            idx <= pairs@.len(),
            forall|j: int| 0 <= j < idx ==> lex_lt(#[trigger] pairs_view(pairs@)[j].0, key@),
        ensures
            idx <= pairs@.len(),
            forall|j: int| 0 <= j < idx ==> lex_lt(#[trigger] pairs_view(pairs@)[j].0, key@),
            idx == pairs@.len() || !lex_lt(pairs_view(pairs@)[idx as int].0, key@),
        decreases pairs@.len() - idx,
    {
        if idx >= pairs.len() {
            break ;
        }
        let c = str_compare(pairs[idx].0.as_str(), key);
        if c >= 0 {
            break ;
        }
        idx = idx + 1;
    }
    idx
}

impl ParamMap {
    /// The keys stand in strict lexicographic order.
    pub open spec fn wf(self) -> bool {
        sorted_keys(self@)
    }

    /// The mapping this parameter set stands for.
    pub open spec fn as_map(self) -> Map<Seq<char>, Seq<char>> {
        map_of(self@)
    }

    /// An empty parameter set.
    pub fn new() -> (r: Self)
        ensures
            r@ == Seq::<(Seq<char>, Seq<char>)>::empty(),
            r.wf(),
    {
        let r = ParamMap { pairs: Vec::new() };
        proof {
            assert(r@ =~= Seq::<(Seq<char>, Seq<char>)>::empty());
        }
        r
    }

    /// How many parameters the set holds.
    pub fn len(&self) -> (n: usize)
        ensures
            n == self@.len(),
    {
        self.pairs.len()
    }

    /// Bind `key` to `value`: a new key takes its sorted place, an existing
    /// key has its value replaced.
    pub fn insert(&mut self, key: String, value: String)
        requires
            old(self).wf(),
        ensures
            final(self)@ == sorted_insert(old(self)@, key@, value@),
            final(self).wf(),
            final(self).as_map() == old(self).as_map().insert(key@, value@),
    {
        let idx = find_slot(&self.pairs, key.as_str());
        let ghost ps = self@;
        if idx < self.pairs.len() {
            let c = str_compare(self.pairs[idx].0.as_str(), key.as_str());
            if c == 0 {
                self.pairs.remove(idx);
                self.pairs.insert(idx, (key, value));
                proof {
                    lemma_sorted_insert_at(ps, key@, value@, idx as int);
                    assert(self@ =~= ps.update(idx as int, (key@, value@)));
                }
            } else {
                self.pairs.insert(idx, (key, value));
                proof {
                    lemma_sorted_insert_at(ps, key@, value@, idx as int);
                    assert(self@ =~= ps.insert(idx as int, (key@, value@)));
                }
            }
        } else {
            self.pairs.push((key, value));
            proof {
                lemma_sorted_insert_at(ps, key@, value@, idx as int);
                assert(self@ =~= ps.insert(ps.len() as int, (key@, value@)));
            }
        }
        proof {
            lemma_sorted_insert_props(ps, key@, value@);
        }
    }
}

/// One canonical-query entry: the key, `=`, and the percent-encoded value.
pub open spec fn pair_text(p: (Seq<char>, Seq<char>)) -> Seq<char> {
    p.0 + seq!['='] + percent_encoded(p.1)
}

/// One raw query entry: the key, `=`, and the value as it stands.
pub open spec fn raw_pair_text(p: (Seq<char>, Seq<char>)) -> Seq<char> {
    p.0 + seq!['='] + p.1
}

/// The first `n` items joined with `&`, no trailing separator.
pub open spec fn join_amp(items: Seq<Seq<char>>, n: int) -> Seq<char>
    decreases n,
{
    if n <= 0 {
        seq![]
    } else if n == 1 {
        items[0]
    } else {
        join_amp(items, n - 1) + seq!['&'] + items[n - 1]
    }
}

/// The canonical text of the first `n` pairs.
pub open spec fn canonical_prefix(ps: Seq<(Seq<char>, Seq<char>)>, n: int) -> Seq<char> {
    join_amp(ps.map_values(|p: (Seq<char>, Seq<char>)| pair_text(p)), n)
}

/// The canonical query string of a pair sequence: `key=value` entries with
/// percent-encoded values, joined with `&`.
pub open spec fn canonical_query_of(ps: Seq<(Seq<char>, Seq<char>)>) -> Seq<char> {
    canonical_prefix(ps, ps.len() as int)
}

/// The raw text of the first `n` pairs.
pub open spec fn raw_prefix(ps: Seq<(Seq<char>, Seq<char>)>, n: int) -> Seq<char> {
    join_amp(ps.map_values(|p: (Seq<char>, Seq<char>)| raw_pair_text(p)), n)
}

/// The raw query string of a pair sequence: `key=value` entries as they
/// stand, joined with `&`.
pub open spec fn raw_query_of(ps: Seq<(Seq<char>, Seq<char>)>) -> Seq<char> {
    raw_prefix(ps, ps.len() as int)
}

/// Serialize a parameter set as its canonical query string: entries in the
/// set's key order, each value percent-encoded, joined with `&` and with no
/// dangling separator.  Two sets holding the same mapping serialize to
/// byte-identical strings.
pub fn build_query_string(parameters: ParamMap) -> (r: String)
    ensures
        r@ == canonical_query_of(parameters@),
{
    let mut out = String::new();
    let mut i: usize = 0;
    while i < parameters.pairs.len()
        invariant
            i <= parameters.pairs.len(),
            parameters@.len() == parameters.pairs@.len(),
            out@ == canonical_prefix(parameters@, i as int),
        decreases parameters.pairs.len() - i,
    {
        if i > 0 {
            crate::encoding::push_char(&mut out, '&');
        }
        let p = &parameters.pairs[i];
        out.append(p.0.as_str());
        crate::encoding::push_char(&mut out, '=');
        let enc = crate::encoding::percent_encode(p.1.as_str());
        out.append(enc.as_str());
        proof {
            let items = parameters@.map_values(|q: (Seq<char>, Seq<char>)| pair_text(q));
            assert(parameters@[i as int] == (parameters.pairs@[i as int].0@,
            parameters.pairs@[i as int].1@));
            assert(items[i as int] == pair_text(parameters@[i as int]));
            assert(out@ =~= canonical_prefix(parameters@, i + 1));
        }
        i = i + 1;
    }
    out
}

/// Serialize a parameter set as `key=value` entries joined with `&`, the
/// values as they stand, with no dangling separator.
pub(crate) fn build_raw_query(parameters: &ParamMap) -> (r: String)
    ensures
        r@ == raw_query_of(parameters@),
{
    let mut out = String::new();
    let mut i: usize = 0;
    while i < parameters.pairs.len()
        invariant
            i <= parameters.pairs.len(),
            parameters@.len() == parameters.pairs@.len(),
            out@ == raw_prefix(parameters@, i as int),
        decreases parameters.pairs.len() - i,
    {
        if i > 0 {
            crate::encoding::push_char(&mut out, '&');
        }
        let p = &parameters.pairs[i];
        out.append(p.0.as_str());
        crate::encoding::push_char(&mut out, '=');
        out.append(p.1.as_str());
        proof {
            let items = parameters@.map_values(|q: (Seq<char>, Seq<char>)| raw_pair_text(q));
            assert(parameters@[i as int] == (parameters.pairs@[i as int].0@,
            parameters.pairs@[i as int].1@));
            assert(items[i as int] == raw_pair_text(parameters@[i as int]));
            assert(out@ =~= raw_prefix(parameters@, i + 1));
        }
        i = i + 1;
    }
    out
}

/// Canonicalization is a function of the mapping alone: two well-formed
/// parameter sets holding the same key/value pairs — whatever order they
/// were inserted in — canonicalize to byte-identical query strings.
pub proof fn lemma_canonical_query_deterministic(m1: ParamMap, m2: ParamMap)
    requires
        m1.wf(),
        m2.wf(),
        m1.as_map() == m2.as_map(),
    ensures
        m1@ == m2@,
        canonical_query_of(m1@) == canonical_query_of(m2@),
{
    lemma_sorted_map_determined(m1@, m2@);
}

} // verus!
