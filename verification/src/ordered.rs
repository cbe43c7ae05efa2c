use vstd::laws_cmp::obeys_cmp;
use vstd::prelude::*;
use vstd::std_specs::btree::increasing_seq;
use vstd::std_specs::cmp::OrdSpec;

verus! {

/// A walk over an ordered map with `u64` keys yields the keys in increasing order.
pub proof fn lemma_increasing_u64_keys<'a, V>(v: Seq<(&'a u64, &'a V)>)
    requires
        increasing_seq(v.map_values(|kv: (&u64, &V)| *kv.0)),
    ensures
        forall|i: int, j: int| 0 <= i < j < v.len() ==> *v[i].0 < *v[j].0,
{
    assert(obeys_cmp::<u64>());
    let s = v.map_values(|kv: (&u64, &V)| *kv.0);
    assert forall|i: int, j: int| 0 <= i < j < v.len() implies *v[i].0 < *v[j].0 by {
        assert(s[i] == *v[i].0 && s[j] == *v[j].0);
        assert(s[i].cmp_spec(&s[j]) is Less);
    }
}

/// A walk over an ordered map with `usize` keys yields the keys in increasing order.
pub proof fn lemma_increasing_usize_keys<'a, V>(v: Seq<(&'a usize, &'a V)>)
    requires
        increasing_seq(v.map_values(|kv: (&usize, &V)| *kv.0)),
    ensures
        forall|i: int, j: int| 0 <= i < j < v.len() ==> *v[i].0 < *v[j].0,
{
    assert(obeys_cmp::<usize>());
    let s = v.map_values(|kv: (&usize, &V)| *kv.0);
    assert forall|i: int, j: int| 0 <= i < j < v.len() implies *v[i].0 < *v[j].0 by {
        assert(s[i] == *v[i].0 && s[j] == *v[j].0);
        assert(s[i].cmp_spec(&s[j]) is Less);
    }
}

/// Two increasing sequences that hold the same values are equal.
pub proof fn lemma_increasing_same_values(s: Seq<int>, t: Seq<int>)
    requires
        forall|i: int, j: int| 0 <= i < j < s.len() ==> s[i] < s[j],
        forall|i: int, j: int| 0 <= i < j < t.len() ==> t[i] < t[j],
        forall|i: int| 0 <= i < s.len() ==> t.contains(#[trigger] s[i]),
        forall|j: int| 0 <= j < t.len() ==> s.contains(#[trigger] t[j]),
    ensures
        s == t,
    decreases s.len(),
{
    if s.len() == 0 {
        if t.len() > 0 {
            assert(s.contains(t[0]));
        }
        assert(s =~= t);
    } else {
        assert(t.contains(s[0]));
        assert(s.contains(t[0]));
        let p = choose|i: int| 0 <= i < s.len() && s[i] == t[0];
        let q = choose|j: int| 0 <= j < t.len() && t[j] == s[0];
        assert(s[0] <= s[p]);
        assert(t[0] <= t[q]);
        let s1 = s.drop_first();
        let t1 = t.drop_first();
        assert forall|i: int| 0 <= i < s1.len() implies t1.contains(#[trigger] s1[i]) by {
            assert(s1[i] == s[i + 1]);
            assert(t.contains(s[i + 1]));
            let j = choose|j: int| 0 <= j < t.len() && t[j] == s[i + 1];
            assert(s[0] < s[i + 1]);
            assert(t1[j - 1] == t[j]);
        }
        assert forall|j: int| 0 <= j < t1.len() implies s1.contains(#[trigger] t1[j]) by {
            assert(t1[j] == t[j + 1]);
            assert(s.contains(t[j + 1]));
            let i = choose|i: int| 0 <= i < s.len() && s[i] == t[j + 1];
            assert(t[0] < t[j + 1]);
            assert(s1[i - 1] == s[i]);
        }
        lemma_increasing_same_values(s1, t1);
        assert forall|i: int| 0 <= i < s.len() implies s[i] == t[i] by {
            if i > 0 {
                assert(s[i] == s1[i - 1] && t[i] == t1[i - 1]);
            }
        }
        assert(s =~= t);
    }
}

} // verus!
