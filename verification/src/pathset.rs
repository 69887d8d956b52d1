//! Sets of relative paths kept as vectors in path order, one entry per path,
//! as a `BTreeSet` of paths holds them.

use vstd::prelude::*;

use crate::text::{chars_of, texts};
use crate::watch::{
    lemma_path_before_irreflexive, lemma_path_before_total, lemma_path_before_transitive,
    path_before, path_less,
};

verus! {

/// Each path orders strictly before the next.
pub open spec fn sorted_paths(s: Seq<Seq<char>>) -> bool {
    forall|i: int, j: int| 0 <= i < j < s.len() ==> path_before(#[trigger] s[i], #[trigger] s[j])
}

/// The paths of a vector, as a set.
pub open spec fn path_set(v: Seq<String>) -> Set<Seq<char>> {
    texts(v).to_set()
}

/// A vector of paths in path order, one entry per path.
pub open spec fn is_path_set(v: Seq<String>) -> bool {
    sorted_paths(texts(v))
}

/// Two path-ordered sequences with the same paths are the same sequence.
pub proof fn lemma_sorted_unique(a: Seq<Seq<char>>, b: Seq<Seq<char>>)
    requires
        sorted_paths(a),
        sorted_paths(b),
        a.to_set() == b.to_set(),
    ensures
        a == b,
    decreases a.len(),
{
    if a.len() == 0 {
        if b.len() > 0 {
            assert(b.to_set().contains(b[0]));
        }
    } else if b.len() == 0 {
        assert(a.to_set().contains(a[0]));
    } else {
        let x = a.last();
        let y = b.last();
        assert(a.to_set().contains(x));
        assert(b.to_set().contains(y));
        assert(b.contains(x));
        assert(a.contains(y));
        let i = choose|i: int| 0 <= i < b.len() && b[i] == x;
        let j = choose|j: int| 0 <= j < a.len() && a[j] == y;
        if x != y {
            lemma_path_before_total(x, y);
            if i < b.len() - 1 {
                assert(path_before(b[i], b[b.len() - 1]));
            }
            if j < a.len() - 1 {
                assert(path_before(a[j], a[a.len() - 1]));
            }
        }
        assert(x == y);
        assert(a.drop_last().to_set() =~= b.drop_last().to_set()) by {
            assert forall|p: Seq<char>| a.drop_last().to_set().contains(p) implies b.drop_last().to_set().contains(p) by {
                let k = choose|k: int| 0 <= k < a.len() - 1 && a[k] == p;
                assert(a.to_set().contains(p));
                let m = choose|m: int| 0 <= m < b.len() && b[m] == p;
                assert(path_before(a[k], a[a.len() - 1]));
                if m == b.len() - 1 {
                    lemma_path_before_irreflexive(p);
                }
                assert(b.drop_last()[m] == p);
            }
            assert forall|p: Seq<char>| b.drop_last().to_set().contains(p) implies a.drop_last().to_set().contains(p) by {
                let k = choose|k: int| 0 <= k < b.len() - 1 && b[k] == p;
                assert(b.to_set().contains(p));
                let m = choose|m: int| 0 <= m < a.len() && a[m] == p;
                assert(path_before(b[k], b[b.len() - 1]));
                if m == a.len() - 1 {
                    lemma_path_before_irreflexive(p);
                }
                assert(a.drop_last()[m] == p);
            }
        }
        lemma_sorted_unique(a.drop_last(), b.drop_last());
        assert(a =~= a.drop_last().push(x));
        assert(b =~= b.drop_last().push(y));
    }
}

pub proof fn lemma_take_to_set<A>(s: Seq<A>, k: int)
    requires
        0 <= k < s.len(),
    ensures
        s.take(k + 1).to_set() == s.take(k).to_set().insert(s[k]),
{
    let t1 = s.take(k + 1);
    let t0 = s.take(k);
    assert forall|x: A| t1.contains(x) <==> (t0.contains(x) || x == s[k]) by {
        if t1.contains(x) {
            let j = choose|j: int| 0 <= j < t1.len() && t1[j] == x;
            if j < k {
                assert(t0[j] == x);
            }
        }
        if t0.contains(x) {
            let j = choose|j: int| 0 <= j < t0.len() && t0[j] == x;
            assert(t1[j] == x);
        }
        if x == s[k] {
            assert(t1[k] == x);
        }
    }
    assert(t1.to_set() =~= t0.to_set().insert(s[k]));
}

/// Whether `path` is in the set.
pub fn contains_path(v: &Vec<String>, path: &str) -> (r: bool)
    ensures
        r == path_set(v@).contains(path@),
{
    let p = chars_of(path);
    let mut i: usize = 0;
    while i < v.len()
        invariant
            i <= v.len(),
            p@ == path@,
            forall|k: int| 0 <= k < i ==> v@[k]@ != path@,
        decreases v.len() - i,
    {
        if crate::text::chars_equal(&chars_of(v[i].as_str()), &p) {
            assert(texts(v@)[i as int] == path@);
            return true;
        }
        i = i + 1;
    }
    assert(!texts(v@).contains(path@)) by {
        if texts(v@).contains(path@) {
            let k = choose|k: int| 0 <= k < texts(v@).len() && texts(v@)[k] == path@;
            assert(v@[k]@ == path@);
        }
    }
    false
}

/// Adds `path` to the set.
pub fn insert_path(v: &mut Vec<String>, path: String)
    requires
        is_path_set(old(v)@),
    ensures
        is_path_set(final(v)@),
        path_set(final(v)@) == path_set(old(v)@).insert(path@),
{
    let ghost start = texts(v@);
    let p = chars_of(path.as_str());
    let mut i: usize = 0;
    while i < v.len()
        invariant
            i <= v.len(),
            v@ == old(v)@,
            start == texts(v@),
            sorted_paths(start),
            p@ == path@,
            forall|k: int| 0 <= k < i ==> path_before(#[trigger] start[k], path@),
        ensures
            i <= v.len(),
            v@ == old(v)@,
            forall|k: int| 0 <= k < i ==> path_before(#[trigger] start[k], path@),
            i < v.len() ==> path_before(path@, start[i as int]),
        decreases v.len() - i,
    {
        let item = chars_of(v[i].as_str());
        assert(item@ == start[i as int]);
        if !path_less(&item, &p) {
            if crate::text::chars_equal(&item, &p) {
                assert(start.to_set().insert(path@) =~= start.to_set()) by {
                    assert(start.contains(path@));
                }
                return;
            }
            proof {
                lemma_path_before_total(item@, p@);
            }
            break;
        }
        i = i + 1;
    }
    v.insert(i, path);
    proof {
        let now = texts(v@);
        assert(now =~= start.insert(i as int, path@));
        assert forall|a: int, b: int| 0 <= a < b < now.len() implies path_before(
            #[trigger] now[a],
            #[trigger] now[b],
        ) by {
            if b < i {
                assert(now[a] == start[a] && now[b] == start[b]);
            } else if b == i {
                assert(now[a] == start[a]);
            } else if a == i {
                assert(now[b] == start[b - 1]);
                if b - 1 > i {
                    assert(path_before(start[i as int], start[b - 1]));
                    lemma_path_before_transitive(path@, start[i as int], start[b - 1]);
                }
            } else if a < i {
                assert(now[a] == start[a] && now[b] == start[b - 1]);
                assert(path_before(start[a], path@));
                if b - 1 > i {
                    assert(path_before(start[i as int], start[b - 1]));
                    lemma_path_before_transitive(path@, start[i as int], start[b - 1]);
                }
                lemma_path_before_transitive(start[a], path@, start[b - 1]);
            } else {
                assert(now[a] == start[a - 1] && now[b] == start[b - 1]);
            }
        }
        assert(now.to_set() =~= start.to_set().insert(path@)) by {
            assert forall|x: Seq<char>| now.to_set().contains(x) implies start.to_set().insert(
                path@,
            ).contains(x) by {
                let k = choose|k: int| 0 <= k < now.len() && now[k] == x;
                if k < i {
                    assert(start[k] == x);
                } else if k > i {
                    assert(start[k - 1] == x);
                }
            }
            assert forall|x: Seq<char>| start.to_set().insert(path@).contains(x) implies now.to_set().contains(
                x,
            ) by {
                if x == path@ {
                    assert(now[i as int] == x);
                } else {
                    let k = choose|k: int| 0 <= k < start.len() && start[k] == x;
                    if k < i {
                        assert(now[k] == x);
                    } else {
                        assert(now[k + 1] == x);
                    }
                }
            }
        }
    }
}

/// Takes `path` out of the set.
pub fn remove_path(v: &mut Vec<String>, path: &str)
    requires
        is_path_set(old(v)@),
    ensures
        is_path_set(final(v)@),
        path_set(final(v)@) == path_set(old(v)@).remove(path@),
{
    let ghost start = texts(v@);
    let p = chars_of(path);
    let mut i: usize = 0;
    while i < v.len()
        invariant
            i <= v.len(),
            v@ == old(v)@,
            start == texts(v@),
            sorted_paths(start),
            p@ == path@,
            forall|k: int| 0 <= k < i ==> #[trigger] start[k] != path@,
        decreases v.len() - i,
    {
        if crate::text::chars_equal(&chars_of(v[i].as_str()), &p) {
            v.remove(i);
            proof {
                let now = texts(v@);
                assert(now =~= start.remove(i as int));
                assert forall|a: int, b: int| 0 <= a < b < now.len() implies path_before(
                    #[trigger] now[a],
                    #[trigger] now[b],
                ) by {
                    let a0 = if a < i { a } else { a + 1 };
                    let b0 = if b < i { b } else { b + 1 };
                    assert(now[a] == start[a0] && now[b] == start[b0]);
                }
                assert(now.to_set() =~= start.to_set().remove(path@)) by {
                    assert forall|x: Seq<char>| now.to_set().contains(x) implies start.to_set().remove(
                        path@,
                    ).contains(x) by {
                        let k = choose|k: int| 0 <= k < now.len() && now[k] == x;
                        let k0 = if k < i { k } else { k + 1 };
                        assert(start[k0] == x);
                        if x == path@ {
                            assert(path_before(start[i as int], start[k0]) || path_before(
                                start[k0],
                                start[i as int],
                            ));
                            lemma_path_before_irreflexive(x);
                        }
                    }
                    assert forall|x: Seq<char>| start.to_set().remove(path@).contains(x) implies now.to_set().contains(
                        x,
                    ) by {
                        let k = choose|k: int| 0 <= k < start.len() && start[k] == x;
                        if k < i {
                            assert(now[k] == x);
                        } else {
                            assert(k != i);
                            assert(now[k - 1] == x);
                        }
                    }
                }
            }
            return;
        }
        i = i + 1;
    }
    assert(start.to_set().remove(path@) =~= start.to_set()) by {
        if start.contains(path@) {
            let k = choose|k: int| 0 <= k < start.len() && start[k] == path@;
            assert(start[k] != path@);
        }
    }
}

} // verus!
