//! Helpers for the tag index: duplicate-free ID lists keyed by tag text.

use vstd::prelude::*;
use vstd::hash_map::StringHashMap;
use crate::settings::copy_u64_vec;

verus! {

/// Whether some string of `s` has the text `t`.
pub open spec fn has_text(s: Seq<String>, t: Seq<char>) -> bool {
    exists|i: int| 0 <= i < s.len() && s[i]@ == t
}

/// Whether the strings of `s` are pairwise distinct texts.
pub open spec fn distinct_texts(s: Seq<String>) -> bool {
    forall|i: int, j: int| 0 <= i < j < s.len() ==> s[i]@ != s[j]@
}

/// Checks `has_text` at run time.
pub fn contains_text(v: &Vec<String>, s: &String) -> (r: bool)
    ensures
        r == has_text(v@, s@),
{
    let mut i: usize = 0;
    while i < v.len()
        invariant
            i <= v@.len(),
            forall|k: int| 0 <= k < i ==> v@[k]@ != s@,
        decreases v@.len() - i,
    {
        if v[i].eq(s) {
            return true;
        }
        i = i + 1;
    }
    false
}

/// Keeps the first string of each distinct text, dropping later repeats.
pub fn dedup_texts(v: &Vec<String>) -> (r: Vec<String>)
    ensures
        distinct_texts(r@),
        forall|t: Seq<char>| has_text(r@, t) <==> has_text(v@, t),
{
    let mut r: Vec<String> = Vec::new();
    let mut i: usize = 0;
    while i < v.len()
        invariant
            i <= v@.len(),
            distinct_texts(r@),
            forall|t: Seq<char>| has_text(r@, t) <==> has_text(v@.take(i as int), t),
        decreases v@.len() - i,
    {
        let ghost pre = r@;
        if !contains_text(&r, &v[i]) {
            r.push(v[i].clone());
        }
        proof {
            assert forall|t: Seq<char>| has_text(r@, t) implies has_text(
                v@.take(i + 1),
                t,
            ) by {
                let w = choose|k: int| 0 <= k < r@.len() && r@[k]@ == t;
                if w < pre.len() {
                    assert(has_text(pre, t));
                    let u = choose|k: int| 0 <= k < i && v@.take(i as int)[k]@ == t;
                    assert(v@.take(i + 1)[u]@ == t);
                } else {
                    assert(v@.take(i + 1)[i as int]@ == t);
                }
            }
            assert forall|t: Seq<char>| has_text(v@.take(i + 1), t) implies has_text(
                r@,
                t,
            ) by {
                let u = choose|k: int| 0 <= k < i + 1 && #[trigger] v@.take(i + 1)[k]@ == t;
                if u < i {
                    assert(v@.take(i as int)[u]@ == t);
                    assert(has_text(v@.take(i as int), t));
                    assert(has_text(pre, t));
                    let w = choose|k: int| 0 <= k < pre.len() && pre[k]@ == t;
                    assert(r@[w]@ == t);
                } else {
                    assert(v@[i as int]@ == t);
                    if has_text(pre, t) {
                        let w = choose|k: int| 0 <= k < pre.len() && pre[k]@ == t;
                        assert(r@[w]@ == t);
                    } else {
                        assert(r@[r@.len() - 1]@ == t);
                    }
                }
            }
        }
        i = i + 1;
    }
    proof {
        assert(v@.take(v@.len() as int) =~= v@);
    }
    r
}

/// Inserts `id` into the ID list of every text of `texts`, creating entries
/// for texts the index has not seen.
pub fn tag_index_add(tags: &mut StringHashMap<Vec<u64>>, texts: &Vec<String>, id: u64)
    requires
        distinct_texts(texts@),
        forall|t: Seq<char>| #[trigger]
            old(tags)@.contains_key(t) ==> !old(tags)@[t]@.contains(id),
    ensures
        forall|t: Seq<char>| #[trigger]
            final(tags)@.contains_key(t) <==> (old(tags)@.contains_key(t) || has_text(texts@, t)),
        forall|t: Seq<char>|
            has_text(texts@, t) ==> #[trigger] final(tags)@[t]@ == if old(tags)@.contains_key(t) {
                old(tags)@[t]@.push(id)
            } else {
                seq![id]
            },
        forall|t: Seq<char>|
            old(tags)@.contains_key(t) && !has_text(texts@, t) ==> #[trigger] final(tags)@[t]@
                == old(tags)@[t]@,
{
    let ghost pre = tags@;
    let mut k: usize = 0;
    while k < texts.len()
        invariant
            k <= texts@.len(),
            distinct_texts(texts@),
            forall|t: Seq<char>| #[trigger] pre.contains_key(t) ==> !pre[t]@.contains(id),
            forall|t: Seq<char>| #[trigger]
                tags@.contains_key(t) <==> (pre.contains_key(t) || has_text(
                    texts@.take(k as int),
                    t,
                )),
            forall|t: Seq<char>|
                has_text(texts@.take(k as int), t) ==> #[trigger] tags@[t]@ == if pre.contains_key(
                    t,
                ) {
                    pre[t]@.push(id)
                } else {
                    seq![id]
                },
            forall|t: Seq<char>|
                pre.contains_key(t) && !has_text(texts@.take(k as int), t) ==> #[trigger] tags@[t]@
                    == pre[t]@,
        decreases texts@.len() - k,
    {
        let text = &texts[k];
        proof {
            assert(!has_text(texts@.take(k as int), text@));
        }
        let mut v2: Vec<u64>;
        match tags.get(text.as_str()) {
            Some(v) => {
                v2 = copy_u64_vec(v);
                v2.push(id);
            },
            None => {
                v2 = Vec::new();
                v2.push(id);
            },
        }
        tags.insert(text.clone(), v2);
        proof {
            if !pre.contains_key(text@) {
                assert(tags@[text@]@ =~= seq![id]);
            }
            assert forall|t: Seq<char>| has_text(texts@.take(k + 1), t) implies #[trigger] tags@[
                t
            ]@ == (if pre.contains_key(t) {
                pre[t]@.push(id)
            } else {
                seq![id]
            }) by {
                let u = choose|u: int| 0 <= u < k + 1 && #[trigger] texts@.take(k + 1)[u]@ == t;
                if u < k {
                    assert(has_text(texts@.take(k as int), t));
                    assert(t != text@);
                } else {
                    assert(t == text@);
                }
            }
            assert forall|t: Seq<char>| #[trigger]
                tags@.contains_key(t) implies (pre.contains_key(t) || has_text(
                texts@.take(k + 1),
                t,
            )) by {
                if t == text@ {
                    assert(texts@.take(k + 1)[k as int]@ == t);
                }
            }
            assert forall|t: Seq<char>|
                (pre.contains_key(t) || has_text(texts@.take(k + 1), t)) implies #[trigger] tags@
                .contains_key(t) by {
                if has_text(texts@.take(k + 1), t) {
                    let u = choose|u: int| 0 <= u < k + 1 && #[trigger] texts@.take(k + 1)[u]@ == t;
                    if u < k {
                        assert(texts@.take(k as int)[u]@ == t);
                        assert(has_text(texts@.take(k as int), t));
                    }
                }
            }
            assert forall|t: Seq<char>|
                pre.contains_key(t) && !has_text(texts@.take(k + 1), t) implies #[trigger] tags@[
                t
            ]@ == pre[t]@ by {
                assert(texts@.take(k + 1)[k as int]@ == text@);
                assert(t != text@);
                if has_text(texts@.take(k as int), t) {
                    let u = choose|u: int| 0 <= u < k && #[trigger] texts@.take(k as int)[u]@ == t;
                    assert(texts@.take(k + 1)[u]@ == t);
                }
            }
        }
        k = k + 1;
    }
    proof {
        assert(texts@.take(texts@.len() as int) =~= texts@);
    }
}

/// Removes the first occurrence of `x` from `v`, if any.
pub fn remove_first_u64(v: &mut Vec<u64>, x: u64)
    ensures
        old(v)@.contains(x) ==> exists|idx: int|
            0 <= idx < old(v)@.len() && old(v)@[idx] == x && final(v)@ == #[trigger] old(
                v,
            )@.remove(idx),
        !old(v)@.contains(x) ==> final(v)@ == old(v)@,
{
    let mut i: usize = 0;
    while i < v.len()
        invariant
            i <= v@.len(),
            v@ == old(v)@,
            forall|k: int| 0 <= k < i ==> v@[k] != x,
        decreases v@.len() - i,
    {
        if v[i] == x {
            v.remove(i);
            proof {
                assert(old(v)@[i as int] == x);
            }
            return ;
        }
        i = i + 1;
    }
}

/// Membership in a duplicate-free sequence after removing one index.
pub proof fn lemma_remove_membership(s: Seq<u64>, idx: int)
    requires
        0 <= idx < s.len(),
        forall|i: int, j: int| 0 <= i < j < s.len() ==> s[i] != s[j],
    ensures
        forall|x: u64| #[trigger] s.remove(idx).contains(x) <==> (s.contains(x) && x != s[idx]),
        forall|i: int, j: int|
            0 <= i < j < s.remove(idx).len() ==> s.remove(idx)[i] != s.remove(idx)[j],
{
    let r = s.remove(idx);
    assert forall|x: u64| #[trigger] r.contains(x) implies s.contains(x) && x != s[idx] by {
        let w = choose|w: int| 0 <= w < r.len() && r[w] == x;
        if w < idx {
            assert(s[w] == x);
        } else {
            assert(s[w + 1] == x);
        }
    }
    assert forall|x: u64| s.contains(x) && x != s[idx] implies #[trigger] r.contains(x) by {
        let w = choose|w: int| 0 <= w < s.len() && s[w] == x;
        if w < idx {
            assert(r[w] == x);
        } else {
            assert(w > idx);
            assert(r[w - 1] == x);
        }
    }
    assert forall|i: int, j: int| 0 <= i < j < r.len() implies r[i] != r[j] by {
        let a: int = if i < idx { i } else { i + 1 };
        let b: int = if j < idx { j } else { j + 1 };
        assert(r[i] == s[a]);
        assert(r[j] == s[b]);
    }
}

/// Removes the first string with the text of `s` from `v`, if any.
pub fn remove_first_text(v: &mut Vec<String>, s: &String)
    ensures
        has_text(old(v)@, s@) ==> exists|idx: int|
            0 <= idx < old(v)@.len() && old(v)@[idx]@ == s@ && final(v)@ == #[trigger] old(
                v,
            )@.remove(idx),
        !has_text(old(v)@, s@) ==> final(v)@ == old(v)@,
{
    let mut i: usize = 0;
    while i < v.len()
        invariant
            i <= v@.len(),
            v@ == old(v)@,
            forall|k: int| 0 <= k < i ==> v@[k]@ != s@,
        decreases v@.len() - i,
    {
        if v[i].eq(s) {
            let ghost idx = i as int;
            v.remove(i);
            proof {
                assert(old(v)@[idx]@ == s@);
                assert(has_text(old(v)@, s@));
            }
            return ;
        }
        i = i + 1;
    }
    proof {
        if has_text(v@, s@) {
            let w = choose|w: int| 0 <= w < v@.len() && v@[w]@ == s@;
            assert(false);
        }
    }
}

/// Removes `id` from the ID list of every text of `texts`.
pub fn tag_index_remove(tags: &mut StringHashMap<Vec<u64>>, texts: &Vec<String>, id: u64)
    requires
        forall|t: Seq<char>, i: int, j: int|
            old(tags)@.contains_key(t) && 0 <= i < j < old(tags)@[t]@.len() ==> old(tags)@[t]@[i]
                != old(tags)@[t]@[j],
    ensures
        forall|t: Seq<char>| #[trigger]
            final(tags)@.contains_key(t) <==> old(tags)@.contains_key(t),
        forall|t: Seq<char>, x: u64|
            final(tags)@.contains_key(t) ==> (#[trigger] final(tags)@[t]@.contains(x) <==> (old(
                tags,
            )@[t]@.contains(x) && !(x == id && has_text(texts@, t)))),
        forall|t: Seq<char>, i: int, j: int|
            final(tags)@.contains_key(t) && 0 <= i < j < final(tags)@[t]@.len() ==> final(tags)@[
                t
            ]@[i] != final(tags)@[t]@[j],
{
    let ghost pre = tags@;
    let mut k: usize = 0;
    while k < texts.len()
        invariant
            k <= texts@.len(),
            forall|t: Seq<char>, i: int, j: int|
                pre.contains_key(t) && 0 <= i < j < pre[t]@.len() ==> pre[t]@[i] != pre[t]@[j],
            forall|t: Seq<char>| #[trigger] tags@.contains_key(t) <==> pre.contains_key(t),
            forall|t: Seq<char>, x: u64|
                tags@.contains_key(t) ==> (#[trigger] tags@[t]@.contains(x) <==> (pre[t]@.contains(
                    x,
                ) && !(x == id && has_text(texts@.take(k as int), t)))),
            forall|t: Seq<char>, i: int, j: int|
                tags@.contains_key(t) && 0 <= i < j < tags@[t]@.len() ==> tags@[t]@[i] != tags@[
                    t
                ]@[j],
        decreases texts@.len() - k,
    {
        let ghost tpre = tags@;
        let text = &texts[k];
        let found = tags.get(text.as_str());
        match found {
            Some(v) => {
                let mut v2 = copy_u64_vec(v);
                let ghost vpre = v2@;
                remove_first_u64(&mut v2, id);
                let ghost vnew = v2@;
                tags.insert(text.clone(), v2);
                proof {
                    assert(tpre.contains_key(text@));
                    assert(forall|i: int, j: int|
                        0 <= i < j < vpre.len() ==> vpre[i] != vpre[j]);
                    if vpre.contains(id) {
                        let idx = choose|idx: int|
                            0 <= idx < vpre.len() && vpre[idx] == id && vnew == #[trigger] vpre.remove(
                                idx,
                            );
                        assert forall|x: u64| #[trigger]
                            vnew.contains(x) implies vpre.contains(x) && x != id by {
                            let w = choose|w: int| 0 <= w < vnew.len() && vnew[w] == x;
                            if w < idx {
                                assert(vpre[w] == x);
                            } else {
                                assert(vpre[w + 1] == x);
                            }
                        }
                        assert forall|x: u64|
                            vpre.contains(x) && x != id implies #[trigger] vnew.contains(x) by {
                            let w = choose|w: int| 0 <= w < vpre.len() && vpre[w] == x;
                            if w < idx {
                                assert(vnew[w] == x);
                            } else {
                                assert(w > idx);
                                assert(vnew[w - 1] == x);
                            }
                        }
                        assert forall|i: int, j: int|
                            0 <= i < j < vnew.len() implies vnew[i] != vnew[j] by {
                            let a: int = if i < idx {
                                i
                            } else {
                                i + 1
                            };
                            let b: int = if j < idx {
                                j
                            } else {
                                j + 1
                            };
                            assert(vnew[i] == vpre[a]);
                            assert(vnew[j] == vpre[b]);
                        }
                    }
                    assert(forall|x: u64|
                        #[trigger] vnew.contains(x) <==> (vpre.contains(x) && x != id));
                    assert(tags@[text@]@ == vnew);
                }
            },
            None => {
                proof {
                    assert(!tpre.contains_key(text@));
                }
            },
        }
        proof {
            assert forall|t: Seq<char>| #[trigger]
                tags@.contains_key(t) <==> pre.contains_key(t) by {}
            assert forall|t: Seq<char>, x: u64|
                tags@.contains_key(t) implies (#[trigger] tags@[t]@.contains(x) <==> (
            pre[t]@.contains(x) && !(x == id && has_text(texts@.take(k + 1), t)))) by {
                assert(texts@.take(k + 1)[k as int]@ == text@);
                assert(has_text(texts@.take(k + 1), text@));
                if t == text@ {
                    if tpre.contains_key(t) {
                        assert(tags@[t]@.contains(x) <==> (tpre[t]@.contains(x) && x != id));
                        assert(tpre[t]@.contains(x) <==> (pre[t]@.contains(x) && !(x == id
                            && has_text(texts@.take(k as int), t))));
                    }
                } else {
                    assert(tags@[t]@ == tpre[t]@);
                    if has_text(texts@.take(k as int), t) {
                        let u = choose|u: int|
                            0 <= u < k && #[trigger] texts@.take(k as int)[u]@ == t;
                        assert(texts@.take(k + 1)[u]@ == t);
                        assert(has_text(texts@.take(k + 1), t));
                    }
                    if has_text(texts@.take(k + 1), t) {
                        let u = choose|u: int|
                            0 <= u < k + 1 && #[trigger] texts@.take(k + 1)[u]@ == t;
                        assert(u != k);
                        assert(texts@.take(k as int)[u]@ == t);
                        assert(has_text(texts@.take(k as int), t));
                    }
                }
            }
        }
        k = k + 1;
    }
    proof {
        assert(texts@.take(texts@.len() as int) =~= texts@);
    }
}

} // verus!
