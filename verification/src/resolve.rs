//! Column resolution: mapping logical field names to positions in the
//! header row, tolerating spelling variants.

use vstd::prelude::*;
use crate::text::{ci_eq, str_ci_trim_eq, str_eq, trimmed};

verus! {

/// Index of the first header equal to `name`, or `hs.len()` if none is.
pub open spec fn first_exact(hs: Seq<Seq<char>>, name: Seq<char>) -> int
    decreases hs.len(),
{
    if hs.len() == 0 {
        0
    } else if hs[0] == name {
        0
    } else {
        1 + first_exact(hs.drop_first(), name)
    }
}

/// Index of the first header that matches `name` after trimming and ASCII
/// case folding, or `hs.len()` if none does.
pub open spec fn first_ci(hs: Seq<Seq<char>>, name: Seq<char>) -> int
    decreases hs.len(),
{
    if hs.len() == 0 {
        0
    } else if ci_eq(trimmed(hs[0]), trimmed(name)) {
        0
    } else {
        1 + first_ci(hs.drop_first(), name)
    }
}

/// Position of the header for logical field `name`: the first exact match,
/// else the first trimmed case-insensitive match, else `None`.
pub open spec fn find_idx_spec(hs: Seq<Seq<char>>, name: Seq<char>) -> Option<int> {
    if first_exact(hs, name) < hs.len() {
        Some(first_exact(hs, name))
    } else if first_ci(hs, name) < hs.len() {
        Some(first_ci(hs, name))
    } else {
        None
    }
}

/// Position of the first resolvable name among the candidates `names`.
pub open spec fn resolve_spec(hs: Seq<Seq<char>>, names: Seq<Seq<char>>) -> Option<int>
    decreases names.len(),
{
    if names.len() == 0 {
        None
    } else if find_idx_spec(hs, names[0]) is Some {
        find_idx_spec(hs, names[0])
    } else {
        resolve_spec(hs, names.drop_first())
    }
}

proof fn lemma_first_exact_le(hs: Seq<Seq<char>>, name: Seq<char>)
    ensures
        0 <= first_exact(hs, name) <= hs.len(),
    decreases hs.len(),
{
    if hs.len() > 0 && hs[0] != name {
        lemma_first_exact_le(hs.drop_first(), name);
    }
}

proof fn lemma_first_exact_at(hs: Seq<Seq<char>>, name: Seq<char>, k: int)
    requires
        0 <= k <= hs.len(),
        forall|m: int| 0 <= m < k ==> hs[m] != name,
        k == hs.len() || hs[k] == name,
    ensures
        first_exact(hs, name) == k,
    decreases k,
{
    if k > 0 {
        lemma_first_exact_at(hs.drop_first(), name, k - 1);
    }
}

proof fn lemma_first_ci_le(hs: Seq<Seq<char>>, name: Seq<char>)
    ensures
        0 <= first_ci(hs, name) <= hs.len(),
    decreases hs.len(),
{
    if hs.len() > 0 && !ci_eq(trimmed(hs[0]), trimmed(name)) {
        lemma_first_ci_le(hs.drop_first(), name);
    }
}

proof fn lemma_first_ci_at(hs: Seq<Seq<char>>, name: Seq<char>, k: int)
    requires
        0 <= k <= hs.len(),
        forall|m: int| 0 <= m < k ==> !ci_eq(trimmed(#[trigger] hs[m]), trimmed(name)),
        k == hs.len() || ci_eq(trimmed(hs[k]), trimmed(name)),
    ensures
        first_ci(hs, name) == k,
    decreases k,
{
    if k > 0 {
        lemma_first_ci_at(hs.drop_first(), name, k - 1);
    }
}

/// Resolves one logical field name against the header row: first an exact
/// match, then a trimmed, case-insensitive match.
pub fn find_idx(headers: &Vec<String>, name: &str) -> (r: Option<usize>)
    ensures
        r is None <==> find_idx_spec(headers.deep_view(), name@) is None,
        r matches Some(i) ==> find_idx_spec(headers.deep_view(), name@) == Some(i as int)
            && i < headers@.len(),
{
    let ghost hs = headers.deep_view();
    let n = headers.len();
    let mut i: usize = 0;
    while i < n
        invariant
            0 <= i <= n == headers@.len(),
            hs == headers.deep_view(),
            hs.len() == n,
            forall|m: int| 0 <= m < i ==> hs[m] != name@,
        decreases n - i,
    {
        proof {
            assert(hs[i as int] == headers@[i as int]@);
        }
        if str_eq(headers[i].as_str(), name) {
            proof {
                lemma_first_exact_at(hs, name@, i as int);
            }
            return Some(i);
        }
        i = i + 1;
    }
    proof {
        lemma_first_exact_at(hs, name@, n as int);
    }
    let mut j: usize = 0;
    while j < n
        invariant
            0 <= j <= n == headers@.len(),
            hs == headers.deep_view(),
            hs.len() == n,
            first_exact(hs, name@) == n,
            forall|m: int| 0 <= m < j ==> !ci_eq(trimmed(#[trigger] hs[m]), trimmed(name@)),
        decreases n - j,
    {
        proof {
            assert(hs[j as int] == headers@[j as int]@);
        }
        if str_ci_trim_eq(headers[j].as_str(), name) {
            proof {
                lemma_first_ci_at(hs, name@, j as int);
            }
            return Some(j);
        }
        j = j + 1;
    }
    proof {
        lemma_first_ci_at(hs, name@, n as int);
    }
    None
}

proof fn lemma_resolve_skip(hs: Seq<Seq<char>>, names: Seq<Seq<char>>, i: int)
    requires
        0 <= i <= names.len(),
        forall|m: int| 0 <= m < i ==> find_idx_spec(hs, #[trigger] names[m]) is None,
    ensures
        resolve_spec(hs, names) == resolve_spec(hs, names.skip(i)),
    decreases i,
{
    if i == 0 {
        assert(names.skip(0) =~= names);
    } else {
        assert(names.drop_first().skip(i - 1) =~= names.skip(i));
        assert(forall|m: int|
            0 <= m < i - 1 ==> find_idx_spec(hs, #[trigger] names.drop_first()[m]) is None);
        lemma_resolve_skip(hs, names.drop_first(), i - 1);
    }
}

/// Resolves a logical field against the header row, taking the first of
/// the candidate names (aliases) that resolves.
pub fn resolve(headers: &Vec<String>, names: &Vec<&str>) -> (r: Option<usize>)
    ensures
        r is None <==> resolve_spec(headers.deep_view(), names.deep_view()) is None,
        r matches Some(i) ==> resolve_spec(headers.deep_view(), names.deep_view())
            == Some(i as int) && i < headers@.len(),
{
    let ghost hs = headers.deep_view();
    let ghost nv = names.deep_view();
    let n = names.len();
    let mut i: usize = 0;
    while i < n
        invariant
            0 <= i <= n == names@.len(),
            hs == headers.deep_view(),
            nv == names.deep_view(),
            nv.len() == n,
            forall|m: int| 0 <= m < i ==> find_idx_spec(hs, #[trigger] nv[m]) is None,
        decreases n - i,
    {
        proof {
            assert(nv[i as int] == names@[i as int]@);
        }
        let r = find_idx(headers, names[i]);
        if r.is_some() {
            proof {
                lemma_resolve_skip(hs, nv, i as int);
                assert(nv.skip(i as int)[0] == nv[i as int]);
            }
            return r;
        }
        i = i + 1;
    }
    proof {
        lemma_resolve_skip(hs, nv, n as int);
        assert(nv.skip(n as int) =~= Seq::<Seq<char>>::empty());
    }
    None
}

} // verus!
