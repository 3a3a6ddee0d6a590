//! Output-side grouping: splitting the deduplicated entities into one
//! group per architecture, for the caller's per-architecture files.
use vstd::prelude::*;
use crate::model::{entity_views, AppImageRelease, ReleaseV};
use crate::text::str_eq;

verus! {

/// The name a group is filed under: the entity's architecture, or
/// `unknown` when it has none.
pub open spec fn spec_arch_key(e: ReleaseV) -> Seq<char> {
    match e.architecture {
        Some(a) => a,
        None => "unknown"@,
    }
}

/// The first group at or after `i` filed under `key`.
pub open spec fn find_group_from(
    s: Seq<(Seq<char>, Seq<ReleaseV>)>,
    key: Seq<char>,
    i: int,
) -> Option<int>
    decreases s.len() - i when 0 <= i <= s.len()
{
    if i >= s.len() {
        None
    } else if s[i].0 == key {
        Some(i)
    } else {
        find_group_from(s, key, i + 1)
    }
}

/// One grouping step: append the entity to its architecture's group, or
/// open a new group at the end.
pub open spec fn group_step(
    acc: Seq<(Seq<char>, Seq<ReleaseV>)>,
    e: ReleaseV,
) -> Seq<(Seq<char>, Seq<ReleaseV>)> {
    match find_group_from(acc, spec_arch_key(e), 0) {
        Some(j) => acc.update(j, (acc[j].0, acc[j].1.push(e))),
        None => acc.push((spec_arch_key(e), seq![e])),
    }
}

/// The entities grouped by architecture, groups in first-seen order,
/// entities in input order within each group.
pub open spec fn spec_groups(s: Seq<ReleaseV>) -> Seq<(Seq<char>, Seq<ReleaseV>)>
    decreases s.len()
{
    if s.len() == 0 {
        Seq::empty()
    } else {
        group_step(spec_groups(s.drop_last()), s.last())
    }
}

/// The views of a run of built groups.
pub open spec fn group_views(s: Seq<(String, Vec<AppImageRelease>)>) -> Seq<
    (Seq<char>, Seq<ReleaseV>)> {
    Seq::new(s.len(), |i: int| (s[i].0@, entity_views(s[i].1@)))
}

/// The architecture name an entity is filed under (runtime form of
/// `spec_arch_key`).
fn arch_key(e: &AppImageRelease) -> (r: String)
    ensures
        r@ == spec_arch_key(e@),
{
    match &e.architecture {
        Some(a) => a.clone(),
        None => String::from_str("unknown"),
    }
}

/// Finds the group filed under `key`.
fn find_group(out: &Vec<(String, Vec<AppImageRelease>)>, key: &str) -> (r: Option<usize>)
    ensures
        match r {
            Some(j) => j < out@.len() && find_group_from(group_views(out@), key@, 0) == Some(
                j as int),
            None => find_group_from(group_views(out@), key@, 0) is None,
        },
{
    let mut j: usize = 0;
    while j < out.len()
        invariant
            j <= out@.len(),
            find_group_from(group_views(out@), key@, 0) == find_group_from(
                group_views(out@), key@, j as int),
        decreases out@.len() - j
    {
        if str_eq(out[j].0.as_str(), key) {
            assert(group_views(out@)[j as int].0 == out@[j as int].0@);
            return Some(j);
        }
        assert(group_views(out@)[j as int].0 == out@[j as int].0@);
        j += 1;
    }
    None
}

/// Splits the result collection into one group per architecture
/// (runtime form of `spec_groups`); downstream encoders write one file
/// per group.
pub fn group_by_architecture(results: &Vec<AppImageRelease>) -> (r: Vec<
    (String, Vec<AppImageRelease>)>)
    ensures
        group_views(r@) == spec_groups(entity_views(results@)),
{
    let mut out: Vec<(String, Vec<AppImageRelease>)> = Vec::new();
    let mut i: usize = 0;
    proof {
        assert(entity_views(results@.take(0)) =~= Seq::<ReleaseV>::empty());
        assert(group_views(out@) =~= Seq::<(Seq<char>, Seq<ReleaseV>)>::empty());
    }
    while i < results.len()
        invariant
            i <= results@.len(),
            group_views(out@) == spec_groups(entity_views(results@.take(i as int))),
        decreases results@.len() - i
    {
        let ghost pre = entity_views(results@.take(i as int));
        let ghost cur = entity_views(results@.take(i as int + 1));
        proof {
            assert(cur.drop_last() =~= pre);
            assert(cur.last() == results@[i as int]@);
        }
        let item = &results[i];
        let key = arch_key(item);
        match find_group(&out, key.as_str()) {
            Some(j) => {
                let ghost oldg = group_views(out@);
                let mut group = out.remove(j);
                group.1.push(item.clone());
                out.insert(j, group);
                proof {
                    assert(group_views(out@) =~~= oldg.update(
                        j as int, (oldg[j as int].0, oldg[j as int].1.push(cur.last()))));
                }
            },
            None => {
                let mut group: Vec<AppImageRelease> = Vec::new();
                group.push(item.clone());
                out.push((key, group));
                proof {
                    assert(group_views(out@) =~~= spec_groups(pre).push(
                        (spec_arch_key(cur.last()), seq![cur.last()])));
                }
            },
        }
        i += 1;
    }
    proof {
        assert(results@.take(results@.len() as int) =~= results@);
    }
    out
}

} // verus!
