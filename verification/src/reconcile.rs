//! The diff engine: which installed packages have an available version
//! that differs from the installed one.
//!
//! Versions are compared as strings, exact inequality only; no semantic
//! version ordering is attempted, so a downgrade counts as an update.

use vstd::prelude::*;

use crate::text::str_eq;

verus! {

/// The first indexed record whose name equals `name` and whose version
/// differs from `ver`, scanning the index from the front.
pub open spec fn find_update(
    idx: Seq<(String, String, String)>,
    name: Seq<char>,
    ver: Seq<char>,
) -> Option<(String, String, String)>
    decreases idx.len(),
{
    if idx.len() == 0 {
        None
    } else if idx[0].0@ == name && idx[0].1@ != ver {
        Some(idx[0])
    } else {
        find_update(idx.drop_first(), name, ver)
    }
}

/// One output entry `(name, installed version, available version)` per
/// installed package that has an update, in installed order.
pub open spec fn diff_spec(
    ins: Seq<(String, String)>,
    idx: Seq<(String, String, String)>,
) -> Seq<(String, String, String)>
    decreases ins.len(),
{
    if ins.len() == 0 {
        Seq::empty()
    } else {
        let prefix = diff_spec(ins.drop_last(), idx);
        match find_update(idx, ins.last().0@, ins.last().1@) {
            Some(e) => prefix.push((ins.last().0, ins.last().1, e.1)),
            None => prefix,
        }
    }
}

/// The first indexed record with this name and a different version.
fn find_first_update(
    idx: &Vec<(String, String, String)>,
    name: &String,
    ver: &String,
) -> (r: Option<(String, String, String)>)
    ensures
        r == find_update(idx@, name@, ver@),
{
    let mut j: usize = 0;
    assert(idx@.subrange(0, idx@.len() as int) =~= idx@);
    while j < idx.len()
        invariant
            j <= idx@.len(),
            find_update(idx@, name@, ver@) == find_update(
                idx@.subrange(j as int, idx@.len() as int),
                name@,
                ver@,
            ),
        decreases idx@.len() - j,
    {
        let ghost tail = idx@.subrange(j as int, idx@.len() as int);
        assert(tail[0] == idx@[j as int]);
        let e = &idx[j];
        if str_eq(e.0.as_str(), name.as_str()) && !str_eq(e.1.as_str(), ver.as_str()) {
            return Some((e.0.clone(), e.1.clone(), e.2.clone()));
        }
        assert(tail.drop_first() =~= idx@.subrange(j + 1 as int, idx@.len() as int));
        j += 1;
    }
    None
}

/// Computes, for every installed package, whether an indexed record with
/// the same name carries a different version string; emits one triple
/// `(name, installed version, available version)` per such package.
/// Output order follows the order of `installed`.
pub fn diff(
    installed: &Vec<(String, String)>,
    online_versions: &Vec<(String, String, String)>,
) -> (r: Vec<(String, String, String)>)
    ensures
        r@ == diff_spec(installed@, online_versions@),
{
    let mut r: Vec<(String, String, String)> = Vec::new();
    let mut i: usize = 0;
    while i < installed.len()
        invariant
            i <= installed@.len(),
            r@ == diff_spec(installed@.subrange(0, i as int), online_versions@),
        decreases installed@.len() - i,
    {
        let p = &installed[i];
        let hit = find_first_update(online_versions, &p.0, &p.1);
        proof {
            let pre = installed@.subrange(0, i + 1 as int);
            assert(pre.drop_last() =~= installed@.subrange(0, i as int));
            assert(pre.last() == installed@[i as int]);
        }
        match hit {
            Some(e) => {
                r.push((p.0.clone(), p.1.clone(), e.1));
            },
            None => {},
        }
        i += 1;
    }
    assert(installed@.subrange(0, i as int) =~= installed@);
    r
}

/// `find_update` succeeds exactly when some indexed record has this name
/// and a different version.
pub proof fn lemma_find_update_iff(
    idx: Seq<(String, String, String)>,
    name: Seq<char>,
    ver: Seq<char>,
)
    ensures
        find_update(idx, name, ver) is Some <==> exists|e: (String, String, String)|
            #[trigger] idx.contains(e) && e.0@ == name && e.1@ != ver,
    decreases idx.len(),
{
    if idx.len() > 0 {
        if idx[0].0@ == name && idx[0].1@ != ver {
            assert(idx.contains(idx[0]));
        } else {
            lemma_find_update_iff(idx.drop_first(), name, ver);
            if find_update(idx, name, ver) is Some {
                let e = choose|e: (String, String, String)|
                    #[trigger] idx.drop_first().contains(e) && e.0@ == name && e.1@ != ver;
                let j = choose|j: int|
                    0 <= j < idx.drop_first().len() && idx.drop_first()[j] == e;
                assert(idx[j + 1] == e);
                assert(idx.contains(e));
            }
            if exists|e: (String, String, String)|
                #[trigger] idx.contains(e) && e.0@ == name && e.1@ != ver {
                let e = choose|e: (String, String, String)|
                    #[trigger] idx.contains(e) && e.0@ == name && e.1@ != ver;
                let j = choose|j: int| 0 <= j < idx.len() && idx[j] == e;
                assert(j != 0);
                assert(idx.drop_first()[j - 1] == e);
                assert(idx.drop_first().contains(e));
            }
        }
    }
}

/// The names in the diff output are exactly the names of the installed
/// packages that have an update, in installed order: the output follows
/// the `installed` input order.
pub proof fn lemma_diff_follows_installed(
    ins: Seq<(String, String)>,
    idx: Seq<(String, String, String)>,
)
    ensures
        diff_spec(ins, idx).map_values(|t: (String, String, String)| t.0) == ins.filter(
            |p: (String, String)| find_update(idx, p.0@, p.1@) is Some,
        ).map_values(|p: (String, String)| p.0),
    decreases ins.len(),
{
    let names = |t: (String, String, String)| t.0;
    let ins_names = |p: (String, String)| p.0;
    let pred = |p: (String, String)| find_update(idx, p.0@, p.1@) is Some;
    if ins.len() == 0 {
        assert(diff_spec(ins, idx).map_values(names) =~= Seq::<String>::empty());
        reveal(Seq::filter);
        assert(ins.filter(pred).map_values(ins_names) =~= Seq::<String>::empty());
    } else {
        lemma_diff_follows_installed(ins.drop_last(), idx);
        crate::database::lemma_filter_push(ins.drop_last(), ins.last(), pred);
        assert(ins.drop_last().push(ins.last()) =~= ins);
        match find_update(idx, ins.last().0@, ins.last().1@) {
            Some(e) => {
                assert(diff_spec(ins, idx).map_values(names) =~= diff_spec(
                    ins.drop_last(),
                    idx,
                ).map_values(names).push(ins.last().0));
                assert(ins.filter(pred).map_values(ins_names) =~= ins.drop_last().filter(
                    pred,
                ).map_values(ins_names).push(ins.last().0));
            },
            None => {
                assert(diff_spec(ins, idx) == diff_spec(ins.drop_last(), idx));
                assert(ins.filter(pred) == ins.drop_last().filter(pred));
            },
        }
    }
}

/// Whether an update exists for a package does not depend on the order of
/// the index: it only asks for a matching record to be present.
pub proof fn lemma_find_update_order_independent(
    idx1: Seq<(String, String, String)>,
    idx2: Seq<(String, String, String)>,
    name: Seq<char>,
    ver: Seq<char>,
)
    requires
        idx1.to_multiset() == idx2.to_multiset(),
    ensures
        find_update(idx1, name, ver) is Some <==> find_update(idx2, name, ver) is Some,
{
    broadcast use vstd::seq_lib::group_to_multiset_ensures;

    lemma_find_update_iff(idx1, name, ver);
    lemma_find_update_iff(idx2, name, ver);
    assert forall|e: (String, String, String)| idx1.contains(e) implies idx2.contains(e) by {
        assert(idx1.to_multiset().count(e) > 0);
    }
    assert forall|e: (String, String, String)| idx2.contains(e) implies idx1.contains(e) by {
        assert(idx2.to_multiset().count(e) > 0);
    }
}

/// The sequence of names the diff emits is the same for any two indexes
/// that hold the same records, whatever their order: output order is
/// governed by `installed` alone.
pub proof fn lemma_diff_order_independent(
    ins: Seq<(String, String)>,
    idx1: Seq<(String, String, String)>,
    idx2: Seq<(String, String, String)>,
)
    requires
        idx1.to_multiset() == idx2.to_multiset(),
    ensures
        diff_spec(ins, idx1).map_values(|t: (String, String, String)| t.0) == diff_spec(
            ins,
            idx2,
        ).map_values(|t: (String, String, String)| t.0),
    decreases ins.len(),
{
    let names = |t: (String, String, String)| t.0;
    if ins.len() == 0 {
        assert(diff_spec(ins, idx1).map_values(names) =~= diff_spec(ins, idx2).map_values(names));
    } else {
        lemma_diff_order_independent(ins.drop_last(), idx1, idx2);
        lemma_find_update_order_independent(idx1, idx2, ins.last().0@, ins.last().1@);
        match find_update(idx1, ins.last().0@, ins.last().1@) {
            Some(e1) => {
                let e2 = find_update(idx2, ins.last().0@, ins.last().1@)->Some_0;
                assert(diff_spec(ins, idx1).map_values(names) =~= diff_spec(
                    ins.drop_last(),
                    idx1,
                ).map_values(names).push(ins.last().0));
                assert(diff_spec(ins, idx2).map_values(names) =~= diff_spec(
                    ins.drop_last(),
                    idx2,
                ).map_values(names).push(ins.last().0));
            },
            None => {},
        }
    }
}

} // verus!
