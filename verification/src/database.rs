//! Records and the in-memory package index: case-insensitive substring
//! search, denylist filtering, bulk replacement, and the freshness and
//! rebuild decisions.

use vstd::prelude::*;
use vstd::string::StringExecFns;

use crate::text::{chars_of, contains_chars, contains_seq, lower_of, lowercase, str_eq};

verus! {

/// One cached package record. The refresh engine lowercases `name` and
/// `description` before a record is stored, so search and lookup are
/// case-insensitive against the stored fields.
pub struct Crate {
    pub name: String,
    pub version: String,
    pub description: String,
}

impl View for Crate {
    type V = (Seq<char>, Seq<char>, Seq<char>);

    open spec fn view(&self) -> (Seq<char>, Seq<char>, Seq<char>) {
        (self.name@, self.version@, self.description@)
    }
}

impl Clone for Crate {
    fn clone(&self) -> (r: Crate)
        ensures
            r == *self,
    {
        Crate { name: self.name.clone(), version: self.version.clone(), description: self.description.clone() }
    }
}

/// `name` occurs in `names` (by character content).
pub open spec fn name_in_list(names: Seq<String>, name: Seq<char>) -> bool {
    exists|i: int| 0 <= i < names.len() && names[i]@ == name
}

/// The record matches a (lowercased) needle: the needle occurs in the
/// stored name or in the stored description.
pub open spec fn record_matches(c: Crate, needle: Seq<char>) -> bool {
    contains_seq(c.name@, needle) || contains_seq(c.description@, needle)
}

/// Unfolds one step of `Seq::filter` at the back.
pub proof fn lemma_filter_push<A>(s: Seq<A>, x: A, pred: spec_fn(A) -> bool)
    ensures
        (s.push(x)).filter(pred) == if pred(x) {
            s.filter(pred).push(x)
        } else {
            s.filter(pred)
        },
{
    reveal(Seq::filter);
    assert(s.push(x).drop_last() =~= s);
    assert(s.push(x).last() == x);
}

/// The in-memory package index together with the denylist that was loaded
/// beside it. The index order is storage order: search preserves it.
pub struct Database {
    pub crates: Vec<Crate>,
    pub blacklist: Vec<String>,
}

impl Database {
    /// An empty index with an empty denylist.
    pub fn empty() -> (db: Database)
        ensures
            db.crates@ =~= Seq::<Crate>::empty(),
            db.blacklist@ =~= Seq::<String>::empty(),
    {
        Database { crates: Vec::new(), blacklist: Vec::new() }
    }

    /// Clears the index and repopulates it with `records`, the sole,
    /// atomic handoff after a refresh. The denylist is untouched.
    pub fn replace_all(&mut self, records: Vec<Crate>)
        ensures
            final(self).crates@ == records@,
            final(self).blacklist == old(self).blacklist,
    {
        self.crates = records;
    }

    /// Appends one name to the denylist, excluding it from every later
    /// load; the index in hand is untouched. The caller persists the
    /// grown list.
    pub fn add_to_denylist(&mut self, name: &str)
        ensures
            final(self).blacklist@.len() == old(self).blacklist@.len() + 1,
            final(self).blacklist@.last()@ == name@,
            forall|k: int|
                0 <= k < old(self).blacklist@.len() ==> final(self).blacklist@[k] == old(
                    self,
                ).blacklist@[k],
            final(self).crates == old(self).crates,
    {
        self.blacklist.push(String::from_str(name));
    }

    /// Case-insensitive substring search: returns exactly the records, in
    /// storage order, whose stored name or description contains the
    /// lowercased needle.
    pub fn search(&self, needle: &str) -> (r: Vec<Crate>)
        ensures
            r@ == self.crates@.filter(
                |c: Crate| record_matches(c, lower_of(needle@)),
            ),
    {
        let ghost pred = |c: Crate| record_matches(c, lower_of(needle@));
        let needle_lower = lowercase(needle);
        let nv = chars_of(needle_lower.as_str());
        let mut r: Vec<Crate> = Vec::new();
        let mut i: usize = 0;
        proof {
            reveal(Seq::filter);
            assert(self.crates@.subrange(0, 0).filter(pred) =~= Seq::<Crate>::empty());
        }
        while i < self.crates.len()
            invariant
                i <= self.crates@.len(),
                nv@ == lower_of(needle@),
                r@ == self.crates@.subrange(0, i as int).filter(pred),
                pred == (|c: Crate| record_matches(c, lower_of(needle@))),
            decreases self.crates@.len() - i,
        {
            let c = &self.crates[i];
            let name_chars = chars_of(c.name.as_str());
            let desc_chars = chars_of(c.description.as_str());
            let hit = contains_chars(&name_chars, &nv) || contains_chars(&desc_chars, &nv);
            proof {
                assert(self.crates@.subrange(0, i + 1 as int).drop_last() =~= self.crates@.subrange(
                    0,
                    i as int,
                ));
                lemma_filter_push(
                    self.crates@.subrange(0, i as int),
                    self.crates@[i as int],
                    pred,
                );
                assert(self.crates@.subrange(0, i as int).push(self.crates@[i as int])
                    =~= self.crates@.subrange(0, i + 1 as int));
            }
            if hit {
                assert(pred(self.crates@[i as int]));
                r.push(c.clone());
            } else {
                assert(!pred(self.crates@[i as int]));
            }
            i += 1;
        }
        assert(self.crates@.subrange(0, i as int) =~= self.crates@);
        r
    }
}

/// Removes exactly the records whose name appears in `denylist`; every
/// other record stays, in order.
pub fn apply_denylist(records: Vec<Crate>, denylist: &Vec<String>) -> (r: Vec<Crate>)
    ensures
        r@ == records@.filter(|c: Crate| !name_in_list(denylist@, c.name@)),
{
    let ghost pred = |c: Crate| !name_in_list(denylist@, c.name@);
    let mut r: Vec<Crate> = Vec::new();
    let mut i: usize = 0;
    proof {
        reveal(Seq::filter);
        assert(records@.subrange(0, 0).filter(pred) =~= Seq::<Crate>::empty());
    }
    while i < records.len()
        invariant
            i <= records@.len(),
            r@ == records@.subrange(0, i as int).filter(pred),
            pred == (|c: Crate| !name_in_list(denylist@, c.name@)),
        decreases records@.len() - i,
    {
        let listed = name_listed(denylist, &records[i].name);
        proof {
            lemma_filter_push(records@.subrange(0, i as int), records@[i as int], pred);
            assert(records@.subrange(0, i as int).push(records@[i as int]) =~= records@.subrange(
                0,
                i + 1 as int,
            ));
        }
        if !listed {
            assert(pred(records@[i as int]));
            r.push(records[i].clone());
        } else {
            assert(!pred(records@[i as int]));
        }
        i += 1;
    }
    assert(records@.subrange(0, i as int) =~= records@);
    r
}

/// True when `name` occurs in `names` by character content.
pub fn name_listed(names: &Vec<String>, name: &String) -> (r: bool)
    ensures
        r == name_in_list(names@, name@),
{
    let mut i: usize = 0;
    while i < names.len()
        invariant
            i <= names@.len(),
            forall|k: int| 0 <= k < i ==> names@[k]@ != name@,
        decreases names@.len() - i,
    {
        if str_eq(names[i].as_str(), name.as_str()) {
            return true;
        }
        i += 1;
    }
    false
}

/// The records `search` keeps, as its contract states them.
pub open spec fn search_filter(crates: Seq<Crate>, needle: Seq<char>) -> Seq<Crate> {
    crates.filter(|c: Crate| record_matches(c, needle))
}

/// What `search`'s result holds, spelled out by membership: every record
/// it returns matches the needle, and every stored record that matches
/// is returned; all others are excluded.
pub proof fn lemma_search_membership(crates: Seq<Crate>, needle: Seq<char>)
    ensures
        forall|i: int|
            0 <= i < search_filter(crates, needle).len() ==> record_matches(
                #[trigger] search_filter(crates, needle)[i],
                needle,
            ),
        forall|i: int|
            0 <= i < crates.len() && record_matches(#[trigger] crates[i], needle)
                ==> search_filter(crates, needle).contains(crates[i]),
{
    let pred = |c: Crate| record_matches(c, needle);
    assert forall|i: int| 0 <= i < search_filter(crates, needle).len() implies record_matches(
        search_filter(crates, needle)[i],
        needle,
    ) by {
        crates.lemma_filter_pred(pred, i);
    }
    assert forall|i: int|
        0 <= i < crates.len() && record_matches(crates[i], needle) implies search_filter(
        crates,
        needle,
    ).contains(crates[i]) by {
        crates.lemma_filter_contains(pred, i);
    }
}

/// Filtering by a denylist that lists none of the records' names keeps
/// every record: loading a persisted index written without denylisted
/// names hands the records back unchanged.
pub proof fn lemma_denylist_disjoint(records: Seq<Crate>, denylist: Seq<String>)
    requires
        forall|i: int| 0 <= i < records.len() ==> !name_in_list(denylist, #[trigger] records[i].name@),
    ensures
        records.filter(|c: Crate| !name_in_list(denylist, c.name@)) == records,
    decreases records.len(),
{
    let pred = |c: Crate| !name_in_list(denylist, c.name@);
    if records.len() == 0 {
        reveal(Seq::filter);
    } else {
        assert(forall|i: int|
            0 <= i < records.drop_last().len() ==> !name_in_list(
                denylist,
                #[trigger] records.drop_last()[i].name@,
            ));
        lemma_denylist_disjoint(records.drop_last(), denylist);
        lemma_filter_push(records.drop_last(), records.last(), pred);
        assert(records.drop_last().push(records.last()) =~= records);
        assert(pred(records.last()));
        assert(records.filter(pred) =~= records);
    }
}

/// How long a persisted index stays fresh, in seconds (24 hours).
pub const MAX_INDEX_AGE_SECS: u64 = 86400;

/// True when the persisted file is older than `max_age_secs`: its age,
/// `now_secs - modified_secs`, strictly exceeds the threshold. A file whose
/// age equals the threshold exactly is still fresh, and a modification time
/// in the future counts as age zero.
pub fn is_stale(now_secs: u64, modified_secs: u64, max_age_secs: u64) -> (r: bool)
    ensures
        r == (modified_secs <= now_secs && now_secs - modified_secs > max_age_secs),
{
    modified_secs <= now_secs && now_secs - modified_secs > max_age_secs
}

/// What loading the persisted index file produced.
pub enum LoadState {
    /// The file was missing or unreadable.
    Absent,
    /// The file was read but did not parse as an index.
    Malformed,
    /// The file parsed; the index it held is in hand.
    Loaded,
}

/// A full rebuild of the index is due exactly when the persisted file is
/// absent, malformed, or stale — never otherwise.
pub fn needs_rebuild(state: &LoadState, stale: bool) -> (r: bool)
    ensures
        r == (state is Absent || state is Malformed || stale),
{
    match state {
        LoadState::Absent => true,
        LoadState::Malformed => true,
        LoadState::Loaded => stale,
    }
}

} // verus!
