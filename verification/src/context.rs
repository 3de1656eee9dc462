//! Property contexts: the data a filter is evaluated against.
//!
//! A context is either a whole-container snapshot — every record of one tag
//! container, keyed by identifier — or a single record handed in one at a
//! time. Both are association lists whose mathematical view is a `Map`; a
//! later entry with the same key overrides an earlier one, exactly as a map
//! built by repeated insertion would.

use vstd::prelude::*;
use vstd::string::*;
use crate::text::str_eq;

verus! {

/// The map that a sequence of key/value pairs builds up by insertion;
/// the later of two entries with one key wins.
pub open spec fn pairs_map(pairs: Seq<(String, String)>) -> Map<Seq<char>, Seq<char>>
    decreases pairs.len(),
{
    if pairs.len() == 0 {
        Map::empty()
    } else {
        pairs_map(pairs.drop_last()).insert(pairs.last().0@, pairs.last().1@)
    }
}

/// The named string properties of one record.
pub struct PropMap {
    entries: Vec<(String, String)>,
}

impl View for PropMap {
    type V = Map<Seq<char>, Seq<char>>;

    closed spec fn view(&self) -> Map<Seq<char>, Seq<char>> {
        pairs_map(self.entries@)
    }
}

impl PropMap {
    /// An empty property map.
    pub fn new() -> (r: PropMap)
        ensures
            r@ == Map::<Seq<char>, Seq<char>>::empty(),
    {
        let r = PropMap { entries: Vec::new() };
        proof {
            assert(r.entries@.len() == 0);
        }
        r
    }

    /// Record a property; a property recorded earlier under the same name is
    /// overridden.
    pub fn insert(&mut self, key: String, value: String)
        ensures
            final(self)@ == old(self)@.insert(key@, value@),
    {
        let ghost pre = self.entries@;
        self.entries.push((key, value));
        proof {
            assert(self.entries@.drop_last() =~= pre);
        }
    }

    /// Take every pair of a list as a property, first to last.
    pub fn from_pairs(pairs: Vec<(String, String)>) -> (r: PropMap)
        ensures
            r@ == pairs_map(pairs@),
    {
        PropMap { entries: pairs }
    }

    /// Look a property up by name.
    pub fn get(&self, key: &str) -> (r: Option<&String>)
        ensures
            match r {
                Some(v) => self@.contains_key(key@) && self@[key@] == v@,
                None => !self@.contains_key(key@),
            },
    {
        let ghost all = self.entries@;
        let mut i: usize = self.entries.len();
        proof {
            assert(all.take(all.len() as int) =~= all);
        }
        while i > 0
            invariant
                all == self.entries@,
                i <= all.len(),
                pairs_map(all).contains_key(key@) == pairs_map(all.take(i as int)).contains_key(
                    key@,
                ),
                pairs_map(all).contains_key(key@) ==> pairs_map(all)[key@] == pairs_map(
                    all.take(i as int),
                )[key@],
            decreases i,
        {
            i -= 1;
            let e = &self.entries[i];
            proof {
                assert(all.take(i as int + 1).drop_last() =~= all.take(i as int));
                assert(all.take(i as int + 1).last() == all[i as int]);
            }
            if str_eq(e.0.as_str(), key) {
                return Some(&e.1);
            }
        }
        proof {
            assert(all.take(0) =~= Seq::<(String, String)>::empty());
        }
        None
    }

    /// Whether a property of this name exists.
    pub fn contains(&self, key: &str) -> (r: bool)
        ensures
            r == self@.contains_key(key@),
    {
        matches!(self.get(key), Some(_))
    }
}

/// The map that a sequence of identified records builds up by insertion;
/// the later of two records with one identifier wins.
pub open spec fn records_map(rs: Seq<(String, PropMap)>) -> Map<Seq<char>, Map<Seq<char>, Seq<char>>>
    decreases rs.len(),
{
    if rs.len() == 0 {
        Map::empty()
    } else {
        records_map(rs.drop_last()).insert(rs.last().0@, rs.last().1@)
    }
}

/// A whole-container snapshot: every record of one tag container, by
/// identifier.
pub struct Container {
    records: Vec<(String, PropMap)>,
}

impl View for Container {
    type V = Map<Seq<char>, Map<Seq<char>, Seq<char>>>;

    closed spec fn view(&self) -> Map<Seq<char>, Map<Seq<char>, Seq<char>>> {
        records_map(self.records@)
    }
}

impl Container {
    /// An empty container snapshot.
    pub fn new() -> (r: Container)
        ensures
            r@ == Map::<Seq<char>, Map<Seq<char>, Seq<char>>>::empty(),
    {
        let r = Container { records: Vec::new() };
        proof {
            assert(r.records@.len() == 0);
        }
        r
    }

    /// Record one identified record; an earlier record with the same
    /// identifier is overridden.
    pub fn insert(&mut self, id: String, props: PropMap)
        ensures
            final(self)@ == old(self)@.insert(id@, props@),
    {
        let ghost pre = self.records@;
        self.records.push((id, props));
        proof {
            assert(self.records@.drop_last() =~= pre);
        }
    }

    /// Look a record up by identifier.
    pub fn get(&self, id: &str) -> (r: Option<&PropMap>)
        ensures
            match r {
                Some(pm) => self@.contains_key(id@) && self@[id@] == pm@,
                None => !self@.contains_key(id@),
            },
    {
        let ghost all = self.records@;
        let mut i: usize = self.records.len();
        proof {
            assert(all.take(all.len() as int) =~= all);
        }
        while i > 0
            invariant
                all == self.records@,
                i <= all.len(),
                records_map(all).contains_key(id@) == records_map(all.take(i as int)).contains_key(
                    id@,
                ),
                records_map(all).contains_key(id@) ==> records_map(all)[id@] == records_map(
                    all.take(i as int),
                )[id@],
            decreases i,
        {
            i -= 1;
            let e = &self.records[i];
            proof {
                assert(all.take(i as int + 1).drop_last() =~= all.take(i as int));
                assert(all.take(i as int + 1).last() == all[i as int]);
            }
            if str_eq(e.0.as_str(), id) {
                return Some(&e.1);
            }
        }
        proof {
            assert(all.take(0) =~= Seq::<(String, PropMap)>::empty());
        }
        None
    }

    /// Whether a record of this identifier exists.
    pub fn contains(&self, id: &str) -> (r: bool)
        ensures
            r == self@.contains_key(id@),
    {
        matches!(self.get(id), Some(_))
    }
}

/// Specification-level property context.
pub enum SpecCtx {
    /// Whole-container evaluation: record id to property map.
    Whole(Map<Seq<char>, Map<Seq<char>, Seq<char>>>),
    /// Streaming evaluation: the current record's id and properties.
    Single(Seq<char>, Map<Seq<char>, Seq<char>>),
}

/// The property context a filter evaluates against. The two shapes resolve
/// predicates differently: the streaming form scopes every predicate to
/// whether the current identifier equals the predicate's, and does not
/// support the `!` comparison operator.
pub enum Context {
    /// Whole-container evaluation over a full snapshot.
    Whole(Container),
    /// Streaming evaluation over the current record's id and properties.
    Single(String, PropMap),
}

impl View for Context {
    type V = SpecCtx;

    open spec fn view(&self) -> SpecCtx {
        match self {
            Context::Whole(c) => SpecCtx::Whole(c@),
            Context::Single(id, pm) => SpecCtx::Single(id@, pm@),
        }
    }
}

} // verus!
