//! Directions, transition rules, and the rule table.
//!
//! A rule table maps a (symbol, state) pair to at most one rule.  It is
//! stored as a vector of entries with pairwise-distinct keys; lookup scans
//! for the entry whose key matches.

use vstd::prelude::*;

verus! {

/// The reserved blank symbol standing for an unwritten tape cell.  It is
/// implicitly part of every alphabet and may not be declared by the user.
pub const BLANK: char = '\\';

/// Where the head moves after a rule fires.
#[derive(Copy, Clone, Debug, PartialEq, Eq, Structural)]
pub enum Direction {
    Left,
    Stay,
    Right,
}

/// A transition: write `value` into the current cell, move the head per
/// `direction`, and enter `state`.
#[derive(Copy, Clone, Debug, PartialEq, Eq, Structural)]
pub struct Rule {
    pub direction: Direction,
    pub value: char,
    pub state: usize,
}

/// One row of a rule table: the rule that fires when `symbol` is read in
/// `state`.
#[derive(Copy, Clone, Debug, PartialEq, Eq, Structural)]
pub struct RuleEntry {
    pub symbol: char,
    pub state: usize,
    pub rule: Rule,
}

/// The rule found for `(symbol, state)` among `entries`, if any.  Scans from
/// the newest entry backwards, so with distinct keys it returns the unique
/// match.
pub open spec fn lookup_rule(entries: Seq<RuleEntry>, symbol: char, state: int) -> Option<Rule>
    decreases entries.len(),
{
    if entries.len() == 0 {
        None
    } else if entries.last().symbol == symbol && entries.last().state == state {
        Some(entries.last().rule)
    } else {
        lookup_rule(entries.drop_last(), symbol, state)
    }
}

/// No two entries share a (symbol, state) key.
pub open spec fn table_wf(entries: Seq<RuleEntry>) -> bool {
    forall|i: int, j: int|
        0 <= i < j < entries.len() ==> !((#[trigger] entries[i]).symbol == (#[trigger] entries[j]).symbol
            && entries[i].state == entries[j].state)
}

/// A table of transition rules with at most one rule per (symbol, state)
/// pair.
#[derive(Clone, Debug)]
pub struct RuleTable {
    entries: Vec<RuleEntry>,
}

impl View for RuleTable {
    type V = Seq<RuleEntry>;

    closed spec fn view(&self) -> Seq<RuleEntry> {
        self.entries@
    }
}

impl RuleTable {
    /// The key-uniqueness invariant, established by `new` and preserved by
    /// `insert`.
    pub open spec fn wf(self) -> bool {
        table_wf(self@)
    }

    /// An empty rule table.
    pub fn new() -> (r: Self)
        ensures
            r@ == Seq::<RuleEntry>::empty(),
            r.wf(),
    {
        RuleTable { entries: Vec::new() }
    }

    /// How many rules the table holds.
    pub fn len(&self) -> (n: usize)
        ensures
            n == self@.len(),
    {
        self.entries.len()
    }

    /// The entry at position `i`.
    pub fn entry(&self, i: usize) -> (e: RuleEntry)
        requires
            i < self@.len(),
        ensures
            e == self@[i as int],
    {
        self.entries[i]
    }

    /// The rule registered for `(symbol, state)`, if any.
    pub fn lookup(&self, symbol: char, state: usize) -> (r: Option<Rule>)
        ensures
            r == lookup_rule(self@, symbol, state as int),
    {
        let n = self.entries.len();
        let mut i: usize = n;
        proof {
            assert(self@.subrange(0, n as int) =~= self@);
        }
        loop
            invariant
                0 <= i <= n,
                n == self@.len(),
                lookup_rule(self@, symbol, state as int) == lookup_rule(
                    self@.subrange(0, i as int),
                    symbol,
                    state as int,
                ),
            decreases i,
        {
            if i == 0 {
                proof {
                    assert(self@.subrange(0, 0).len() == 0);
                }
                return None;
            }
            i = i - 1;
            let e = self.entries[i];
            proof {
                let prefix = self@.subrange(0, i + 1);
                assert(prefix.last() == self@[i as int]);
                assert(prefix.drop_last() =~= self@.subrange(0, i as int));
            }
            if e.symbol == symbol && e.state == state {
                return Some(e.rule);
            }
        }
    }

    /// Registers `rule` for `(symbol, state)`.  A rule already registered
    /// for that key is replaced in place; every other key keeps its rule.
    /// A fresh key appends its entry.
    pub fn insert(&mut self, symbol: char, state: usize, rule: Rule)
        requires
            old(self).wf(),
        ensures
            final(self).wf(),
            forall|s2: char, t2: int|
                lookup_rule(final(self)@, s2, t2) == if s2 == symbol && t2 == state as int {
                    Some(rule)
                } else {
                    lookup_rule(old(self)@, s2, t2)
                },
            (exists|i: int|
                0 <= i < old(self)@.len() && (#[trigger] old(self)@[i]).symbol == symbol && old(
                    self,
                )@[i].state == state && final(self)@ == old(self)@.update(
                    i,
                    RuleEntry { symbol, state, rule },
                )) || ((forall|i: int|
                0 <= i < old(self)@.len() ==> !((#[trigger] old(self)@[i]).symbol == symbol && old(
                    self,
                )@[i].state == state)) && final(self)@ == old(self)@.push(
                RuleEntry { symbol, state, rule },
            )),
    {
        let n = self.entries.len();
        let mut i: usize = 0;
        while i < n
            invariant
                0 <= i <= n,
                n == self.entries.len(),
                self.entries@ == old(self)@,
                old(self).wf(),
                forall|k: int|
                    0 <= k < i ==> !((#[trigger] self.entries@[k]).symbol == symbol
                        && self.entries@[k].state == state),
            decreases n - i,
        {
            let e = self.entries[i];
            if e.symbol == symbol && e.state == state {
                let new_entry = RuleEntry { symbol, state, rule };
                self.entries.set(i, new_entry);
                proof {
                    assert(self.entries@ == old(self)@.update(i as int, new_entry));
                    lemma_lookup_update(old(self)@, i as int, new_entry);
                    assert forall|p: int, q: int| 0 <= p < q < self.entries@.len() implies !((
                    #[trigger] self.entries@[p]).symbol == (#[trigger] self.entries@[q]).symbol
                        && self.entries@[p].state == self.entries@[q].state) by {
                        // The update keeps every key: only the rule at `i`
                        // changed.
                        assert(self.entries@[p].symbol == old(self)@[p].symbol
                            && self.entries@[p].state == old(self)@[p].state);
                        assert(self.entries@[q].symbol == old(self)@[q].symbol
                            && self.entries@[q].state == old(self)@[q].state);
                    }
                }
                return ;
            }
            i = i + 1;
        }
        let new_entry = RuleEntry { symbol, state, rule };
        self.entries.push(new_entry);
        proof {
            let s = old(self)@;
            assert(self.entries@.last() == new_entry);
            assert(self.entries@.drop_last() =~= s);
            assert forall|s2: char, t2: int|
                !(s2 == symbol && t2 == state as int) implies lookup_rule(self.entries@, s2, t2)
                == lookup_rule(s, s2, t2) by {
                assert(lookup_rule(self.entries@, s2, t2) == lookup_rule(
                    self.entries@.drop_last(),
                    s2,
                    t2,
                ));
            }
            assert forall|p: int, q: int| 0 <= p < q < self.entries@.len() implies !((
            #[trigger] self.entries@[p]).symbol == (#[trigger] self.entries@[q]).symbol
                && self.entries@[p].state == self.entries@[q].state) by {
                if q == s.len() {
                    // The appended entry's key matched no existing entry.
                    assert(self.entries@[p] == s[p]);
                    assert(self.entries@[q] == new_entry);
                } else {
                    assert(self.entries@[p] == s[p]);
                    assert(self.entries@[q] == s[q]);
                }
            }
        }
    }
}

/// Replacing the rule of the entry at `i` by `e.rule`, where `e` keeps the
/// entry's key, changes the lookup of that key to `e.rule` and no other.
proof fn lemma_lookup_update(s: Seq<RuleEntry>, i: int, e: RuleEntry)
    requires
        0 <= i < s.len(),
        s[i].symbol == e.symbol,
        s[i].state == e.state,
        table_wf(s),
    ensures
        forall|s2: char, t2: int|
            lookup_rule(s.update(i, e), s2, t2) == if s2 == e.symbol && t2 == e.state as int {
                Some(e.rule)
            } else {
                lookup_rule(s, s2, t2)
            },
    decreases s.len(),
{
    let s3 = s.update(i, e);
    if i == s.len() - 1 {
        assert(s3.last() == e);
        assert(s3.drop_last() =~= s.drop_last());
        assert forall|s2: char, t2: int|
            !(s2 == e.symbol && t2 == e.state as int) implies lookup_rule(s3, s2, t2)
            == lookup_rule(s, s2, t2) by {
            assert(s.last() == s[i]);
            assert(lookup_rule(s3, s2, t2) == lookup_rule(s3.drop_last(), s2, t2));
            assert(lookup_rule(s, s2, t2) == lookup_rule(s.drop_last(), s2, t2));
        }
    } else {
        assert(s3.last() == s.last());
        assert(s3.drop_last() =~= s.drop_last().update(i, e));
        assert(table_wf(s.drop_last())) by {
            assert(forall|p: int, q: int|
                0 <= p < q < s.drop_last().len() ==> s.drop_last()[p] == s[p] && s.drop_last()[q]
                    == s[q]);
        }
        lemma_lookup_update(s.drop_last(), i, e);
        assert forall|s2: char, t2: int|
            #![all_triggers]
            lookup_rule(s3, s2, t2) == if s2 == e.symbol && t2 == e.state as int {
                Some(e.rule)
            } else {
                lookup_rule(s, s2, t2)
            } by {
            if s.last().symbol == s2 && s.last().state == t2 {
                // The last entry answers the query; it cannot carry the key
                // of the updated entry, which sits at an earlier index.
                if s2 == e.symbol && t2 == e.state as int {
                    assert(s[s.len() - 1] == s.last());
                    assert((s[i]).symbol == (s[s.len() - 1]).symbol && s[i].state == s[s.len()
                        - 1].state);
                    assert(false);
                }
                assert(lookup_rule(s3, s2, t2) == Some(s.last().rule));
            } else {
                assert(lookup_rule(s3, s2, t2) == lookup_rule(s3.drop_last(), s2, t2));
                assert(lookup_rule(s, s2, t2) == lookup_rule(s.drop_last(), s2, t2));
            }
        }
    }
}

/// A lookup that finds a rule found it in some entry of the table.
pub proof fn lemma_lookup_some_exists(s: Seq<RuleEntry>, symbol: char, state: int)
    requires
        lookup_rule(s, symbol, state) is Some,
    ensures
        exists|i: int|
            0 <= i < s.len() && (#[trigger] s[i]).symbol == symbol && s[i].state == state && s[i].rule
                == lookup_rule(s, symbol, state).unwrap(),
    decreases s.len(),
{
    assert(s.len() > 0);
    if s.last().symbol == symbol && s.last().state == state {
        assert(s[s.len() - 1] == s.last());
    } else {
        lemma_lookup_some_exists(s.drop_last(), symbol, state);
        let i = choose|i: int|
            0 <= i < s.drop_last().len() && (#[trigger] s.drop_last()[i]).symbol == symbol
                && s.drop_last()[i].state == state && s.drop_last()[i].rule == lookup_rule(
                s.drop_last(),
                symbol,
                state,
            ).unwrap();
        assert(s[i] == s.drop_last()[i]);
    }
}

} // verus!
