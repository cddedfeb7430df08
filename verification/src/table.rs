use vstd::prelude::*;

use crate::errors::LowerError;
use crate::term::TermId;
use crate::text::str_eq;

verus! {

/// The view of the table's entry list. The earliest entry of a textual id
/// is the one that counts; registration rejects duplicates, so the list in
/// fact never carries two entries with one id.
pub open spec fn entries_map(s: Seq<(String, TermId)>) -> Map<Seq<char>, int>
    decreases s.len(),
{
    if s.len() == 0 {
        Map::empty()
    } else {
        entries_map(s.drop_first()).insert(s[0].0@, s[0].1 as int)
    }
}

proof fn lemma_entries_map_contains(s: Seq<(String, TermId)>, k: Seq<char>)
    ensures
        entries_map(s).contains_key(k) <==> exists|i: int| 0 <= i < s.len() && s[i].0@ == k,
    decreases s.len(),
{
    if s.len() > 0 {
        lemma_entries_map_contains(s.drop_first(), k);
        if s[0].0@ == k {
        } else if entries_map(s).contains_key(k) {
            let i = choose|i: int| 0 <= i < s.drop_first().len() && s.drop_first()[i].0@ == k;
            assert(s[i + 1].0@ == k);
        } else {
            assert(forall|i: int| 1 <= i < s.len() ==> s.drop_first()[i - 1] == s[i]);
        }
    }
}

proof fn lemma_entries_map_first(s: Seq<(String, TermId)>, k: Seq<char>, j: int)
    requires
        0 <= j < s.len(),
        s[j].0@ == k,
        forall|l: int| 0 <= l < j ==> s[l].0@ != k,
    ensures
        entries_map(s).contains_key(k),
        entries_map(s)[k] == s[j].1 as int,
    decreases s.len(),
{
    if j > 0 {
        assert(forall|l: int| 0 <= l < j - 1 ==> s.drop_first()[l] == s[l + 1]);
        lemma_entries_map_first(s.drop_first(), k, j - 1);
    }
}

proof fn lemma_entries_map_push_fresh(s: Seq<(String, TermId)>, e: (String, TermId))
    requires
        forall|i: int| 0 <= i < s.len() ==> s[i].0@ != e.0@,
    ensures
        entries_map(s.push(e)) == entries_map(s).insert(e.0@, e.1 as int),
    decreases s.len(),
{
    if s.len() == 0 {
        assert(s.push(e).drop_first() =~= Seq::<(String, TermId)>::empty());
        assert(entries_map(s.push(e).drop_first()) =~= Map::<Seq<char>, int>::empty());
        assert(s.push(e)[0] == e);
        assert(entries_map(s.push(e)) =~= entries_map(s).insert(e.0@, e.1 as int));
    } else {
        assert(s.push(e).drop_first() =~= s.drop_first().push(e));
        assert(forall|i: int| 0 <= i < s.drop_first().len() ==> s.drop_first()[i] == s[i + 1]);
        lemma_entries_map_push_fresh(s.drop_first(), e);
        assert(s[0].0@ != e.0@);
        assert(entries_map(s.push(e)) =~= entries_map(s).insert(e.0@, e.1 as int));
    }
}

/// The identity resolution table: a mapping from the serialized element's
/// textual id to its assigned term identity, used to resolve references
/// between graph elements. Every textual id maps to exactly one identity;
/// a second registration of the same id is rejected, never overwritten.
pub struct IdTable {
    entries: Vec<(String, TermId)>,
}

impl View for IdTable {
    type V = Map<Seq<char>, int>;

    closed spec fn view(&self) -> Map<Seq<char>, int> {
        entries_map(self.entries@)
    }
}

impl IdTable {
    /// An empty table.
    pub fn new() -> (r: IdTable)
        ensures
            r@ == Map::<Seq<char>, int>::empty(),
    {
        IdTable { entries: Vec::new() }
    }

    /// Registers a textual id under a term identity. A duplicate id is an
    /// error and leaves the table unchanged.
    pub fn register(&mut self, id: String, term: TermId) -> (r: Result<(), LowerError>)
        ensures
            old(self)@.contains_key(id@) ==> r == Err::<(), LowerError>(
                LowerError::DuplicateIdentifier,
            ) && final(self)@ == old(self)@,
            !old(self)@.contains_key(id@) ==> r == Ok::<(), LowerError>(()) && final(self)@ == old(
                self,
            )@.insert(id@, term as int),
    {
        let n = self.entries.len();
        let mut j: usize = 0;
        while j < n
            invariant
                n == self.entries@.len(),
                j <= n,
                self.entries@ == old(self).entries@,
                forall|l: int| 0 <= l < j ==> self.entries@[l].0@ != id@,
            decreases n - j,
        {
            if str_eq(self.entries[j].0.as_str(), id.as_str()) {
                proof {
                    lemma_entries_map_contains(self.entries@, id@);
                }
                return Err(LowerError::DuplicateIdentifier);
            }
            j = j + 1;
        }
        proof {
            lemma_entries_map_contains(self.entries@, id@);
            lemma_entries_map_push_fresh(self.entries@, (id, term));
        }
        self.entries.push((id, term));
        Ok(())
    }

    /// Resolves a textual id to the term identity it was registered under.
    /// An id never registered is an error.
    pub fn resolve(&self, id: &str) -> (r: Result<TermId, LowerError>)
        ensures
            match r {
                Ok(t) => self@.contains_key(id@) && t as int == self@[id@],
                Err(e) => !self@.contains_key(id@) && e == LowerError::UnknownIdentifier,
            },
    {
        let n = self.entries.len();
        let mut j: usize = 0;
        while j < n
            invariant
                n == self.entries@.len(),
                j <= n,
                forall|l: int| 0 <= l < j ==> self.entries@[l].0@ != id@,
            decreases n - j,
        {
            if str_eq(self.entries[j].0.as_str(), id) {
                let t = self.entries[j].1;
                proof {
                    lemma_entries_map_first(self.entries@, id@, j as int);
                }
                return Ok(t);
            }
            j = j + 1;
        }
        proof {
            lemma_entries_map_contains(self.entries@, id@);
        }
        Err(LowerError::UnknownIdentifier)
    }

    /// True when the id was registered.
    pub fn contains(&self, id: &str) -> (r: bool)
        ensures
            r == self@.contains_key(id@),
    {
        match self.resolve(id) {
            Ok(_) => true,
            Err(_) => false,
        }
    }
}

} // verus!
