use crate::text::{chars_eq, chars_of, string_from_chars};
use vstd::prelude::*;

verus! {

/// Sessions kept by id, each id at most once.
pub struct SessionTable<S> {
    entries: Vec<(Vec<char>, S)>,
}

/// Whether no id occurs twice among `entries`.
pub open spec fn ids_distinct<S>(entries: Seq<(Vec<char>, S)>) -> bool {
    forall|i: int, j: int|
        0 <= i < entries.len() && 0 <= j < entries.len() && i != j ==> (#[trigger] entries[i]).0@
            != (#[trigger] entries[j]).0@
}

/// Whether no id occurs twice among `pairs`.
pub open spec fn ids_of_pairs_distinct<S>(pairs: Seq<(String, S)>) -> bool {
    forall|i: int, j: int|
        0 <= i < pairs.len() && 0 <= j < pairs.len() && i != j ==> (#[trigger] pairs[i]).0@
            != (#[trigger] pairs[j]).0@
}

impl<S> SessionTable<S> {
    /// The sessions as a map from id to session.
    pub closed spec fn sessions(&self) -> Map<Seq<char>, S> {
        Map::new(
            |id: Seq<char>| exists|i: int| 0 <= i < self.entries@.len() && self.entries@[i].0@ == id,
            |id: Seq<char>|
                self.entries@[choose|i: int|
                    0 <= i < self.entries@.len() && self.entries@[i].0@ == id].1,
        )
    }

    /// Well-formedness: no id occurs twice.
    pub closed spec fn wf(&self) -> bool {
        ids_distinct(self.entries@)
    }

    proof fn lemma_entry(&self, i: int)
        requires
            self.wf(),
            0 <= i < self.entries@.len(),
        ensures
            self.sessions().contains_key(self.entries@[i].0@),
            self.sessions()[self.entries@[i].0@] == self.entries@[i].1,
    {
        let id = self.entries@[i].0@;
        assert(self.sessions().dom().contains(id));
        let j = choose|j: int| 0 <= j < self.entries@.len() && self.entries@[j].0@ == id;
        assert(i == j);
    }

    /// An empty table.
    pub fn new() -> (r: Self)
        ensures
            r.wf(),
            r.sessions() == Map::<Seq<char>, S>::empty(),
    {
        let r = SessionTable { entries: Vec::new() };
        assert(r.sessions() =~= Map::<Seq<char>, S>::empty());
        r
    }

    /// The position of the entry for `id`.
    fn position(&self, id: &Vec<char>) -> (r: Option<usize>)
        requires
            self.wf(),
        ensures
            match r {
                Some(i) => i < self.entries@.len() && self.entries@[i as int].0@ == id@,
                None => !self.sessions().contains_key(id@),
            },
    {
        let mut i: usize = 0;
        while i < self.entries.len()
            invariant
                i <= self.entries@.len(),
                forall|j: int| 0 <= j < i ==> self.entries@[j].0@ != id@,
            decreases self.entries@.len() - i,
        {
            if chars_eq(&self.entries[i].0, id) {
                return Some(i);
            }
            i = i + 1;
        }
        None
    }

    /// Whether a session with this id is kept.
    pub fn contains(&self, id: &str) -> (r: bool)
        requires
            self.wf(),
        ensures
            r == self.sessions().contains_key(id@),
    {
        let key = chars_of(id);
        match self.position(&key) {
            Some(i) => {
                proof {
                    self.lemma_entry(i as int);
                }
                true
            },
            None => false,
        }
    }

    /// Whether no session is kept.
    pub fn is_empty(&self) -> (r: bool)
        requires
            self.wf(),
        ensures
            r == (self.sessions() == Map::<Seq<char>, S>::empty()),
    {
        proof {
            if self.entries@.len() > 0 {
                self.lemma_entry(0);
                assert(!Map::<Seq<char>, S>::empty().contains_key(self.entries@[0].0@));
            } else {
                assert(self.sessions() =~= Map::<Seq<char>, S>::empty());
            }
        }
        self.entries.len() == 0
    }

    /// The session kept under this id.
    pub fn get(&self, id: &str) -> (r: Option<&S>)
        requires
            self.wf(),
        ensures
            match r {
                Some(s) => self.sessions().contains_key(id@) && *s == self.sessions()[id@],
                None => !self.sessions().contains_key(id@),
            },
    {
        let key = chars_of(id);
        match self.position(&key) {
            Some(i) => {
                proof {
                    self.lemma_entry(i as int);
                }
                Some(&self.entries[i].1)
            },
            None => None,
        }
    }

    /// Takes the session kept under this id out of the table.
    pub fn remove(&mut self, id: &str) -> (r: Option<S>)
        requires
            old(self).wf(),
        ensures
            final(self).wf(),
            final(self).sessions() == old(self).sessions().remove(id@),
            match r {
                Some(s) => old(self).sessions().contains_key(id@) && s == old(self).sessions()[id@],
                None => !old(self).sessions().contains_key(id@),
            },
    {
        let key = chars_of(id);
        match self.position(&key) {
            Some(i) => {
                proof {
                    self.lemma_entry(i as int);
                }
                let ghost before = self.entries@;
                let (_, s) = self.entries.swap_remove(i);
                proof {
                    let after = self.entries@;
                    assert forall|a: int, b: int|
                        0 <= a < after.len() && 0 <= b < after.len() && a != b implies (
                        #[trigger] after[a]).0@ != (#[trigger] after[b]).0@ by {
                        let pa = if a == i && i < after.len() { before.len() - 1 } else { a };
                        let pb = if b == i && i < after.len() { before.len() - 1 } else { b };
                        assert(after[a] == before[pa]);
                        assert(after[b] == before[pb]);
                    }
                    assert forall|k: Seq<char>| #[trigger] self.sessions().contains_key(k) == old(
                        self,
                    ).sessions().remove(id@).contains_key(k) by {
                        if self.sessions().contains_key(k) {
                            let a = choose|a: int| 0 <= a < after.len() && after[a].0@ == k;
                            let pa = if a == i && i < after.len() { before.len() - 1 } else { a };
                            assert(after[a] == before[pa]);
                            assert(pa != i);
                        }
                        if old(self).sessions().remove(id@).contains_key(k) {
                            let b = choose|b: int| 0 <= b < before.len() && before[b].0@ == k;
                            assert(b != i);
                            if b == before.len() - 1 {
                                assert(after[i as int] == before[b]);
                            } else {
                                assert(after[b] == before[b]);
                            }
                        }
                    }
                    assert forall|k: Seq<char>| #[trigger]
                        self.sessions().contains_key(k) implies self.sessions()[k] == old(
                        self,
                    ).sessions()[k] by {
                        let a = choose|a: int| 0 <= a < after.len() && after[a].0@ == k;
                        let pa = if a == i && i < after.len() { before.len() - 1 } else { a };
                        assert(after[a] == before[pa]);
                        self.lemma_entry(a);
                        old(self).lemma_entry(pa);
                    }
                    assert(self.sessions() =~= old(self).sessions().remove(id@));
                }
                Some(s)
            },
            None => {
                assert(self.sessions() =~= old(self).sessions().remove(id@));
                None
            },
        }
    }

    /// Keeps `session` under `id`, replacing and returning any session kept
    /// there before.
    pub fn insert(&mut self, id: String, session: S) -> (r: Option<S>)
        requires
            old(self).wf(),
        ensures
            final(self).wf(),
            final(self).sessions() == old(self).sessions().insert(id@, session),
            match r {
                Some(s) => old(self).sessions().contains_key(id@) && s == old(self).sessions()[id@],
                None => !old(self).sessions().contains_key(id@),
            },
    {
        let previous = self.remove(id.as_str());
        let ghost mid = self.sessions();
        let key = chars_of(id.as_str());
        let ghost before = self.entries@;
        self.entries.push((key, session));
        proof {
            let after = self.entries@;
            let n = before.len() as int;
            assert(!mid.contains_key(id@));
            assert forall|a: int, b: int|
                0 <= a < after.len() && 0 <= b < after.len() && a != b implies (
                #[trigger] after[a]).0@ != (#[trigger] after[b]).0@ by {
                if a == n {
                    assert(after[b] == before[b]);
                    assert(mid.contains_key(before[b].0@)) by {
                        assert(0 <= b < before.len() && before[b].0@ == before[b].0@);
                    }
                } else if b == n {
                    assert(after[a] == before[a]);
                    assert(mid.contains_key(before[a].0@)) by {
                        assert(0 <= a < before.len() && before[a].0@ == before[a].0@);
                    }
                } else {
                    assert(after[a] == before[a] && after[b] == before[b]);
                }
            }
            assert forall|k: Seq<char>| #[trigger] self.sessions().contains_key(k) == mid.insert(
                id@,
                session,
            ).contains_key(k) by {
                if self.sessions().contains_key(k) {
                    let a = choose|a: int| 0 <= a < after.len() && after[a].0@ == k;
                    if a < n {
                        assert(after[a] == before[a]);
                        assert(0 <= a < before.len() && before[a].0@ == k);
                    }
                }
                if mid.contains_key(k) {
                    let b = choose|b: int| 0 <= b < before.len() && before[b].0@ == k;
                    assert(after[b] == before[b]);
                }
                if k == id@ {
                    assert(after[n].0@ == k);
                }
            }
            assert forall|k: Seq<char>| #[trigger]
                self.sessions().contains_key(k) implies self.sessions()[k] == mid.insert(
                id@,
                session,
            )[k] by {
                let a = choose|a: int| 0 <= a < after.len() && after[a].0@ == k;
                self.lemma_entry(a);
                if a < n {
                    assert(after[a] == before[a]);
                    assert(k != id@);
                    let b = choose|b: int| 0 <= b < before.len() && before[b].0@ == k;
                    assert(b == a);
                } else {
                    assert(k == id@);
                }
            }
            assert(self.sessions() =~= mid.insert(id@, session));
            assert(mid.insert(id@, session) =~= old(self).sessions().insert(id@, session));
        }
        previous
    }

    /// Takes every session out of the table, each with its id.
    pub fn drain(&mut self) -> (r: Vec<(String, S)>)
        requires
            old(self).wf(),
        ensures
            final(self).wf(),
            final(self).sessions() == Map::<Seq<char>, S>::empty(),
            forall|i: int|
                0 <= i < r@.len() ==> old(self).sessions().contains_key((#[trigger] r@[i]).0@)
                    && r@[i].1 == old(self).sessions()[r@[i].0@],
            forall|k: Seq<char>|
                #[trigger] old(self).sessions().contains_key(k) ==> exists|i: int|
                    0 <= i < r@.len() && (#[trigger] r@[i]).0@ == k,
            ids_of_pairs_distinct(r@),
    {
        let ghost all = self.entries@;
        let ghost n = all.len();
        let mut out: Vec<(String, S)> = Vec::new();
        while self.entries.len() > 0
            invariant
                n == all.len(),
                self.entries@.len() + out@.len() == n,
                self.entries@ == all.take(self.entries@.len() as int),
                ids_distinct(all),
                forall|i: int|
                    0 <= i < out@.len() ==> (#[trigger] out@[i]).0@ == all[n - 1 - i].0@
                        && out@[i].1 == all[n - 1 - i].1,
            decreases self.entries@.len(),
        {
            let ghost len = self.entries@.len();
            let ghost before = self.entries@;
            let popped = self.entries.pop();
            assert(popped == Some(before.last()));
            let (key, session) = popped.unwrap();
            assert(self.entries@ =~= before.drop_last());
            assert(before.drop_last() =~= all.take(len - 1));
            assert(before.last() == all[len - 1]);
            let ghost old_out = out@;
            out.push((string_from_chars(&key), session));
            assert(out@.last().0@ == all[n - 1 - old_out.len()].0@);
            assert forall|i: int| 0 <= i < out@.len() implies (#[trigger] out@[i]).0@ == all[n - 1
                - i].0@ && out@[i].1 == all[n - 1 - i].1 by {
                if i < old_out.len() {
                    assert(out@[i] == old_out[i]);
                }
            }
        }
        proof {
            assert(self.sessions() =~= Map::<Seq<char>, S>::empty());
            assert forall|i: int|
                0 <= i < out@.len() implies old(self).sessions().contains_key((#[trigger] out@[i]).0@)
                && out@[i].1 == old(self).sessions()[out@[i].0@] by {
                old(self).lemma_entry(n - 1 - i);
            }
            assert forall|k: Seq<char>| #[trigger]
                old(self).sessions().contains_key(k) implies exists|i: int|
                0 <= i < out@.len() && (#[trigger] out@[i]).0@ == k by {
                let b = choose|b: int| 0 <= b < all.len() && all[b].0@ == k;
                assert(out@[n - 1 - b].0@ == k);
            }
            assert forall|a: int, c: int|
                0 <= a < out@.len() && 0 <= c < out@.len() && a != c implies (
                #[trigger] out@[a]).0@ != (#[trigger] out@[c]).0@ by {
                assert(all[n - 1 - a].0@ != all[n - 1 - c].0@);
            }
        }
        out
    }
}


/// What a table gives back of a write: after keeping a session under an id,
/// that id holds exactly that session and the other ids are untouched; after
/// removing an id, it holds nothing and the others are untouched.
pub proof fn law_session_table_read_after_write<S>(
    m: Map<Seq<char>, S>,
    id: Seq<char>,
    other: Seq<char>,
    s: S,
)
    requires
        other != id,
    ensures
        m.insert(id, s).contains_key(id),
        m.insert(id, s)[id] == s,
        m.insert(id, s).contains_key(other) == m.contains_key(other),
        m.contains_key(other) ==> m.insert(id, s)[other] == m[other],
        !m.remove(id).contains_key(id),
        m.remove(id).contains_key(other) == m.contains_key(other),
        m.contains_key(other) ==> m.remove(id)[other] == m[other],
{
}

} // verus!
