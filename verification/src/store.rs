//! The in-memory snapshot store and the ACME challenge store.

use vstd::prelude::*;
use crate::models::Snapshot;
use vstd::string::StringExecFns;

verus! {

/// Holds the currently active snapshot; `apply` replaces it wholesale, so
/// a reader sees either the old value or the new one, never a mixture.
pub struct SnapshotStore {
    pub current: Snapshot,
}

impl SnapshotStore {
    /// A store holding the given snapshot.
    pub fn new(snapshot: Snapshot) -> (r: SnapshotStore)
        ensures
            r.current == snapshot,
    {
        SnapshotStore { current: snapshot }
    }

    /// Replaces the held snapshot in one step; it never fails.
    pub fn apply(&mut self, snapshot: Snapshot) -> (r: Result<(), crate::errors::GatewayError>)
        ensures
            r is Ok,
            final(self).current == snapshot,
    {
        self.current = snapshot;
        Ok(())
    }
}

/// The value stored under a token; the first entry with the token wins.
pub open spec fn store_lookup(entries: Seq<(Seq<char>, Seq<char>)>, token: Seq<char>) -> Option<
    Seq<char>,
>
    decreases entries.len(),
{
    if entries.len() == 0 {
        None
    } else if entries[0].0 == token {
        Some(entries[0].1)
    } else {
        store_lookup(entries.drop_first(), token)
    }
}

pub open spec fn store_view(entries: Seq<(String, String)>) -> Seq<(Seq<char>, Seq<char>)> {
    entries.map_values(|e: (String, String)| (e.0@, e.1@))
}

/// The control side's token-to-key-authorization map. The ACME worker
/// writes entries before asking for authorization and clears the map when
/// the order completes.
pub struct AcmeChallengeStore {
    pub entries: Vec<(String, String)>,
}

impl AcmeChallengeStore {
    /// An empty challenge store.
    pub fn new() -> (r: AcmeChallengeStore)
        ensures
            r.entries@.len() == 0,
    {
        AcmeChallengeStore { entries: Vec::new() }
    }

    /// Writes a token's key authorization; other tokens keep their values.
    pub fn set(&mut self, token: String, key_auth: String)
        ensures
            store_lookup(store_view(final(self).entries@), token@) == Some(key_auth@),
            forall|t: Seq<char>|
                t != token@ ==> #[trigger] store_lookup(store_view(final(self).entries@), t)
                    == store_lookup(store_view(old(self).entries@), t),
    {
        let ghost es = store_view(self.entries@);
        let mut i: usize = 0;
        proof {
            assert(es.skip(0) =~= es);
        }
        while i < self.entries.len()
            invariant
                *self == *old(self),
                es == store_view(self.entries@),
                i <= self.entries@.len(),
                es.len() == self.entries@.len(),
                forall|k: int| 0 <= k < i ==> (#[trigger] es[k]).0 != token@,
            decreases self.entries@.len() - i,
        {
            proof {
                assert(es.skip(i as int)[0] == es[i as int]);
                assert(es.skip(i as int).drop_first() =~= es.skip(i + 1));
            }
            if crate::text::str_eq(self.entries[i].0.as_str(), token.as_str()) {
                let ghost before = self.entries@;
                let mut entry = self.entries.remove(i);
                entry.1 = key_auth;
                self.entries.insert(i, entry);
                proof {
                    assert(store_view(self.entries@) =~~= store_view(before).update(
                        i as int,
                        (store_view(before)[i as int].0, key_auth@),
                    ));
                    lemma_store_update(
                        store_view(before),
                        store_view(self.entries@),
                        i as int,
                        token@,
                        key_auth@,
                    );
                }
                return ;
            }
            i = i + 1;
        }
        let ghost before = self.entries@;
        self.entries.push((token, key_auth));
        proof {
            assert(store_view(self.entries@) =~~= store_view(before).push((token@, key_auth@)));
            lemma_store_push(store_view(before), token@, key_auth@);
        }
    }

    /// Reads a token's key authorization.
    pub fn get(&self, token: &str) -> (r: Option<String>)
        ensures
            match r {
                Some(v) => store_lookup(store_view(self.entries@), token@) == Some(v@),
                None => store_lookup(store_view(self.entries@), token@) is None,
            },
    {
        let ghost es = store_view(self.entries@);
        proof {
            assert(es.skip(0) =~= es);
        }
        let mut i: usize = 0;
        while i < self.entries.len()
            invariant
                es == store_view(self.entries@),
                i <= self.entries@.len(),
                es.len() == self.entries@.len(),
                store_lookup(es, token@) == store_lookup(es.skip(i as int), token@),
            decreases self.entries@.len() - i,
        {
            proof {
                assert(es.skip(i as int)[0] == es[i as int]);
                assert(es.skip(i as int).drop_first() =~= es.skip(i + 1));
            }
            if crate::text::str_eq(self.entries[i].0.as_str(), token) {
                return Some(self.entries[i].1.clone());
            }
            i = i + 1;
        }
        proof {
            assert(es.skip(es.len() as int) =~= Seq::<(Seq<char>, Seq<char>)>::empty());
        }
        None
    }

    /// Forgets every token.
    pub fn clear(&mut self)
        ensures
            final(self).entries@.len() == 0,
    {
        self.entries = Vec::new();
    }
}

/// Replacing an entry's value changes only its own token's lookup.
proof fn lemma_store_update(
    old_es: Seq<(Seq<char>, Seq<char>)>,
    new_es: Seq<(Seq<char>, Seq<char>)>,
    i: int,
    token: Seq<char>,
    value: Seq<char>,
)
    requires
        0 <= i < old_es.len(),
        new_es == old_es.update(i, (old_es[i].0, value)),
        old_es[i].0 == token,
        forall|k: int| 0 <= k < i ==> (#[trigger] old_es[k]).0 != token,
    ensures
        store_lookup(new_es, token) == Some(value),
        forall|t: Seq<char>|
            t != token ==> #[trigger] store_lookup(new_es, t) == store_lookup(old_es, t),
    decreases old_es.len(),
{
    if i == 0 {
        assert(new_es[0] == (old_es[0].0, value));
        assert forall|t: Seq<char>|
            t != token implies #[trigger] store_lookup(new_es, t) == store_lookup(old_es, t) by {
            assert(new_es.drop_first() =~= old_es.drop_first());
        }
    } else {
        assert(new_es[0] == old_es[0]);
        assert(new_es.drop_first() =~= old_es.drop_first().update(i - 1, (old_es[i].0, value)));
        assert forall|k: int|
            0 <= k < i - 1 implies (#[trigger] old_es.drop_first()[k]).0 != token by {
            assert(old_es.drop_first()[k] == old_es[k + 1]);
        }
        lemma_store_update(old_es.drop_first(), new_es.drop_first(), i - 1, token, value);
        assert forall|t: Seq<char>|
            t != token implies #[trigger] store_lookup(new_es, t) == store_lookup(old_es, t) by {
            if old_es[0].0 != t {
                assert(store_lookup(new_es.drop_first(), t) == store_lookup(
                    old_es.drop_first(),
                    t,
                ));
            }
        }
    }
}

/// Appending a fresh token adds only its own lookup.
proof fn lemma_store_push(es: Seq<(Seq<char>, Seq<char>)>, token: Seq<char>, value: Seq<char>)
    requires
        forall|k: int| 0 <= k < es.len() ==> (#[trigger] es[k]).0 != token,
    ensures
        store_lookup(es.push((token, value)), token) == Some(value),
        forall|t: Seq<char>|
            t != token ==> #[trigger] store_lookup(es.push((token, value)), t) == store_lookup(
                es,
                t,
            ),
    decreases es.len(),
{
    if es.len() == 0 {
        assert(es.push((token, value))[0] == (token, value));
        assert forall|t: Seq<char>|
            t != token implies #[trigger] store_lookup(es.push((token, value)), t)
            == store_lookup(es, t) by {
            assert(es.push((token, value)).drop_first() =~= es);
        }
    } else {
        assert(es.push((token, value))[0] == es[0]);
        assert(es.push((token, value)).drop_first() =~= es.drop_first().push((token, value)));
        assert forall|k: int|
            0 <= k < es.drop_first().len() implies (#[trigger] es.drop_first()[k]).0 != token by {
            assert(es.drop_first()[k] == es[k + 1]);
        }
        lemma_store_push(es.drop_first(), token, value);
        assert forall|t: Seq<char>|
            t != token implies #[trigger] store_lookup(es.push((token, value)), t)
            == store_lookup(es, t) by {
            if es[0].0 != t {
                assert(store_lookup(es.drop_first().push((token, value)), t) == store_lookup(
                    es.drop_first(),
                    t,
                ));
            }
        }
    }
}

} // verus!
