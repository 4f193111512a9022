//! A keyed record store for Terraform remote state with optimistic
//! single-owner locking: each state holds opaque data and at most one lock,
//! an update must present the owning lock's identifier, and a lock is
//! released only by its owner.

use vstd::prelude::*;

verus! {

/// The store's faults: a state that does not exist, and one whose lock is
/// held by someone else.
#[derive(Clone, Copy, Debug, PartialEq, Eq)]
pub enum Error {
    NotFound,
    StateLocked,
}

/// The record a client presents when locking a state.
#[derive(Debug, PartialEq, Eq)]
pub struct TerraformLock {
    pub id: String,
    pub operation: String,
    pub info: String,
    pub who: String,
    pub version: String,
}

impl Clone for TerraformLock {
    fn clone(&self) -> (r: TerraformLock)
        ensures
            r == *self,
    {
        TerraformLock {
            id: self.id.clone(),
            operation: self.operation.clone(),
            info: self.info.clone(),
            who: self.who.clone(),
            version: self.version.clone(),
        }
    }
}

/// The lock identifier a client passes along with an update.
#[derive(Debug)]
pub struct TerraformLockQuery {
    pub id: String,
}

impl Clone for TerraformLockQuery {
    fn clone(&self) -> (r: TerraformLockQuery)
        ensures
            r == *self,
    {
        TerraformLockQuery { id: self.id.clone() }
    }
}

impl Default for TerraformLockQuery {
    fn default() -> (r: TerraformLockQuery)
        ensures
            r.id@ == Seq::<char>::empty(),
    {
        TerraformLockQuery { id: String::new() }
    }
}

/// One state: its serialized data, and the lock currently held on it, if
/// any.
#[derive(Debug)]
pub struct TerraformState {
    pub lock: Option<TerraformLock>,
    pub data: String,
}

impl Clone for TerraformState {
    fn clone(&self) -> (r: TerraformState)
        ensures
            r == *self,
    {
        TerraformState {
            lock: match &self.lock {
                Some(l) => Some(l.clone()),
                None => None,
            },
            data: self.data.clone(),
        }
    }
}

impl Default for TerraformState {
    fn default() -> (r: TerraformState)
        ensures
            r.lock is None,
            r.data@ == Seq::<char>::empty(),
    {
        TerraformState { lock: None, data: String::new() }
    }
}

impl TerraformState {
    /// True while some client holds this state's lock.
    pub fn is_locked(&self) -> (r: bool)
        ensures
            r == (self.lock is Some),
    {
        self.lock.is_some()
    }

    /// Accepts `id` when the state is unlocked or `id` names the held lock;
    /// any other holder is a conflict.
    pub fn check_lock(&self, id: &str) -> (r: Result<(), Error>)
        ensures
            self.lock is None ==> r == Ok::<(), Error>(()),
            self.lock matches Some(l) && l.id@ == id@ ==> r == Ok::<(), Error>(()),
            self.lock matches Some(l) && l.id@ != id@ ==> r == Err::<(), Error>(
                Error::StateLocked,
            ),
    {
        match &self.lock {
            None => Ok(()),
            Some(l) => {
                let owned = id.to_owned();
                if l.id == owned {
                    Ok(())
                } else {
                    Err(Error::StateLocked)
                }
            },
        }
    }

    /// Takes the lock when it is free; a held lock is a conflict, whoever
    /// holds it.
    pub fn lock(&mut self, lock: TerraformLock) -> (r: Result<(), Error>)
        ensures
            old(self).lock is Some ==> r == Err::<(), Error>(Error::StateLocked) && *final(self)
                == *old(self),
            old(self).lock is None ==> r == Ok::<(), Error>(()) && final(self).lock == Some(lock)
                && final(self).data == old(self).data,
    {
        if self.is_locked() {
            return Err(Error::StateLocked);
        }
        self.lock = Some(lock);
        Ok(())
    }

    /// Releases the lock when `id` names its holder or none is held; a lock
    /// held by someone else is a conflict.
    pub fn unlock(&mut self, id: &TerraformLock) -> (r: Result<(), Error>)
        ensures
            old(self).lock matches Some(l) && l.id@ != id.id@ ==> r == Err::<(), Error>(
                Error::StateLocked,
            ) && *final(self) == *old(self),
            (old(self).lock is None || (old(self).lock matches Some(l) && l.id@ == id.id@)) ==> r
                == Ok::<(), Error>(()) && final(self).lock is None && final(self).data == old(
                self,
            ).data,
    {
        match &self.lock {
            Some(l) => {
                if !(l.id == id.id) {
                    return Err(Error::StateLocked);
                }
            },
            None => {},
        }
        self.lock = None;
        Ok(())
    }
}

/// The map written by an association list, later entries shadowing earlier
/// ones.
pub open spec fn states_of(entries: Seq<(String, TerraformState)>) -> Map<
    Seq<char>,
    TerraformState,
>
    decreases entries.len(),
{
    if entries.len() == 0 {
        Map::empty()
    } else {
        states_of(entries.drop_last()).insert(entries.last().0@, entries.last().1)
    }
}

proof fn lemma_states_of_absent(entries: Seq<(String, TerraformState)>, key: Seq<char>)
    requires
        forall|i: int| 0 <= i < entries.len() ==> entries[i].0@ != key,
    ensures
        !states_of(entries).contains_key(key),
    decreases entries.len(),
{
    if entries.len() > 0 {
        lemma_states_of_absent(entries.drop_last(), key);
    }
}

proof fn lemma_states_of_found(entries: Seq<(String, TerraformState)>, i: int)
    requires
        0 <= i < entries.len(),
        forall|j: int| i < j < entries.len() ==> entries[j].0@ != entries[i].0@,
    ensures
        states_of(entries).contains_key(entries[i].0@),
        states_of(entries)[entries[i].0@] == entries[i].1,
    decreases entries.len(),
{
    if i < entries.len() - 1 {
        lemma_states_of_found(entries.drop_last(), i);
    }
}

proof fn lemma_states_of_update(
    entries: Seq<(String, TerraformState)>,
    i: int,
    p: (String, TerraformState),
)
    requires
        0 <= i < entries.len(),
        p.0@ == entries[i].0@,
        forall|j: int| i < j < entries.len() ==> entries[j].0@ != entries[i].0@,
    ensures
        states_of(entries.update(i, p)) =~= states_of(entries).insert(p.0@, p.1),
    decreases entries.len(),
{
    let upd = entries.update(i, p);
    if i == entries.len() - 1 {
        assert(upd.drop_last() =~= entries.drop_last());
        assert(states_of(upd) =~= states_of(entries).insert(p.0@, p.1));
    } else {
        assert(upd.drop_last() =~= entries.drop_last().update(i, p));
        lemma_states_of_update(entries.drop_last(), i, p);
        assert(states_of(upd) =~= states_of(entries).insert(p.0@, p.1));
    }
}

/// Finds the first entry whose key reads as `id`.
fn find_index(entries: &Vec<(String, TerraformState)>, id: &str) -> (r: Option<usize>)
    ensures
        match r {
            Some(i) => i < entries@.len() && entries@[i as int].0@ == id@,
            None => forall|j: int| 0 <= j < entries@.len() ==> entries@[j].0@ != id@,
        },
{
    let owned = id.to_owned();
    let mut i: usize = 0;
    while i < entries.len()
        invariant
            i <= entries@.len(),
            owned@ == id@,
            forall|j: int| 0 <= j < i ==> entries@[j].0@ != id@,
        decreases entries@.len() - i,
    {
        let hit = {
            let e = &entries[i];
            e.0 == owned
        };
        if hit {
            return Some(i);
        }
        i = i + 1;
    }
    None
}

/// What any state store offers: lookup, guarded update, and lock and unlock
/// with single-owner conflict reporting. The store is a map from state
/// identifier to state; a well-formed store stays well-formed.
pub trait TerraformStateProvider {
    /// The stored states, by identifier.
    spec fn states(&self) -> Map<Seq<char>, TerraformState>;

    /// The representation is sound.
    spec fn provider_wf(&self) -> bool;

    /// Looks a state up; absence is not a fault here.
    fn get_state(&self, id: &str) -> (r: Result<Option<TerraformState>, Error>)
        requires
            self.provider_wf(),
        ensures
            match r {
                Ok(Some(st)) => self.states().contains_key(id@) && st == self.states()[id@],
                Ok(None) => !self.states().contains_key(id@),
                Err(_) => false,
            },
    ;

    /// Replaces a state's data, provided `lock_id` may touch it: the state
    /// must exist, and be unlocked or locked under `lock_id`.
    fn update_state(&mut self, id: &str, lock_id: &str, data: String) -> (r: Result<(), Error>)
        requires
            old(self).provider_wf(),
        ensures
            final(self).provider_wf(),
            ({
                let m = old(self).states();
                if !m.contains_key(id@) {
                    r == Err::<(), Error>(Error::NotFound) && final(self).states() == m
                } else if m[id@].lock matches Some(l) && l.id@ != lock_id@ {
                    r == Err::<(), Error>(Error::StateLocked) && final(self).states() == m
                } else {
                    r == Ok::<(), Error>(()) && final(self).states() == m.insert(
                        id@,
                        TerraformState { lock: m[id@].lock, data },
                    )
                }
            }),
    ;

    /// Takes a state's lock: the state must exist and be unlocked.
    fn lock_state(&mut self, id: &str, lock: TerraformLock) -> (r: Result<(), Error>)
        requires
            old(self).provider_wf(),
        ensures
            final(self).provider_wf(),
            ({
                let m = old(self).states();
                if !m.contains_key(id@) {
                    r == Err::<(), Error>(Error::NotFound) && final(self).states() == m
                } else if m[id@].lock is Some {
                    r == Err::<(), Error>(Error::StateLocked) && final(self).states() == m
                } else {
                    r == Ok::<(), Error>(()) && final(self).states() == m.insert(
                        id@,
                        TerraformState { lock: Some(lock), data: m[id@].data },
                    )
                }
            }),
    ;

    /// Releases a state's lock: the state must exist, and the lock, if
    /// held, must be `lock`'s.
    fn unlock_state(&mut self, id: &str, lock: &TerraformLock) -> (r: Result<(), Error>)
        requires
            old(self).provider_wf(),
        ensures
            final(self).provider_wf(),
            ({
                let m = old(self).states();
                if !m.contains_key(id@) {
                    r == Err::<(), Error>(Error::NotFound) && final(self).states() == m
                } else if m[id@].lock matches Some(l) && l.id@ != lock.id@ {
                    r == Err::<(), Error>(Error::StateLocked) && final(self).states() == m
                } else {
                    r == Ok::<(), Error>(()) && final(self).states() == m.insert(
                        id@,
                        TerraformState { lock: None, data: m[id@].data },
                    )
                }
            }),
    ;
}

/// A state store held in memory, as a keyed list with distinct keys.
#[derive(Debug)]
pub struct InMemoryState {
    tf_state: Vec<(String, TerraformState)>,
}

impl View for InMemoryState {
    type V = Map<Seq<char>, TerraformState>;

    closed spec fn view(&self) -> Map<Seq<char>, TerraformState> {
        states_of(self.tf_state@)
    }
}

impl InMemoryState {
    /// Keys are pairwise distinct, so each lookup has one answer.
    pub closed spec fn wf(&self) -> bool {
        forall|i: int, j: int|
            0 <= i < j < self.tf_state@.len() ==> self.tf_state@[i].0@ != self.tf_state@[j].0@
    }

    /// An empty store.
    pub fn new() -> (r: InMemoryState)
        ensures
            r@ == Map::<Seq<char>, TerraformState>::empty(),
            r.wf(),
    {
        InMemoryState { tf_state: Vec::new() }
    }

    /// Inserts a fresh, unlocked, empty state under `id`, replacing
    /// whatever was stored there.
    pub fn create_state(&mut self, id: String) -> (r: Result<(), Error>)
        requires
            old(self).wf(),
        ensures
            final(self).wf(),
            r == Ok::<(), Error>(()),
            final(self)@.dom() == old(self)@.dom().insert(id@),
            final(self)@[id@].lock is None,
            final(self)@[id@].data@ == Seq::<char>::empty(),
            forall|k: Seq<char>|
                k != id@ && old(self)@.contains_key(k) ==> final(self)@.contains_key(k)
                    && final(self)@[k] == old(self)@[k],
    {
        let fresh = TerraformState::default();
        let ghost fresh_v = fresh;
        let ghost entries0 = self.tf_state@;
        let ghost key = id@;
        match find_index(&self.tf_state, id.as_str()) {
            Some(i) => {
                let _removed = self.tf_state.remove(i);
                self.tf_state.insert(i, (id, fresh));
                proof {
                    let p = self.tf_state@[i as int];
                    assert(self.tf_state@ =~= entries0.update(i as int, p));
                    lemma_states_of_update(entries0, i as int, p);
                    assert(self@ =~= old(self)@.insert(key, fresh_v));
                    assert(self@.dom() =~= old(self)@.dom().insert(key));
                    assert forall|a: int, b: int|
                        0 <= a < b < self.tf_state@.len() implies self.tf_state@[a].0@
                        != self.tf_state@[b].0@ by {
                        assert(self.tf_state@[a].0@ == entries0[a].0@);
                        assert(self.tf_state@[b].0@ == entries0[b].0@);
                    }
                }
                Ok(())
            },
            None => {
                self.tf_state.push((id, fresh));
                proof {
                    assert(self.tf_state@.drop_last() =~= entries0);
                    assert(self@ =~= old(self)@.insert(key, fresh_v));
                    assert(self@.dom() =~= old(self)@.dom().insert(key));
                    assert forall|a: int, b: int|
                        0 <= a < b < self.tf_state@.len() implies self.tf_state@[a].0@
                        != self.tf_state@[b].0@ by {
                        if b < self.tf_state@.len() - 1 {
                            assert(self.tf_state@[a].0@ == entries0[a].0@);
                            assert(self.tf_state@[b].0@ == entries0[b].0@);
                        } else {
                            assert(self.tf_state@[a].0@ == entries0[a].0@);
                        }
                    }
                }
                Ok(())
            },
        }
    }

    /// Demands that `id` exist and be unlocked.
    pub fn expect_not_locked(&self, id: &str) -> (r: Result<(), Error>)
        requires
            self.wf(),
        ensures
            !self@.contains_key(id@) ==> r == Err::<(), Error>(Error::NotFound),
            self@.contains_key(id@) && self@[id@].lock is Some ==> r == Err::<(), Error>(
                Error::StateLocked,
            ),
            self@.contains_key(id@) && self@[id@].lock is None ==> r == Ok::<(), Error>(()),
    {
        match find_index(&self.tf_state, id) {
            None => {
                proof {
                    lemma_states_of_absent(self.tf_state@, id@);
                }
                Err(Error::NotFound)
            },
            Some(i) => {
                proof {
                    lemma_states_of_found(self.tf_state@, i as int);
                }
                let locked = {
                    let e = &self.tf_state[i];
                    e.1.is_locked()
                };
                if locked {
                    Err(Error::StateLocked)
                } else {
                    Ok(())
                }
            },
        }
    }

    /// Replaces the entry at `i` (same key) with `state`, keeping the store
    /// well-formed; a helper shared by the provider's mutations.
    fn replace_state_at(&mut self, i: usize, state: TerraformState)
        requires
            old(self).wf(),
            i < old(self).tf_state@.len(),
        ensures
            final(self).wf(),
            final(self).tf_state@.len() == old(self).tf_state@.len(),
            final(self)@ == old(self)@.insert(old(self).tf_state@[i as int].0@, state),
            final(self).tf_state@ == old(self).tf_state@.update(
                i as int,
                (old(self).tf_state@[i as int].0, state),
            ),
    {
        let ghost entries0 = self.tf_state@;
        let removed = self.tf_state.remove(i);
        self.tf_state.insert(i, (removed.0, state));
        proof {
            let p = self.tf_state@[i as int];
            assert(self.tf_state@ =~= entries0.update(i as int, p));
            lemma_states_of_update(entries0, i as int, p);
            assert(self@ =~= old(self)@.insert(entries0[i as int].0@, state));
            assert forall|a: int, b: int|
                0 <= a < b < self.tf_state@.len() implies self.tf_state@[a].0@
                != self.tf_state@[b].0@ by {
                assert(self.tf_state@[a].0@ == entries0[a].0@);
                assert(self.tf_state@[b].0@ == entries0[b].0@);
            }
        }
    }
}

impl TerraformStateProvider for InMemoryState {
    open spec fn states(&self) -> Map<Seq<char>, TerraformState> {
        self.view()
    }

    open spec fn provider_wf(&self) -> bool {
        self.wf()
    }

    fn get_state(&self, id: &str) -> (r: Result<Option<TerraformState>, Error>) {
        match find_index(&self.tf_state, id) {
            None => {
                proof {
                    lemma_states_of_absent(self.tf_state@, id@);
                }
                Ok(None)
            },
            Some(i) => {
                proof {
                    lemma_states_of_found(self.tf_state@, i as int);
                }
                let st = {
                    let e = &self.tf_state[i];
                    e.1.clone()
                };
                Ok(Some(st))
            },
        }
    }

    fn update_state(&mut self, id: &str, lock_id: &str, data: String) -> (r: Result<(), Error>) {
        match find_index(&self.tf_state, id) {
            None => {
                proof {
                    lemma_states_of_absent(self.tf_state@, id@);
                }
                Err(Error::NotFound)
            },
            Some(i) => {
                proof {
                    lemma_states_of_found(self.tf_state@, i as int);
                }
                let check = {
                    let e = &self.tf_state[i];
                    e.1.check_lock(lock_id)
                };
                match check {
                    Err(e) => Err(e),
                    Ok(()) => {
                        let lock = {
                            let e = &self.tf_state[i];
                            match &e.1.lock {
                                Some(l) => Some(l.clone()),
                                None => None,
                            }
                        };
                        self.replace_state_at(i, TerraformState { lock, data });
                        Ok(())
                    },
                }
            },
        }
    }

    fn lock_state(&mut self, id: &str, lock: TerraformLock) -> (r: Result<(), Error>) {
        match find_index(&self.tf_state, id) {
            None => {
                proof {
                    lemma_states_of_absent(self.tf_state@, id@);
                }
                Err(Error::NotFound)
            },
            Some(i) => {
                proof {
                    lemma_states_of_found(self.tf_state@, i as int);
                }
                let locked = {
                    let e = &self.tf_state[i];
                    e.1.is_locked()
                };
                if locked {
                    Err(Error::StateLocked)
                } else {
                    let data = {
                        let e = &self.tf_state[i];
                        e.1.data.clone()
                    };
                    self.replace_state_at(i, TerraformState { lock: Some(lock), data });
                    Ok(())
                }
            },
        }
    }

    fn unlock_state(&mut self, id: &str, lock: &TerraformLock) -> (r: Result<(), Error>) {
        match find_index(&self.tf_state, id) {
            None => {
                proof {
                    lemma_states_of_absent(self.tf_state@, id@);
                }
                Err(Error::NotFound)
            },
            Some(i) => {
                proof {
                    lemma_states_of_found(self.tf_state@, i as int);
                }
                let held_by_other = {
                    let e = &self.tf_state[i];
                    match &e.1.lock {
                        Some(l) => !(l.id == lock.id),
                        None => false,
                    }
                };
                if held_by_other {
                    Err(Error::StateLocked)
                } else {
                    let data = {
                        let e = &self.tf_state[i];
                        e.1.data.clone()
                    };
                    self.replace_state_at(i, TerraformState { lock: None, data });
                    Ok(())
                }
            },
        }
    }
}

} // verus!
