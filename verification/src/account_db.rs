//! The central server's table of accounts, with a secondary index from
//! username to account id that keeps usernames unique on registration.
//!
//! The table does not read the accounts it holds: the username of each one
//! is handed in beside it.

use crate::bytes::AccountId;
use crate::fmt::string_append;
use std::collections::HashMap;
use vstd::hash_map::StringHashMap;
use vstd::prelude::*;
use vstd::std_specs::iter::IteratorSpec;

verus! {

broadcast use vstd::std_specs::hash::group_hash_axioms;

/// `HashMap::get_mut` (std): a mutable reference to the value under `k`,
/// if there is one. Writing through it changes that entry and nothing else.
#[verifier::external_body]
fn map_get_mut<'a, A>(m: &'a mut HashMap<AccountId, A>, k: AccountId) -> (r: Option<&'a mut A>)
    ensures
        r is Some <==> old(m)@.contains_key(k),
        r is None ==> final(m)@ == old(m)@,
        r matches Some(v) ==> *v == old(m)@[k] && final(m)@ == old(m)@.insert(k, *final(v)),
{
    m.get_mut(&k)
}

/// Accounts by id, and ids by username.
pub struct AccountDB<A> {
    accounts: HashMap<AccountId, A>,
    username_index: StringHashMap<AccountId>,
}

/// The message of a refused registration: `Username '<name>' ya existe`.
pub open spec fn duplicate_username_message(username: Seq<char>) -> Seq<char> {
    "Username '"@ + username + "' ya existe"@
}

impl<A> AccountDB<A> {
    /// The accounts, by id.
    pub closed spec fn accounts(&self) -> Map<AccountId, A> {
        self.accounts@
    }

    /// The username index: the id each known username was last given.
    pub closed spec fn usernames(&self) -> Map<Seq<char>, AccountId> {
        self.username_index@
    }

    pub fn new() -> (db: Self)
        ensures
            db.accounts() == Map::<AccountId, A>::empty(),
            db.usernames() == Map::<Seq<char>, AccountId>::empty(),
    {
        AccountDB { accounts: HashMap::new(), username_index: StringHashMap::new() }
    }

    /// Registers `account` under `id`, `username` being its username. Refused,
    /// with nothing changed, when the username is already known.
    pub fn insert(&mut self, id: AccountId, username: String, account: A) -> (r: Result<(), String>)
        ensures
            r is Err <==> old(self).usernames().contains_key(username@),
            r matches Err(e) ==> e@ == duplicate_username_message(username@),
            r is Err ==> final(self).accounts() == old(self).accounts() && final(self).usernames()
                == old(self).usernames(),
            r is Ok ==> final(self).accounts() == old(self).accounts().insert(id, account)
                && final(self).usernames() == old(self).usernames().insert(username@, id),
    {
        if self.username_index.contains_key(username.as_str()) {
            let mut e = String::new();
            string_append(&mut e, "Username '");
            string_append(&mut e, username.as_str());
            string_append(&mut e, "' ya existe");
            proof {
                reveal_strlit("Username '");
                reveal_strlit("' ya existe");
                assert(e@ =~= duplicate_username_message(username@));
            }
            return Err(e);
        }
        self.username_index.insert(username, id);
        self.accounts.insert(id, account);
        Ok(())
    }

    /// Puts `account` under `id`, replacing whatever was there, and points
    /// `username` at `id`. Used when replicating state, where the id is
    /// authoritative.
    pub fn upsert(&mut self, id: AccountId, username: String, account: A)
        ensures
            final(self).accounts() == old(self).accounts().insert(id, account),
            final(self).usernames() == old(self).usernames().insert(username@, id),
    {
        self.username_index.insert(username, id);
        self.accounts.insert(id, account);
    }

    pub fn get(&self, id: &AccountId) -> (r: Option<&A>)
        ensures
            r is Some <==> self.accounts().contains_key(*id),
            r matches Some(a) ==> *a == self.accounts()[*id],
    {
        self.accounts.get(id)
    }

    /// The account under `id`, to be changed in place. The change reaches
    /// that account only.
    pub fn get_mut(&mut self, id: &AccountId) -> (r: Option<&mut A>)
        ensures
            r is Some <==> old(self).accounts().contains_key(*id),
            final(self).usernames() == old(self).usernames(),
            r is None ==> final(self).accounts() == old(self).accounts(),
            r matches Some(a) ==> *a == old(self).accounts()[*id] && final(self).accounts()
                == old(self).accounts().insert(*id, *final(a)),
    {
        map_get_mut(&mut self.accounts, *id)
    }

    pub fn contains_key(&self, id: &AccountId) -> (r: bool)
        ensures
            r == self.accounts().contains_key(*id),
    {
        self.accounts.contains_key(id)
    }

    /// Walks the accounts, each once, in no set order.
    pub fn iter(&self) -> (it: std::collections::hash_map::Iter<'_, AccountId, A>)
        ensures
            it.remaining().len() == self.accounts().dom().len(),
            forall|i: int|
                0 <= i < it.remaining().len() ==> #[trigger] self.accounts().contains_key(
                    *it.remaining()[i].0,
                ) && self.accounts()[*it.remaining()[i].0] == *it.remaining()[i].1,
            forall|k: AccountId| #[trigger]
                self.accounts().contains_key(k) ==> it.remaining().contains(
                    (&k, &self.accounts()[k]),
                ),
    {
        self.accounts.iter()
    }
}

/// Once an account is registered (or replicated) under a username, that
/// username is taken: the account is in the table, the username points at
/// it, and by the contract of `insert` any later registration under the
/// same username is refused.
pub proof fn lemma_registered_username_taken<A>(
    before: AccountDB<A>,
    after: AccountDB<A>,
    id: AccountId,
    username: Seq<char>,
    account: A,
)
    requires
        after.accounts() == before.accounts().insert(id, account),
        after.usernames() == before.usernames().insert(username, id),
    ensures
        after.usernames().contains_key(username),
        after.usernames()[username] == id,
        after.accounts().contains_key(id),
{
}

} // verus!
