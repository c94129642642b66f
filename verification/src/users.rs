//! User creation: the password leaves this module only as a salted
//! bcrypt hash, never in the clear.

use vstd::prelude::*;
use crate::types::CreateUserRequest;

verus! {

/// What is stored for a new user.
pub struct UserRecord {
    pub username: String,
    pub password_hash: String,
}

/// Relies on bcrypt::hash with the crate's default cost: the result is
/// the full bcrypt hash string, always exactly 60 bytes (ASCII), built
/// from a randomly drawn salt; it fails only when the system's
/// randomness source does.
#[verifier::external_body]
fn hash_password(password: &str) -> (r: Option<String>)
    ensures
        match r {
            Some(h) => h@.len() == 60,
            None => true,
        },
{
    bcrypt::hash(password, bcrypt::DEFAULT_COST).ok()
}

/// Prepares the stored record for a user-creation request: the username
/// as given, the password replaced by its salted hash. `None` only when
/// hashing itself failed.
pub fn create_user(request: CreateUserRequest) -> (r: Option<UserRecord>)
    ensures
        match r {
            Some(u) => u.username == request.username && u.password_hash@.len() == 60,
            None => true,
        },
{
    let CreateUserRequest { username, password } = request;
    match hash_password(password.as_str()) {
        Some(password_hash) => Some(UserRecord { username, password_hash }),
        None => None,
    }
}

/// A stored user account.
pub struct UserModel {
    pub id: i32,
    pub username: String,
    pub password_hash: String,
}

/// The user table, modelled: accounts with store-assigned ids.
pub struct UserDatabase {
    pub users: Vec<UserModel>,
    pub next_id: i32,
}

/// Whether a stored account matches a login attempt. The credential
/// column is compared verbatim against what the caller supplies, as the
/// login query does.
pub open spec fn login_matches(u: &UserModel, username: Seq<char>, password: Seq<char>) -> bool {
    u.username@ == username && u.password_hash@ == password
}

/// Whether some stored account already carries this username.
pub open spec fn has_username(users: Seq<UserModel>, username: Seq<char>) -> bool {
    exists|t: int| 0 <= t < users.len() && #[trigger] users[t].username@ == username
}

impl UserDatabase {
    /// Well-formedness: ids are positive, strictly increasing and below
    /// `next_id`, and usernames are unique — the username column's
    /// uniqueness constraint.
    pub open spec fn wf(&self) -> bool {
        &&& self.next_id >= 1
        &&& forall|k: int|
            0 <= k < self.users@.len() ==> 1 <= #[trigger] self.users@[k].id < self.next_id
        &&& forall|k: int, l: int|
            0 <= k < l < self.users@.len() ==> self.users@[k].id < self.users@[l].id
        &&& forall|k: int, l: int|
            0 <= k < l < self.users@.len() ==> self.users@[k].username@
                != self.users@[l].username@
    }

    /// An empty user table.
    pub fn new() -> (r: UserDatabase)
        ensures
            r.wf(),
            r.users@ == Seq::<UserModel>::empty(),
            r.next_id == 1,
    {
        UserDatabase { users: Vec::new(), next_id: 1 }
    }

    /// Stores a new account. `password` carries what is to stand in the
    /// credential column — the account handler passes the bcrypt hash,
    /// never the clear password. The username column is unique: an
    /// insert under a taken username fails and changes nothing, as does
    /// one when the id space is exhausted; any other insert succeeds.
    pub fn create_user(&mut self, username: String, password: String) -> (r: Result<
        (),
        crate::types::StoreError,
    >)
        requires
            old(self).wf(),
        ensures
            final(self).wf(),
            (has_username(old(self).users@, username@) || old(self).next_id >= 2147483647) ==> {
                &&& r is Err
                &&& final(self).users@ == old(self).users@
                &&& final(self).next_id == old(self).next_id
            },
            !(has_username(old(self).users@, username@) || old(self).next_id >= 2147483647) ==> {
                &&& r is Ok
                &&& final(self).users@.len() == old(self).users@.len() + 1
                &&& final(self).users@.subrange(0, old(self).users@.len() as int) == old(
                    self,
                ).users@
                &&& final(self).users@.last().username == username
                &&& final(self).users@.last().password_hash == password
                &&& final(self).users@.last().id == old(self).next_id
                &&& final(self).next_id == old(self).next_id + 1
            },
    {
        if self.has_user(&username) {
            return Err(crate::types::StoreError {});
        }
        if self.next_id >= 2147483647 {
            return Err(crate::types::StoreError {});
        }
        self.users.push(UserModel { id: self.next_id, username, password_hash: password });
        self.next_id = self.next_id + 1;
        proof {
            assert(self.users@.subrange(0, old(self).users@.len() as int) =~= old(self).users@);
        }
        Ok(())
    }

    /// Whether the table already holds an account under this username.
    fn has_user(&self, username: &String) -> (r: bool)
        ensures
            r == has_username(self.users@, username@),
    {
        let n = self.users.len();
        let mut k: usize = 0;
        while k < n
            invariant
                k <= n,
                n == self.users@.len(),
                forall|s: int| 0 <= s < k ==> #[trigger] self.users@[s].username@ != username@,
            decreases n - k,
        {
            if self.users[k].username == *username {
                proof {
                    assert(self.users@[k as int].username@ == username@);
                }
                return true;
            }
            k = k + 1;
        }
        false
    }

    /// Finds the first account whose username and credential column both
    /// match what was supplied; `None` when no account does.
    pub fn get_user_for_login(&self, username: String, password: String) -> (r: Option<UserModel>)
        ensures
            match r {
                Some(u) => exists|t: int|
                    {
                        &&& 0 <= t < self.users@.len()
                        &&& #[trigger] login_matches(&self.users@[t], username@, password@)
                        &&& forall|s: int| 0 <= s < t ==> !login_matches(
                            &self.users@[s],
                            username@,
                            password@,
                        )
                        &&& u.id == self.users@[t].id
                        &&& u.username@ == self.users@[t].username@
                        &&& u.password_hash@ == self.users@[t].password_hash@
                    },
                None => forall|t: int|
                    0 <= t < self.users@.len() ==> !login_matches(
                        &self.users@[t],
                        username@,
                        password@,
                    ),
            },
    {
        let n = self.users.len();
        let mut k: usize = 0;
        while k < n
            invariant
                k <= n,
                n == self.users@.len(),
                forall|s: int|
                    0 <= s < k ==> !login_matches(&self.users@[s], username@, password@),
            decreases n - k,
        {
            let u = &self.users[k];
            if u.username == username && u.password_hash == password {
                proof {
                    assert(login_matches(&self.users@[k as int], username@, password@));
                }
                return Some(
                    UserModel {
                        id: u.id,
                        username: u.username.clone(),
                        password_hash: u.password_hash.clone(),
                    },
                );
            }
            k = k + 1;
        }
        None
    }
}

} // verus!
