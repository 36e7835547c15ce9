//! Authenticator: one admin user, verified against an Argon2 PHC
//! hash.  Hashing and verification are the work of the argon2 crate;
//! the engine states only what that crate documents and proves the
//! user-table logic around it.

use argon2::password_hash::PasswordHash;
use argon2::password_hash::PasswordHasher;
use argon2::password_hash::PasswordVerifier;
use argon2::password_hash::SaltString;
use argon2::Argon2;
use rand::rngs::OsRng;
use vstd::pervasive::VecAdditionalExecFns;
use vstd::prelude::*;

use crate::inventory::same_catalog;
use crate::inventory::same_sales;
use crate::inventory::same_settings;
use crate::store::Store;
use crate::store::User;
use crate::store::UserV;
use crate::StoreError;

verus! {

/// Whether a stored credential parses as a PHC string: a function of
/// the string alone.
pub uninterp spec fn phc_parses(hash: Seq<char>) -> bool;

/// Whether a password verifies against a PHC hash string.  The hash
/// carries its own algorithm, parameters and salt, so this is a
/// function of the two strings alone.
pub uninterp spec fn verifies(hash: Seq<char>, password: Seq<char>) -> bool;

/// Relies on argon2: `SaltString::generate` draws a fresh salt from
/// the operating system and `Argon2::hash_password` (the
/// `PasswordHasher` impl) hashes the password under it.  Of the
/// random result only the documented round trip is stated: the
/// serialized PHC string parses back, and verifies the very password
/// it was made from.
#[verifier::external_body]
fn argon2_hash(password: &str) -> (r: Option<String>)
    ensures
        r matches Some(h) ==> phc_parses(h@) && verifies(h@, password@),
{
    let salt = SaltString::generate(&mut OsRng);
    match Argon2::default().hash_password(password.as_bytes(), &salt) {
        Ok(h) => Some(h.to_string()),
        Err(_) => None,
    }
}

/// Relies on argon2: `PasswordHash::new` parses the stored PHC
/// string, and `Argon2::verify_password` (the `PasswordVerifier`
/// impl) re-hashes the candidate under the parameters and salt the
/// string carries.  Parsing depends on the hash string alone and the
/// verdict on the two strings alone.
#[verifier::external_body]
fn argon2_verify(hash: &str, password: &str) -> (r: Option<bool>)
    ensures
        r is Some <==> phc_parses(hash@),
        r matches Some(b) ==> b == verifies(hash@, password@),
{
    match PasswordHash::new(hash) {
        Ok(parsed) => Some(Argon2::default().verify_password(password.as_bytes(), &parsed).is_ok()),
        Err(_) => None,
    }
}

/// Does the table hold a user of this name?
pub open spec fn has_user(users: Seq<UserV>, name: Seq<char>) -> bool {
    exists|i: int| 0 <= i < users.len() && users[i].username == name
}

/// Index of the user of this name; single-valued where usernames are
/// unique.
pub open spec fn user_index(users: Seq<UserV>, name: Seq<char>) -> int {
    choose|i: int| 0 <= i < users.len() && users[i].username == name
}

/// What a login decides: the user exists and the password verifies
/// against the stored hash.
pub open spec fn spec_login(users: Seq<UserV>, name: Seq<char>, pw: Seq<char>) -> bool {
    has_user(users, name) && verifies(users[user_index(users, name)].password_hash, pw)
}

impl Store {
    /// Index of the user named `username`, if the table has one.
    #[verifier::loop_isolation(false)]
    fn find_user(&self, username: &String) -> (r: Option<usize>)
        ensures
            match r {
                Some(i) => i < self@.users.len() && self@.users[i as int].username == username@,
                None => !has_user(self@.users, username@),
            },
    {
        let mut i: usize = 0;
        while i < self.users.len()
            invariant
                i <= self@.users.len(),
                forall|t: int| 0 <= t < i ==> #[trigger] self@.users[t].username != username@,
            decreases self@.users.len() - i,
        {
            if self.users[i].username == *username {
                return Some(i);
            }
            i = i + 1;
        }
        None
    }

    /// Whether `password` is the password of `username`.  An unknown
    /// user answers `false`, never an error, so names cannot be
    /// probed; a stored hash that does not parse is the one failure.
    pub fn login(&self, username: String, password: String) -> (r: Result<bool, StoreError>)
        requires
            self.wf(),
        ensures
            r matches Ok(b) ==> b == spec_login(self@.users, username@, password@),
            r is Err <==> has_user(self@.users, username@) && !phc_parses(
                self@.users[user_index(self@.users, username@)].password_hash,
            ),
            r is Err ==> r == Err::<bool, StoreError>(StoreError::Validation),
    {
        match self.find_user(&username) {
            None => Ok(false),
            Some(i) => {
                proof {
                    let c = user_index(self@.users, username@);
                    assert(has_user(self@.users, username@));
                    assert(0 <= c < self@.users.len() && self@.users[c].username == username@);
                    assert(c == i as int);
                }
                match argon2_verify(self.users[i].password_hash.as_str(), password.as_str()) {
                    None => Err(StoreError::Validation),
                    Some(b) => Ok(b),
                }
            },
        }
    }

    /// Store a fresh hash of `new_password` for `username`.
    pub fn set_password(&mut self, username: String, new_password: String) -> (r: Result<
        (),
        StoreError,
    >)
        requires
            old(self).wf(),
        ensures
            final(self).wf(),
            r is Err ==> *final(self) == *old(self),
            r == Err::<(), StoreError>(StoreError::NotFound) <==> !has_user(
                old(self)@.users,
                username@,
            ),
            has_user(old(self)@.users, username@) ==> r is Ok || r == Err::<(), StoreError>(
                StoreError::Validation,
            ),
            r is Ok ==> {
                let idx = user_index(old(self)@.users, username@);
                let h = final(self)@.users[idx].password_hash;
                &&& has_user(old(self)@.users, username@)
                &&& phc_parses(h)
                &&& verifies(h, new_password@)
                &&& final(self)@.users == old(self)@.users.update(
                    idx,
                    (UserV { username: username@, password_hash: h }),
                )
                &&& same_catalog(old(self)@, final(self)@)
                &&& same_sales(old(self)@, final(self)@)
                &&& same_settings(old(self)@, final(self)@)
            },
    {
        match self.find_user(&username) {
            None => Err(StoreError::NotFound),
            Some(i) => {
                proof {
                    let c = user_index(self@.users, username@);
                    assert(has_user(self@.users, username@));
                    assert(0 <= c < self@.users.len() && self@.users[c].username == username@);
                    assert(c == i as int);
                }
                match argon2_hash(new_password.as_str()) {
                    None => Err(StoreError::Validation),
                    Some(hash) => {
                        let ghost hv = hash@;
                        self.users.set(i, User { username, password_hash: hash });
                        proof {
                            let nu = self@.users;
                            let ou = old(self)@.users;
                            assert(self@.sales == old(self)@.sales);
                            assert(self@.sale_items == old(self)@.sale_items);
                            assert(self@.settings == old(self)@.settings);
                            assert(self@.products == old(self)@.products);
                            assert(nu =~= ou.update(
                                i as int,
                                (UserV { username: username@, password_hash: hv }),
                            ));
                            assert forall|a: int| 0 <= a < nu.len() implies #[trigger] nu[a].username
                                == ou[a].username by {
                                if a != i as int {
                                    assert(nu[a] == ou[a]);
                                }
                            }
                        }
                        Ok(())
                    },
                }
            },
        }
    }

    /// Idempotent first-run seeding: only where no users exist at
    /// all, create the admin user with a hash of the well-known
    /// default credential.  A table with any user in it is left
    /// exactly as it is.  A fresh deployment must change the default
    /// at once.
    pub fn init_db(&mut self) -> (r: Result<(), StoreError>)
        requires
            old(self).wf(),
        ensures
            final(self).wf(),
            r is Err ==> *final(self) == *old(self) && r == Err::<(), StoreError>(
                StoreError::Validation,
            ),
            old(self)@.users.len() > 0 ==> r == Ok::<(), StoreError>(()) && *final(self) == *old(
                self,
            ),
            old(self)@.users.len() == 0 && r is Ok ==> {
                let h = final(self)@.users[0].password_hash;
                &&& phc_parses(h)
                &&& verifies(h, "admin"@)
                &&& final(self)@.users == old(self)@.users.push(
                    (UserV { username: "admin"@, password_hash: h }),
                )
                &&& same_catalog(old(self)@, final(self)@)
                &&& same_sales(old(self)@, final(self)@)
                &&& same_settings(old(self)@, final(self)@)
            },
    {
        if self.users.len() > 0 {
            return Ok(());
        }
        match argon2_hash("admin") {
            None => Err(StoreError::Validation),
            Some(hash) => {
                let ghost hv = hash@;
                self.users.push(User { username: "admin".to_owned(), password_hash: hash });
                proof {
                    assert(self@.sales == old(self)@.sales);
                    assert(self@.sale_items == old(self)@.sale_items);
                    assert(self@.settings == old(self)@.settings);
                    assert(self@.products == old(self)@.products);
                    assert(self@.users =~= old(self)@.users.push(
                        (UserV { username: "admin"@, password_hash: hv }),
                    ));
                    assert(self@.users.len() == 1);
                }
                Ok(())
            },
        }
    }
}

/// After a password change, a login with the new password succeeds:
/// the stored hash verifies the password it was just made from.
pub proof fn lemma_login_after_set_password(
    before: Seq<UserV>,
    after: Seq<UserV>,
    name: Seq<char>,
    h: Seq<char>,
    new_pw: Seq<char>,
)
    requires
        forall|i: int, j: int|
            0 <= i < j < before.len() ==> #[trigger] before[i].username
                != #[trigger] before[j].username,
        has_user(before, name),
        verifies(h, new_pw),
        after == before.update(user_index(before, name), (UserV { username: name, password_hash: h })),
    ensures
        spec_login(after, name, new_pw),
{
    let idx = user_index(before, name);
    assert(0 <= idx < before.len() && before[idx].username == name);
    assert(after[idx].username == name);
    assert(has_user(after, name));
    let c = user_index(after, name);
    assert(0 <= c < after.len() && after[c].username == name);
    if c != idx {
        assert(after[c] == before[c]);
        assert(before[c].username != before[idx].username);
    }
    assert(after[c].password_hash == h);
}

/// And a login with the old password now fails, provided the fresh
/// hash does not happen to verify the old password too.
pub proof fn lemma_old_password_rejected(
    before: Seq<UserV>,
    after: Seq<UserV>,
    name: Seq<char>,
    h: Seq<char>,
    old_pw: Seq<char>,
)
    requires
        forall|i: int, j: int|
            0 <= i < j < before.len() ==> #[trigger] before[i].username
                != #[trigger] before[j].username,
        has_user(before, name),
        !verifies(h, old_pw),
        after == before.update(user_index(before, name), (UserV { username: name, password_hash: h })),
    ensures
        !spec_login(after, name, old_pw),
{
    let idx = user_index(before, name);
    assert(0 <= idx < before.len() && before[idx].username == name);
    assert(after[idx].username == name);
    let c = user_index(after, name);
    assert(0 <= c < after.len() && after[c].username == name);
    if c != idx {
        assert(after[c] == before[c]);
        assert(before[c].username != before[idx].username);
    }
    assert(after[c].password_hash == h);
}

/// A store seeded as initialization leaves it answers the default
/// credential: the admin user exists and its hash verifies it.
pub proof fn lemma_admin_login_after_init(before: Seq<UserV>, after: Seq<UserV>, h: Seq<char>)
    requires
        !has_user(before, "admin"@),
        verifies(h, "admin"@),
        after == before.push((UserV { username: "admin"@, password_hash: h })),
    ensures
        spec_login(after, "admin"@, "admin"@),
{
    let idx = before.len() as int;
    assert(after[idx].username == "admin"@);
    assert(has_user(after, "admin"@));
    let c = user_index(after, "admin"@);
    assert(0 <= c < after.len() && after[c].username == "admin"@);
    if c != idx {
        assert(after[c] == before[c]);
        assert(has_user(before, "admin"@));
    }
    assert(after[c].password_hash == h);
}

} // verus!
