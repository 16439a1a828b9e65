//! User records: what the store holds and what a token carries.
use vstd::prelude::*;

use crate::clock::now_seconds;
use crate::utils::{bcrypt_form, encrypt, hashes_to, HashingError};

verus! {

/// The views of a list of strings.
pub open spec fn texts(v: Seq<String>) -> Seq<Seq<char>> {
    v.map_values(|s: String| s@)
}

/// A copy of a list of strings.
pub(crate) fn copy_texts(v: &Vec<String>) -> (r: Vec<String>)
    ensures
        texts(r@) == texts(v@),
{
    let mut r: Vec<String> = Vec::new();
    let mut i: usize = 0;
    while i < v.len()
        invariant
            0 <= i <= v@.len(),
            texts(r@) == texts(v@.take(i as int)),
        decreases v@.len() - i,
    {
        let ghost before = r@;
        let x = v[i].clone();
        r.push(x);
        proof {
            let a = texts(r@);
            let b = texts(v@.take(i as int + 1));
            assert(texts(before).len() == before.len());
            assert(texts(v@.take(i as int)).len() == i);
            assert(before.len() == i);
            assert(r@.len() == i + 1);
            assert(a.len() == b.len());
            assert forall|j: int| 0 <= j < a.len() implies a[j] == b[j] by {
                if j < i {
                    assert(r@[j] == before[j]);
                    assert(texts(before)[j] == texts(v@.take(i as int))[j]);
                }
            }
            assert(a =~= b);
        }
        i += 1;
    }
    assert(v@.take(i as int) == v@);
    r
}

/// A key and its value, the value being JSON text.
#[derive(Debug)]
pub struct ConfigurationItems {
    pub key: String,
    pub value: String,
}

/// What a user is, apart from identity and credentials.
#[derive(Debug)]
pub struct UserBase {
    pub name: String,
    pub phone: String,
    pub roles: Vec<String>,
    pub permissions: Vec<String>,
}

pub struct UserBaseView {
    pub name: Seq<char>,
    pub phone: Seq<char>,
    pub roles: Seq<Seq<char>>,
    pub permissions: Seq<Seq<char>>,
}

impl View for UserBase {
    type V = UserBaseView;

    open spec fn view(&self) -> UserBaseView {
        UserBaseView {
            name: self.name@,
            phone: self.phone@,
            roles: texts(self.roles@),
            permissions: texts(self.permissions@),
        }
    }
}

impl Clone for UserBase {
    fn clone(&self) -> (r: Self)
        ensures
            r@ == self@,
    {
        UserBase {
            name: self.name.clone(),
            phone: self.phone.clone(),
            roles: copy_texts(&self.roles),
            permissions: copy_texts(&self.permissions),
        }
    }
}

/// The public profile of a user: identifier, creation time (seconds since
/// the epoch) and the rest of the record but the secret.
#[derive(Debug)]
pub struct UserProfile {
    pub _id: String,
    pub create_at: i64,
    pub user_base: UserBase,
}

pub struct ProfileView {
    pub id: Seq<char>,
    pub create_at: i64,
    pub base: UserBaseView,
}

impl View for UserProfile {
    type V = ProfileView;

    open spec fn view(&self) -> ProfileView {
        ProfileView { id: self._id@, create_at: self.create_at, base: self.user_base@ }
    }
}

impl Clone for UserProfile {
    fn clone(&self) -> (r: Self)
        ensures
            r@ == self@,
    {
        UserProfile {
            _id: self._id.clone(),
            create_at: self.create_at,
            user_base: self.user_base.clone(),
        }
    }
}

/// A user record as the store holds it. `_id` is the text of the store's
/// object id, `None` when the store gave an id of another kind.
#[derive(Debug)]
pub struct UserInDB {
    pub _id: Option<String>,
    pub password: String,
    pub create_at: i64,
    pub user_base: UserBase,
}

pub struct UserInDBView {
    pub id: Option<Seq<char>>,
    pub password: Seq<char>,
    pub create_at: i64,
    pub base: UserBaseView,
}

impl View for UserInDB {
    type V = UserInDBView;

    open spec fn view(&self) -> UserInDBView {
        UserInDBView {
            id: match self._id {
                Some(s) => Some(s@),
                None => None,
            },
            password: self.password@,
            create_at: self.create_at,
            base: self.user_base@,
        }
    }
}

/// The profile of a stored record: its fields without the secret, and an
/// empty identifier where the record's id is not an object id.
pub open spec fn profile_of(rec: UserInDBView) -> ProfileView {
    ProfileView {
        id: match rec.id {
            Some(s) => s,
            None => seq![],
        },
        create_at: rec.create_at,
        base: rec.base,
    }
}

impl UserProfile {
    /// The profile of a stored record.
    pub fn from(value: UserInDB) -> (r: UserProfile)
        ensures
            r@ == profile_of(value@),
    {
        let sid = match value._id {
            Some(s) => s,
            None => String::new(),
        };
        UserProfile { _id: sid, create_at: value.create_at, user_base: value.user_base }
    }

    /// The built-in super user, created now.
    pub fn default_super() -> (r: UserProfile)
        ensures
            r@.id == "0"@,
            r@.base.name == "super"@,
            r@.base.phone == "111111"@,
            r@.base.roles == seq!["super"@],
            r@.base.permissions == Seq::<Seq<char>>::empty(),
    {
        Self::default_super_at(now_seconds())
    }

    /// The built-in super user, created at `now`.
    pub fn default_super_at(now: i64) -> (r: UserProfile)
        ensures
            r@.id == "0"@,
            r@.create_at == now,
            r@.base.name == "super"@,
            r@.base.phone == "111111"@,
            r@.base.roles == seq!["super"@],
            r@.base.permissions == Seq::<Seq<char>>::empty(),
    {
        let mut roles: Vec<String> = Vec::new();
        roles.push(String::from_str("super"));
        let base = UserBase {
            name: String::from_str("super"),
            phone: String::from_str("111111"),
            roles,
            permissions: Vec::new(),
        };
        proof {
            assert(texts(base.roles@) =~= seq!["super"@]);
            assert(texts(base.permissions@) =~= Seq::<Seq<char>>::empty());
        }
        UserProfile { _id: String::from_str("0"), create_at: now, user_base: base }
    }
}

/// What a client sends to register a user.
#[derive(Debug)]
pub struct UserCreation {
    pub password: String,
    pub user_base: UserBase,
}

/// A registration as it is stored: the secret replaced by its hash, and the
/// time of creation.
#[derive(Debug)]
pub struct UserCreationDB {
    pub create_at: i64,
    pub user_creation: UserCreation,
}

impl UserCreationDB {
    /// The stored form of a registration, created now.
    pub fn from(value: UserCreation) -> (r: Result<UserCreationDB, HashingError>)
        ensures
            r matches Ok(u) ==> {
                &&& u.user_creation.user_base@ == value.user_base@
                &&& hashes_to(value.password@, u.user_creation.password@)
                &&& bcrypt_form(u.user_creation.password@)
            },
    {
        Self::from_at(value, now_seconds())
    }

    /// The stored form of a registration, created at `now`.
    pub fn from_at(value: UserCreation, now: i64) -> (r: Result<UserCreationDB, HashingError>)
        ensures
            r matches Ok(u) ==> {
                &&& u.create_at == now
                &&& u.user_creation.user_base@ == value.user_base@
                &&& hashes_to(value.password@, u.user_creation.password@)
                &&& bcrypt_form(u.user_creation.password@)
            },
    {
        let hashed = match encrypt(value.password.as_str()) {
            Ok(h) => h,
            Err(e) => {
                return Err(e);
            },
        };
        Ok(
            UserCreationDB {
                create_at: now,
                user_creation: UserCreation { password: hashed, user_base: value.user_base },
            },
        )
    }
}

/// The number of users the store holds.
#[derive(Debug)]
pub struct NumberOfUsers {
    pub total: i32,
}

/// Which page of the user list to return, and in which order.
#[derive(Debug)]
pub struct QueryUserListOptions {
    pub limit: i64,
    pub skip: u64,
    pub sort_by_name: i8,
}

impl QueryUserListOptions {
    /// The direction to sort by name: `-1` descending, `1` ascending, none
    /// for any other request.
    pub fn name_order(&self) -> (r: Option<i32>)
        ensures
            r == (if self.sort_by_name == -1 {
                Some(-1i32)
            } else if self.sort_by_name == 1 {
                Some(1i32)
            } else {
                None
            }),
    {
        if self.sort_by_name == -1 {
            Some(-1)
        } else if self.sort_by_name == 1 {
            Some(1)
        } else {
            None
        }
    }
}

/// The profile of what a lookup found, if it found anything.
pub fn user_prfile_after_find(res: Option<UserInDB>) -> (r: Option<UserProfile>)
    ensures
        res is None ==> r is None,
        res matches Some(rec) ==> r matches Some(p) && p@ == profile_of(rec@),
{
    match res {
        Some(rec) => Some(UserProfile::from(rec)),
        None => None,
    }
}

} // verus!
