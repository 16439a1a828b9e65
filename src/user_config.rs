//! The role and permission labels that clients may choose from.
use vstd::prelude::*;

use crate::text::{chars_of, same_chars};
use crate::user::{copy_texts, texts};

verus! {

/// One stored entry: a key and its list of values.
#[derive(Debug)]
pub struct UserConfigData {
    pub key: String,
    pub values: Vec<String>,
}

/// The labels known for roles and for permissions.
#[derive(Debug)]
pub struct UserConfigDataResponse {
    pub roles: Vec<String>,
    pub permissions: Vec<String>,
}

/// The values of the last entry under `key`, none if there is no such entry.
pub open spec fn last_values(items: Seq<UserConfigData>, key: Seq<char>) -> Seq<Seq<char>>
    decreases items.len(),
{
    if items.len() == 0 {
        seq![]
    } else if items.last().key@ == key {
        texts(items.last().values@)
    } else {
        last_values(items.drop_last(), key)
    }
}

fn same_text(a: &str, b: &str) -> (r: bool)
    ensures
        r == (a@ == b@),
{
    let x = chars_of(a);
    let y = chars_of(b);
    same_chars(x.as_slice(), y.as_slice())
}

/// The role and permission labels of the stored entries; where a key comes
/// more than once, the last entry wins.
pub fn get_user_cfg_data(items: &Vec<UserConfigData>) -> (r: UserConfigDataResponse)
    ensures
        texts(r.roles@) == last_values(items@, "roles"@),
        texts(r.permissions@) == last_values(items@, "permissions"@),
{
    let mut roles: Vec<String> = Vec::new();
    let mut permissions: Vec<String> = Vec::new();
    let mut i: usize = 0;
    while i < items.len()
        invariant
            0 <= i <= items@.len(),
            texts(roles@) == last_values(items@.take(i as int), "roles"@),
            texts(permissions@) == last_values(items@.take(i as int), "permissions"@),
        decreases items@.len() - i,
    {
        let data = &items[i];
        proof {
            assert(items@.take(i as int + 1).drop_last() == items@.take(i as int));
            assert(items@.take(i as int + 1).last() == items@[i as int]);
        }
        if same_text(data.key.as_str(), "roles") {
            roles = copy_texts(&data.values);
        }
        if same_text(data.key.as_str(), "permissions") {
            permissions = copy_texts(&data.values);
        }
        proof {
            reveal_strlit("roles");
            reveal_strlit("permissions");
        }
        i += 1;
    }
    assert(items@.take(i as int) == items@);
    UserConfigDataResponse { roles, permissions }
}

} // verus!
