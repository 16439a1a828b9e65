use cf::user::{
    user_prfile_after_find, QueryUserListOptions, UserBase, UserCreation, UserCreationDB,
    UserInDB, UserProfile,
};
use cf::user_config::{get_user_cfg_data, UserConfigData};
use cf::utils::valid;

fn base() -> UserBase {
    UserBase {
        name: "zhangsang".to_string(),
        phone: "12344".to_string(),
        roles: vec![],
        permissions: vec![],
    }
}

#[test]
fn default_super_user() {
    let s = UserProfile::default_super();
    assert_eq!(s._id, "0");
    assert_eq!(s.user_base.name, "super");
    assert_eq!(s.user_base.phone, "111111");
    assert_eq!(s.user_base.roles, vec!["super".to_string()]);
    assert!(s.user_base.permissions.is_empty());
}

#[test]
fn profile_of_found_record() {
    assert!(user_prfile_after_find(None).is_none());
    let rec = UserInDB {
        _id: Some("asdfbasfalsjdf".to_string()),
        password: "$2b$12$x".to_string(),
        create_at: 7,
        user_base: base(),
    };
    let p = user_prfile_after_find(Some(rec)).unwrap();
    assert_eq!(p._id, "asdfbasfalsjdf");
    assert_eq!(p.create_at, 7);
    assert_eq!(p.user_base.name, "zhangsang");
}

#[test]
fn registration_stores_a_hash() {
    let u = UserCreationDB::from(UserCreation { password: "pw".to_string(), user_base: base() })
        .unwrap();
    assert_ne!(u.user_creation.password, "pw");
    assert_eq!(valid("pw", &u.user_creation.password), Ok(true));
    assert_eq!(u.user_creation.user_base.name, "zhangsang");
}

#[test]
fn name_order_of_page_query() {
    let q = |s: i8| QueryUserListOptions { limit: 10, skip: 0, sort_by_name: s };
    assert_eq!(q(-1).name_order(), Some(-1));
    assert_eq!(q(1).name_order(), Some(1));
    assert_eq!(q(0).name_order(), None);
    assert_eq!(q(5).name_order(), None);
}

#[test]
fn config_data_last_entry_wins() {
    let e = |k: &str, v: &[&str]| UserConfigData {
        key: k.to_string(),
        values: v.iter().map(|s| s.to_string()).collect(),
    };
    let items = vec![
        e("roles", &["a"]),
        e("permissions", &["r"]),
        e("other", &["z"]),
        e("roles", &["b", "c"]),
    ];
    let r = get_user_cfg_data(&items);
    assert_eq!(r.roles, vec!["b".to_string(), "c".to_string()]);
    assert_eq!(r.permissions, vec!["r".to_string()]);
    let r = get_user_cfg_data(&vec![]);
    assert!(r.roles.is_empty() && r.permissions.is_empty());
}

#[test]
fn creation_times_come_from_the_caller() {
    let s = UserProfile::default_super_at(1_234);
    assert_eq!(s.create_at, 1_234);
    assert_eq!(s.user_base.name, "super");
    let u = UserCreationDB::from_at(UserCreation { password: "pw".to_string(), user_base: base() }, 99)
        .unwrap();
    assert_eq!(u.create_at, 99);
    assert_eq!(u.user_creation.password.len(), 60);
    assert_eq!(valid("pw", &u.user_creation.password), Ok(true));
}
