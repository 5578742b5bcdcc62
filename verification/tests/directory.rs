use firm_mesh::ad::{self, SUser};
use firm_mesh::oldap::{self, AuthError, Login};
use firm_mesh::firm::Auth;

fn user(uid: u32, pid: u32, cn: &str, dn: &str) -> SUser {
    SUser { uid, pid, cn: cn.to_string(), dn: dn.to_string() }
}

fn sample() -> Vec<SUser> {
    vec![
        user(30, 3, "Sello Mokoena", "CN=Sello M"),
        user(10, 1, "Thabo", "CN=Thabo"),
        user(20, 2, "sello lower", "CN=lower"),
        user(10, 9, "Second Ten", "CN=Ten2"),
        user(1028028, 77, "Tshepo", "CN=Tshepo"),
    ]
}

#[test]
fn get_cn_finds_by_number() {
    let dir = ad::init(&sample());
    let u = ad::get_cn(&dir, &20).unwrap();
    assert_eq!((u.uid, u.pid, u.cn.as_str(), u.dn.as_str()), (20, 2, "sello lower", "CN=lower"));
    // two users share 10: the first in file order is found
    let u = ad::get_cn(&dir, &10).unwrap();
    assert_eq!(u.pid, 1);
    assert!(ad::get_cn(&dir, &11).is_none());
    assert!(ad::get_cn(&dir, &0).is_none());
    assert!(ad::get_cn(&dir, &u32::MAX).is_none());
}

#[test]
fn empty_directory() {
    let dir = ad::init(&vec![]);
    assert!(ad::get_cn(&dir, &1).is_none());
    assert!(ad::search_users(&dir, "").is_empty());
    assert_eq!(ad::create_evp_file(&dir), "");
}

#[test]
fn search_is_case_sensitive_substring() {
    let dir = ad::init(&sample());
    let m = ad::search_users(&dir, "Sello");
    assert_eq!(m.len(), 1);
    assert_eq!(m[&30].cn, "Sello Mokoena");
    let m = ad::search_users(&dir, "ello");
    let mut keys: Vec<u32> = m.keys().cloned().collect();
    keys.sort();
    assert_eq!(keys, vec![20, 30]);
    // an empty word matches everyone; the later of two users with one number wins
    let m = ad::search_users(&dir, "");
    assert_eq!(m.len(), 4);
    assert_eq!(m[&10].pid, 9);
    assert!(ad::search_users(&dir, "Mokoena Sello").is_empty());
}

#[test]
fn evp_file_content() {
    let dir = ad::init(&vec![user(7, 70, "A", "B"), user(5, 50, "C", "D")]);
    assert_eq!(
        ad::create_evp_file(&dir),
        "- uuid: 5\n  stat: 0\n  cate: 0\n  days: 4294967295\n  muid: 50\n  appr: false\n\
         - uuid: 7\n  stat: 0\n  cate: 0\n  days: 4294967295\n  muid: 70\n  appr: false"
    );
}

fn auth(id: &str, pwd: &str) -> Auth {
    Auth { user_id: id.to_string(), user_pwd: pwd.to_string() }
}

#[test]
fn local_login_accepts_only_fixed_account() {
    let dir = ad::init(&sample());
    let c = oldap::authenticate_local(&dir, &auth("S1028028", "tshepo")).unwrap().unwrap();
    assert_eq!((c.uid, c.pid, c.cn.as_str()), (1028028, 77, "Tshepo"));
    match oldap::authenticate_local(&dir, &auth("S1028028", "wrong")) {
        Err(AuthError::NativeError(m)) => assert_eq!(m, "Invalid user and password combination"),
        Ok(_) => panic!("accepted"),
    }
    assert!(oldap::authenticate_local(&dir, &auth("S10", "tshepo")).is_err());
    // the account is accepted even when the directory does not know the user
    let none = ad::init(&vec![]);
    assert!(oldap::authenticate_local(&none, &auth("S1028028", "tshepo")).unwrap().is_none());
}

#[test]
fn login_through_directory_server() {
    let dir = ad::init(&sample());
    let c = oldap::authenticate(&dir, &auth("S20", "x"), Login::Bound(Ok(()))).unwrap().unwrap();
    assert_eq!(c.uid, 20);
    assert!(oldap::authenticate(&dir, &auth("S21", "x"), Login::Bound(Ok(()))).unwrap().is_none());
    match oldap::authenticate(
        &dir,
        &auth("S20", "x"),
        Login::Bound(Err(AuthError::NativeError("Invalid credentials".to_string()))),
    ) {
        Err(e) => assert_eq!(e.message(), "LDAP error: Invalid credentials"),
        Ok(_) => panic!("accepted"),
    }
    let c = oldap::authenticate(&dir, &auth("S1028028", "tshepo"), Login::Local).unwrap().unwrap();
    assert_eq!(c.uid, 1028028);
    assert!(oldap::authenticate(&dir, &auth("S20", "x"), Login::Local).is_err());
}

#[test]
fn user_numbers_and_bind_names() {
    assert_eq!(oldap::user_number("S1028028"), Some(1028028));
    assert_eq!(oldap::user_number("S+5"), Some(5));
    assert_eq!(oldap::user_number("S"), None);
    assert_eq!(oldap::user_number(""), None);
    assert_eq!(oldap::user_number("É12"), None);
    assert_eq!(oldap::user_number("S4294967296"), None);
    assert_eq!(oldap::user_number("S4294967295"), Some(4294967295));
    assert_eq!(oldap::bind_name(&auth("S12", "p")), "SARSGOV\\S12");
}
