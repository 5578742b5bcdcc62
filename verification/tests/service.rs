use firm_mesh::ad::{self, SUser};
use firm_mesh::client;
use firm_mesh::df;
use firm_mesh::firm::Auth;
use firm_mesh::oldap::{AuthError, Login};
use firm_mesh::server::{next_id, FirmService, FIRST_EVENT_ID};
use firm_mesh::tx;

fn service() -> FirmService {
    let mesh_row = [
        "S1001", "50001", "7001", "P12", "A3", "60001", "80001", "50002", "7002", "ORG1", "S1002", "PTA",
        "x", "x", "x", "x", "PTA",
    ];
    let mesh = df::init(&vec![Some("h".to_string()), Some(mesh_row.join("\t"))]);
    let users = ad::init(&vec![
        SUser { uid: 1001, pid: 7001, cn: "Sello".to_string(), dn: "CN=Sello".to_string() },
        SUser { uid: 1002, pid: 7002, cn: "Boss".to_string(), dn: "CN=Boss".to_string() },
    ]);
    let texts = tx::init(&vec![]);
    FirmService::new(mesh, users, texts)
}

#[test]
fn search_reply_counts_users() {
    let s = service();
    let ack = s.search_users("Sel");
    assert!(ack.ok);
    assert_eq!(ack.message, "1 users found");
    assert_eq!(ack.users[&1001].dn, "CN=Sello");
    assert!(ack.user.is_none() && ack.claims.is_none());
    let ack = s.search_users("nobody");
    assert_eq!(ack.message, "0 users found");
}

#[test]
fn evp_replies() {
    let s = service();
    let ack = s.create_evp_file("/tmp/evp.yaml", Ok(()));
    assert!(ack.ok);
    assert_eq!(ack.message, "file /tmp/evp.yaml created");
    let ack = s.create_evp_file("/x/evp.yaml", Err("No such file or directory (os error 2)".to_string()));
    assert!(!ack.ok);
    assert_eq!(ack.message, "Error creating file /x/evp.yaml : No such file or directory (os error 2)");
    assert!(ack.users.is_empty());
    assert!(s.evp_file().starts_with("- uuid: 1001\n  stat: 0\n"));
}

#[test]
fn mesh_and_claims_replies() {
    let s = service();
    assert!(s.mesh_data().can_get_mesh(1001));
    // user 1002 has no row: its position look-up runs past the mesh
    assert!(!s.mesh_data().can_get_mesh(1002));
    let ack = s.get_mesh(1001);
    assert!(ack.ok);
    assert_eq!(ack.message, "ok");
    let user = ack.user.unwrap();
    assert_eq!(user.id, 50001);
    assert_eq!(user.org.len(), 7);
    let ack = s.get_claims(1002);
    assert!(ack.ok);
    assert_eq!(ack.claims.unwrap().cn, "Boss");
    let ack = s.get_claims(3);
    assert!(ack.ok && ack.claims.is_none());
}

#[test]
fn authenticate_replies() {
    let s = service();
    let a = Auth { user_id: "S1002".to_string(), user_pwd: "pw".to_string() };
    let ack = s.authenticate(&a, Login::Bound(Ok(())));
    assert!(ack.ok);
    assert_eq!(ack.message, "ok");
    assert_eq!(ack.claims.unwrap().uid, 1002);
    let ack = s.authenticate(&a, Login::Bound(Err(AuthError::NativeError("Can't contact LDAP server".to_string()))));
    assert!(!ack.ok);
    assert_eq!(ack.message, "LDAP error: Can't contact LDAP server");
    let ack = s.authenticate(&a, Login::Local);
    assert!(!ack.ok);
    assert_eq!(ack.message, "LDAP error: Invalid user and password combination");
    let a = Auth { user_id: "S1028028".to_string(), user_pwd: "tshepo".to_string() };
    let ack = s.authenticate(&a, Login::Local);
    assert!(ack.ok && ack.claims.is_none());
}

#[test]
fn event_ids() {
    let mut c = FIRST_EVENT_ID;
    assert_eq!(next_id(&mut c), 80000000000);
    assert_eq!(next_id(&mut c), 80000000001);
    assert_eq!(c, 80000000002);
    let mut c = u64::MAX;
    assert_eq!(next_id(&mut c), u64::MAX);
    assert_eq!(next_id(&mut c), 0);
}

#[test]
fn client_reads_numbers() {
    assert_eq!(client::Link::from(0), client::Link::Boss);
    assert_eq!(client::Link::from(3), client::Link::Tail);
    assert_eq!(client::Link::from(4), client::Link::Other);
    assert_eq!(client::Link::from(1).name(), "Home");
    assert_eq!(client::Link::from(2).name(), "Head");
    assert_eq!(client::Kind::from(0), client::Kind::Post);
    assert_eq!(client::Kind::from(7).name(), "Face");
    assert_eq!(client::Kind::from(9).name(), "Oops");
    assert_eq!(client::Kind::Crew.name(), "Crew");
    assert_eq!(client::Kind::default(), client::Kind::Face);
    // the link numbers the service sends read back as the same links
    for l in [df::Link::Boss, df::Link::Home, df::Link::Head, df::Link::Tail] {
        assert_eq!(client::Link::from(l.code()).name(), format!("{:?}", l));
    }
    // the kind numbers do not: the client reads the data file's numbering
    assert_eq!(client::Kind::from(df::Kind::Area.code()), client::Kind::Post);
}
