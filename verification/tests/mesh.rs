use firm_mesh::ad::{self, SUser};
use firm_mesh::df::{self, combine, Kin, Kind, Link, Rec};
use firm_mesh::tx;

fn chars(s: &str) -> Vec<char> {
    s.chars().collect()
}

fn row(cols: &[&str]) -> Option<String> {
    Some(cols.join("\t"))
}

pub fn mesh_lines() -> Vec<Option<String>> {
    vec![
        Some("header".to_string()),
        row(&[
            "S1001", "50001", "7001", "P12", "A3", "60001", "80001", "50002", "7002", "ORG1", "S1002",
            "PTA", "x", "x", "x", "x", "PTA",
        ]),
        None,
        row(&[
            "S1002", "50002", "7002", "P12", "A3", "60001", "80002", "", "", "ORG1", "", "PTA", "x", "x",
            "x", "x", "PTA",
        ]),
    ]
}

fn users() -> Vec<SUser> {
    vec![
        SUser { uid: 1002, pid: 7002, cn: "Thabo Boss".to_string(), dn: "CN=Thabo".to_string() },
        SUser { uid: 1001, pid: 7001, cn: "Sello Clerk".to_string(), dn: "CN=Sello".to_string() },
    ]
}

#[test]
fn combine_packs_halves() {
    assert_eq!(combine(&12, &3), 786435);
    assert_eq!(combine(&1000, &1000), 65537000);
    assert_eq!(combine(&0xffff, &0xffff), 0xffff_ffff);
    assert_eq!(combine(&0, &0), 0);
    let c = combine(&0x1234, &0xabcd);
    assert_eq!((c >> 16, c & 0xffff), (0x1234, 0xabcd));
    assert_ne!(combine(&1, &0), combine(&0, &1));
}

#[test]
fn kind_from_uses_file_numbering() {
    assert_eq!(Kind::from(0), Kind::Post);
    assert_eq!(Kind::from(1), Kind::Area);
    assert_eq!(Kind::from(6), Kind::Crew);
    assert_eq!(Kind::from(7), Kind::Face);
    assert_eq!(Kind::from(200), Kind::Oops);
    assert_eq!(Kind::default(), Kind::Face);
    assert_eq!(Kind::Face.code(), 6);
    assert_eq!(Link::Tail.code(), 3);
}

#[test]
fn kin_push_skips_zero_and_self_links() {
    let mut v = Vec::new();
    Kin::push(Kind::Post, 0, Link::Home, Kind::Area, 5, &mut v);
    Kin::push(Kind::Post, 5, Link::Home, Kind::Area, 0, &mut v);
    Kin::push(Kind::Post, 5, Link::Home, Kind::Area, 5, &mut v);
    assert!(v.is_empty());
    Kin::push(Kind::Post, 5, Link::Home, Kind::Area, 6, &mut v);
    assert_eq!(v, vec![Kin { ty1: Kind::Post, id1: 5, link: Link::Home, ty2: Kind::Area, id2: 6 }]);
}

#[test]
fn kin_key_follows_field_order() {
    let a = Kin { ty1: Kind::Post, id1: 9, link: Link::Tail, ty2: Kind::Oops, id2: 9 };
    let b = Kin { ty1: Kind::Body, id1: 1, link: Link::Boss, ty2: Kind::Area, id2: 1 };
    assert!(a.key() < b.key());
    assert_eq!(a < b, a.key() < b.key());
    let c = Kin { ty1: Kind::Post, id1: 9, link: Link::Tail, ty2: Kind::Oops, id2: 10 };
    assert!(a.key() < c.key());
}

#[test]
fn rec_new_reads_row_numbers() {
    let o = Rec::new(
        &chars("S1001"),
        &chars("50001"),
        &chars("7001"),
        &chars("P12"),
        &chars("A3"),
        &chars("x"),
        &chars("80001"),
        &chars(""),
        &chars("7002"),
        &chars(""),
        77,
    );
    assert_eq!(o.face, 1001);
    assert_eq!(o.post, 50001);
    assert_eq!(o.body, 7001);
    assert_eq!(o.area, 786435);
    assert_eq!(o.unit, 0);
    assert_eq!(o.trap, 80001);
    assert_eq!(o.boss, 0);
    assert_eq!(o.boss_body, 7002);
    assert_eq!(o.boss_face, 0);
    assert_eq!(o.site, 77);
}

#[test]
fn mesh_positions() {
    let mesh = df::init(&mesh_lines());
    assert_eq!(df::get_face_position(&mesh, 1001), 50001);
    assert_eq!(df::get_manager_position(&mesh, 1001), 50002);
    // user 1002 has no manager: the next link in order is its own position
    assert_eq!(df::get_manager_position(&mesh, 1002), 50002);
    assert_eq!(df::get_face_position(&mesh, 1002), 50002);
}

#[test]
fn mesh_roster() {
    let mesh = df::init(&mesh_lines());
    assert_eq!(mesh.roster_yaml(), "- uid: 1001\n  pid: 1001\n- uid: 1002\n  pid: 1002");
}

#[test]
fn mesh_refuses_short_rows() {
    let lines = vec![Some("h".to_string()), Some("S1\t2\t3".to_string())];
    assert!(df::try_init(&lines).is_none());
    let lines = vec![Some("h\tonly\theader".to_string())];
    assert!(df::try_init(&lines).is_some());
    let lines: Vec<Option<String>> = vec![];
    let m = df::init(&lines);
    assert_eq!(m.roster_yaml(), "");
}

#[test]
fn get_mesh_lists_links_and_subordinates() {
    let mesh = df::init(&mesh_lines());
    let dir = ad::init(&users());
    let texts = tx::init(&vec![Some("h".to_string())]);
    assert!(mesh.can_get_mesh(1002));
    let u = df::get_mesh(&mesh, &dir, &texts, 1002);
    assert_eq!(u.id, 50002);
    assert_eq!(u.subs.len(), 1);
    assert_eq!(u.subs[0].uid, 1001);
    assert_eq!(u.subs[0].cn, "Sello Clerk");
    let got: Vec<(i32, i32, u32)> = u.org.iter().map(|d| (d.link, d.ty2, d.id2)).collect();
    assert_eq!(
        got,
        vec![(1, 0, 786435), (1, 1, 65537000), (1, 3, 80002), (2, 2, 60001), (3, 2, 60001)]
    );
    assert!(u.org.iter().all(|d| d.name.is_empty() && d.text.is_empty()));

    let u = df::get_mesh(&mesh, &dir, &texts, 1001);
    assert_eq!(u.id, 50001);
    assert!(u.subs.is_empty());
    let got: Vec<(i32, i32, u32)> = u.org.iter().map(|d| (d.link, d.ty2, d.id2)).collect();
    assert_eq!(
        got,
        vec![
            (1, 0, 786435),
            (1, 1, 65537000),
            (1, 3, 80001),
            (3, 2, 60001),
            (3, 4, 50002),
            (3, 5, 7002),
            (3, 6, 1002)
        ]
    );
}

#[test]
fn get_claims_looks_up_directory() {
    let dir = ad::init(&users());
    let c = df::get_claims(&dir, 1002).unwrap();
    assert_eq!((c.uid, c.pid, c.cn.as_str(), c.dn.as_str()), (1002, 7002, "Thabo Boss", "CN=Thabo"));
    assert!(df::get_claims(&dir, 5).is_none());
}

#[test]
fn organisation_keys_numbered_in_order() {
    let r1 = [
        "S1", "501", "7", "P1", "A1", "601", "801", "", "", "ORG1", "", "PTA", "x", "x", "x", "x", "PTA",
    ];
    let r2 = [
        "S2", "502", "8", "P1", "A1", "601", "802", "", "", "ORG2", "", "PTA", "x", "x", "x", "x", "PTA",
    ];
    let mesh = df::init(&vec![Some("h".to_string()), row(&r1), row(&r2)]);
    let dir = ad::init(&vec![]);
    let texts = tx::init(&vec![]);
    let site = |uid: u32| -> u32 {
        let u = df::get_mesh(&mesh, &dir, &texts, uid);
        u.org.iter().find(|d| d.ty2 == 1).unwrap().id2
    };
    assert_eq!(site(1), combine(&1000, &1000));
    assert_eq!(site(2), combine(&1001, &1000));
}
