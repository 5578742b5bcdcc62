use firm_mesh::df::Kind;
use firm_mesh::tx::{self, Object, Text};

fn org_row() -> Option<String> {
    let cols = [
        "x", "50001", "7001", "P12", "A3", "60001", "80001", "50002", "7002", "ORG1", "S1002", "Pretoria",
        "x", "JOB1: Clerk ", "Division Text", "Area name", "Pretoria", "OU9:  Finance\u{2003}", "x", "x",
        "Employee Name", "Emp Text", "POS: Manager", "Manager Pos",
    ];
    Some(cols.join("\t"))
}

fn text(t: &Text) -> (String, String) {
    (t.name.clone(), t.text.clone())
}

#[test]
fn catalogue_from_rows() {
    let lines = vec![Some("header".to_string()), org_row(), None];
    let texts = tx::init(&lines);
    let s = |a: &str, b: &str| (a.to_string(), b.to_string());
    assert_eq!(text(&tx::get_text(&texts, Kind::Area, &786435)), s("Area name", "Pretoria"));
    assert_eq!(text(&tx::get_text(&texts, Kind::Unit, &60001)), s("OU9:  Finance\u{2003}", "Finance"));
    assert_eq!(text(&tx::get_text(&texts, Kind::Trap, &80001)), s("JOB1: Clerk ", "Clerk"));
    assert_eq!(text(&tx::get_text(&texts, Kind::Post, &50002)), s("Manager Pos", "Manager"));
    assert_eq!(text(&tx::get_text(&texts, Kind::Body, &7001)), s("Employee Name", "Emp Text"));
    assert_eq!(text(&tx::get_text(&texts, Kind::Site, &65537000)), s("ORG1", "Pretoria"));
    assert_eq!(text(&tx::get_text(&texts, Kind::Site, &786435)), s("", ""));
    assert_eq!(text(&tx::get_text(&texts, Kind::Face, &1)), s("", ""));
}

#[test]
fn catalogue_refuses_bad_rows() {
    // a row without the position number stops the reading
    let mut cols: Vec<String> = org_row().unwrap().split('\t').map(|c| c.to_string()).collect();
    cols[1] = "P".to_string();
    let lines = vec![Some("h".to_string()), Some(cols.join("\t"))];
    assert!(tx::try_init(&lines).is_none());
    let lines = vec![Some("h".to_string()), Some("too\tshort".to_string())];
    assert!(tx::try_init(&lines).is_none());
    // the header is never read
    let lines = vec![Some("too\tshort".to_string())];
    assert!(tx::try_init(&lines).is_some());
}

#[test]
fn objects_and_texts() {
    let o = Object::new(Kind::Unit, 5);
    assert_eq!(o, Object { ty: Kind::Unit, id: 5 });
    assert_eq!(o.key(), 2 * 0x1_0000_0000 + 5);
    assert_ne!(Object::new(Kind::Area, 5).key(), Object::new(Kind::Site, 5).key());
    let t = Text::new(&"Name".chars().collect(), &"Text".chars().collect());
    assert_eq!(text(&t), ("Name".to_string(), "Text".to_string()));
}

#[test]
fn tx_rec_reads_numbers() {
    let c = |s: &str| -> Vec<char> { s.chars().collect() };
    let r = tx::Rec::new(
        &c("1"),
        &c("2"),
        &c("X1"),
        &c("Y2"),
        &c("3"),
        &c("4"),
        &c("bad"),
        9,
        &c("6"),
        &c("S7"),
    );
    assert_eq!(
        (r.position, r.employee, r.division, r.orgunit, r.job, r.manager, r.region, r.manager_eid, r.manager_sid),
        (1, 2, 65538, 3, 4, 0, 9, 6, 0)
    );
    let r = tx::Rec::new(&c("1"), &c("2"), &c("X1"), &c("Y2"), &c("3"), &c("4"), &c("5"), 9, &c(""), &c("77"));
    assert_eq!((r.manager, r.manager_eid, r.manager_sid), (5, 0, 77));
}
