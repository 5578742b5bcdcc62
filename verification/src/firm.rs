//! The messages that the firm service exchanges with its clients.
use vstd::prelude::*;
use std::collections::HashMap;

verus! {

/// A person as the directory knows them: user number, personnel number,
/// common name and distinguished name.
pub struct PersonView {
    pub uid: u32,
    pub pid: u32,
    pub cn: Seq<char>,
    pub dn: Seq<char>,
}

/// The identity that a successful look-up or log-in hands back.
#[derive(Debug)]
pub struct Claims {
    pub uid: u32,
    pub pid: u32,
    pub cn: String,
    pub dn: String,
}

impl View for Claims {
    type V = PersonView;

    open spec fn view(&self) -> PersonView {
        PersonView { uid: self.uid, pid: self.pid, cn: self.cn@, dn: self.dn@ }
    }
}

/// A subordinate of a position.
#[derive(Debug)]
pub struct Sub {
    pub uid: u32,
    pub pid: u32,
    pub cn: String,
    pub dn: String,
}

impl View for Sub {
    type V = PersonView;

    open spec fn view(&self) -> PersonView {
        PersonView { uid: self.uid, pid: self.pid, cn: self.cn@, dn: self.dn@ }
    }
}

/// One organisational link of a position, with its catalogue text.
pub struct DataView {
    pub link: i32,
    pub ty2: i32,
    pub id2: u32,
    pub name: Seq<char>,
    pub text: Seq<char>,
}

/// One organisational link of a position, with its catalogue text.
#[derive(Debug)]
pub struct Data {
    pub link: i32,
    pub ty2: i32,
    pub id2: u32,
    pub name: String,
    pub text: String,
}

impl View for Data {
    type V = DataView;

    open spec fn view(&self) -> DataView {
        DataView { link: self.link, ty2: self.ty2, id2: self.id2, name: self.name@, text: self.text@ }
    }
}

/// What the mesh says about a user's position.
pub struct UserView {
    pub id: u32,
    pub org: Seq<DataView>,
    pub subs: Seq<PersonView>,
}

/// What the mesh says about a user's position: the position, its links and
/// the people who report to it.
#[derive(Debug)]
pub struct User {
    pub id: u32,
    pub org: Vec<Data>,
    pub subs: Vec<Sub>,
}

impl View for User {
    type V = UserView;

    open spec fn view(&self) -> UserView {
        UserView {
            id: self.id,
            org: self.org@.map_values(|d: Data| d@),
            subs: self.subs@.map_values(|s: Sub| s@),
        }
    }
}

/// A log-in request.
#[derive(Debug)]
pub struct Auth {
    pub user_id: String,
    pub user_pwd: String,
}

/// The reply of every request of the service.
#[derive(Debug)]
pub struct Ack {
    pub ok: bool,
    pub message: String,
    pub user: Option<User>,
    pub claims: Option<Claims>,
    pub users: HashMap<u32, Claims>,
}

} // verus!
