//! The firm service: its replies to searches, evaluation-file requests, mesh
//! and claims look-ups and log-ins, over the mesh, the directory and the
//! catalogue that it holds; and the numbering of events.
use vstd::prelude::*;
use std::collections::HashMap;
use crate::ad::{UserData, claims_people, create_evp_file, evp_lines, search_map, search_users, uid_sorted};
use crate::chars::{append_chars, chars_of, join_lines, string_from_chars};
use crate::decimal::{decimal, decimal_chars};
use crate::df::{MeshData, claims_of, get_claims, get_mesh, mesh_user, mesh_user_defined, mesh_wf};
use crate::firm::{Ack, Auth, Claims};
use crate::oldap::{AuthError, Login, authenticate, invalid_login, local_account, login_result, user_id_number};
use crate::tx::OrgText;

verus! {

/// The number of the first event.
pub const FIRST_EVENT_ID: u64 = 80000000000u64;

/// Hands out the next event number: the current one, and the counter moves
/// on by one, wrapping around after the largest `u64`.
pub fn next_id(counter: &mut u64) -> (r: u64)
    ensures
        r == *old(counter),
        *final(counter) == if *old(counter) == u64::MAX {
            0
        } else {
            (*old(counter) + 1) as u64
        },
{
    let num = *counter;
    if num == u64::MAX {
        *counter = 0;
    } else {
        *counter = num + 1;
    }
    num
}

/// Two event numbers handed out one after the other differ by one, unless the
/// counter wrapped around.
pub proof fn lemma_next_ids_consecutive(c0: u64, r1: u64, c1: u64, r2: u64, c2: u64)
    requires
        r1 == c0,
        c1 == if c0 == u64::MAX { 0 } else { (c0 + 1) as u64 },
        r2 == c1,
        c2 == if c1 == u64::MAX { 0 } else { (c1 + 1) as u64 },
        c0 < u64::MAX,
    ensures
        r2 == r1 + 1,
        r1 != r2,
{
}

/// The service with the data it answers from.
pub struct FirmService {
    mesh: MeshData,
    users: UserData,
    texts: OrgText,
}

/// The service's data is well formed: the mesh is sorted without duplicates and
/// the directory is sorted by user number.
pub open spec fn service_wf(m: &MeshData, u: &UserData) -> bool {
    mesh_wf(m@) && uid_sorted(u@)
}

impl FirmService {
    /// The service over a mesh, a directory and a catalogue.
    pub fn new(mesh: MeshData, users: UserData, texts: OrgText) -> (r: FirmService)
        ensures
            r.mesh() == mesh,
            r.users() == users,
            r.texts() == texts,
    {
        FirmService { mesh, users, texts }
    }

    /// The mesh the service answers from.
    pub closed spec fn mesh(&self) -> MeshData {
        self.mesh
    }

    /// The directory the service answers from.
    pub closed spec fn users(&self) -> UserData {
        self.users
    }

    /// The catalogue the service answers from.
    pub closed spec fn texts(&self) -> OrgText {
        self.texts
    }

    /// The directory the service answers from.
    pub fn directory(&self) -> (r: &UserData)
        ensures
            *r == self.users(),
    {
        &self.users
    }

    /// The mesh the service answers from.
    pub fn mesh_data(&self) -> (r: &MeshData)
        ensures
            *r == self.mesh(),
    {
        &self.mesh
    }

    /// The reply to a search of the directory for `word`: the users whose
    /// common name holds it, and a message that counts them.
    pub fn search_users(&self, word: &str) -> (r: Ack)
        ensures
            r.ok,
            r.message@ == decimal(r.users@.len()) + " users found"@,
            claims_people(r.users@) == search_map(self.users()@, word@),
            r.user is None,
            r.claims is None,
    {
        broadcast use vstd::std_specs::hash::group_hash_axioms;

        let map = search_users(&self.users, word);
        let mut message = decimal_chars(map.len() as u64);
        append_chars(&mut message, &chars_of(" users found"));
        Ack { ok: true, message: string_from_chars(&message), user: None, claims: None, users: map }
    }

    /// The content of the evaluation file for the service's users.
    pub fn evp_file(&self) -> (r: String)
        ensures
            r@ == join_lines(evp_lines(self.users()@)),
    {
        create_evp_file(&self.users)
    }

    /// The reply to a request for the evaluation file `filename`, given the
    /// outcome of writing it (the error's description when writing failed).
    pub fn create_evp_file(&self, filename: &str, outcome: Result<(), String>) -> (r: Ack)
        ensures
            match outcome {
                Ok(()) => r.ok && r.message@ == "file "@ + filename@ + " created"@,
                Err(e) => !r.ok && r.message@ == "Error creating file "@ + filename@ + " : "@
                    + e@,
            },
            r.user is None,
            r.claims is None,
            r.users@.len() == 0,
    {
        let (ok, message) = match outcome {
            Ok(()) => {
                let mut m = chars_of("file ");
                append_chars(&mut m, &chars_of(filename));
                append_chars(&mut m, &chars_of(" created"));
                (true, m)
            },
            Err(e) => {
                let mut m = chars_of("Error creating file ");
                append_chars(&mut m, &chars_of(filename));
                append_chars(&mut m, &chars_of(" : "));
                append_chars(&mut m, &chars_of(e.as_str()));
                (false, m)
            },
        };
        Ack { ok, message: string_from_chars(&message), user: None, claims: None, users: HashMap::new() }
    }

    /// The reply to a mesh look-up for user `id`.
    pub fn get_mesh(&self, id: u32) -> (r: Ack)
        requires
            service_wf(&self.mesh(), &self.users()),
            mesh_user_defined(self.mesh()@.links, id),
        ensures
            r.ok,
            r.message@ == "ok"@,
            r.user matches Some(u) && u@ == mesh_user(self.mesh()@.links, self.users()@, self.texts()@, id),
            r.claims is None,
            r.users@.len() == 0,
    {
        let user = get_mesh(&self.mesh, &self.users, &self.texts, id);
        Ack {
            ok: true,
            message: string_from_chars(&chars_of("ok")),
            user: Some(user),
            claims: None,
            users: HashMap::new(),
        }
    }

    /// The reply to a claims look-up for user `id`.
    pub fn get_claims(&self, id: u32) -> (r: Ack)
        requires
            uid_sorted(self.users()@),
        ensures
            r.ok,
            r.message@ == "ok"@,
            r.user is None,
            match claims_of(self.users()@, id) {
                Some(p) => r.claims matches Some(c) && c@ == p,
                None => r.claims is None,
            },
            r.users@.len() == 0,
    {
        let claims = get_claims(&self.users, id);
        Ack {
            ok: true,
            message: string_from_chars(&chars_of("ok")),
            user: None,
            claims: claims,
            users: HashMap::new(),
        }
    }

    /// The reply to a log-in: the claims when it succeeds, the error's reading
    /// when it fails.
    pub fn authenticate(&self, auth: &Auth, login: Login) -> (r: Ack)
        requires
            uid_sorted(self.users()@),
            login matches Login::Bound(Ok(_)) ==> user_id_number(auth.user_id@) is Some,
        ensures
            r.user is None,
            r.users@.len() == 0,
            r.ok ==> r.message@ == "ok"@,
            match login {
                Login::Local => if local_account(auth.user_id@, auth.user_pwd@) {
                    r.ok && login_result(Ok(r.claims), self.users()@, user_id_number(auth.user_id@)->0)
                } else {
                    !r.ok && r.message@ == "LDAP error: "@ + invalid_login() && r.claims is None
                },
                Login::Bound(Err(e)) => !r.ok && r.message@ == "LDAP error: "@ + e@ && r.claims is None,
                Login::Bound(Ok(_)) => r.ok && login_result(
                    Ok(r.claims),
                    self.users()@,
                    user_id_number(auth.user_id@)->0,
                ),
            },
    {
        let r = authenticate(&self.users, auth, login);
        match r {
            Ok(claims) => Ack {
                ok: true,
                message: string_from_chars(&chars_of("ok")),
                user: None,
                claims: claims,
                users: HashMap::new(),
            },
            Err(e) => Ack {
                ok: false,
                message: e.message(),
                user: None,
                claims: None,
                users: HashMap::new(),
            },
        }
    }
}

} // verus!
