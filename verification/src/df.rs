//! The organisation mesh: typed links between users, positions, areas, sites,
//! units, jobs and employees, read from the tab-separated mesh file, kept
//! sorted without duplicates, and searched by position.
use vstd::prelude::*;
use crate::chars::{first_char_one_byte, skip_first, starts_with_one_byte, copy_chars, chars_of, split_on, split_on_char, seqs_of, line_views, lemma_split_on_nonempty};
use crate::codes::{NameCodes, assoc_get, fresh_codes, lemma_fresh_distinct, lemma_fresh_push, rising_codes, lemma_rising_distinct, lemma_rising_push};
use crate::sorting::sort_links;
use crate::ad::{UserData, find_uid, get_cn, lemma_find_uid, uid_sorted};
use crate::tx::{OrgText, TextView, get_text, text_of};
use crate::firm::{Claims, Data, DataView, PersonView, Sub, User, UserView};
use crate::decimal::{parse_u16, parse_u16_chars, parse_u32_or_zero, parse_u32_or_zero_chars, decimal, decimal_chars};
use crate::chars::{join_lines, join_lines_chars, append_chars, string_from_chars};

verus! {

/// How two objects of the mesh are linked.
#[derive(Clone, Copy, Debug, PartialEq, Eq, Structural, PartialOrd, Ord)]
pub enum Link {
    Boss,
    Home,
    Head,
    Tail,
}

/// The kinds of object that the mesh links.
#[derive(Clone, Copy, Debug, PartialEq, Eq, Structural, PartialOrd, Ord)]
pub enum Kind {
    Area,
    Site,
    Unit,
    Trap,
    Post,
    Body,
    Face,
    Crew,
    Oops,
}

/// The number of a link, its place in the declaration (what `link as i32` gives).
pub open spec fn link_code(l: Link) -> int {
    match l {
        Link::Boss => 0,
        Link::Home => 1,
        Link::Head => 2,
        Link::Tail => 3,
    }
}

/// The number of a kind, its place in the declaration (what `kind as i32` gives).
pub open spec fn kind_code(k: Kind) -> int {
    match k {
        Kind::Area => 0,
        Kind::Site => 1,
        Kind::Unit => 2,
        Kind::Trap => 3,
        Kind::Post => 4,
        Kind::Body => 5,
        Kind::Face => 6,
        Kind::Crew => 7,
        Kind::Oops => 8,
    }
}

/// The kind that the numbering of the data file gives to `i`.
pub open spec fn kind_from_spec(i: u8) -> Kind {
    if i == 0 {
        Kind::Post
    } else if i == 1 {
        Kind::Area
    } else if i == 2 {
        Kind::Site
    } else if i == 3 {
        Kind::Unit
    } else if i == 4 {
        Kind::Trap
    } else if i == 5 {
        Kind::Body
    } else if i == 6 {
        Kind::Crew
    } else if i == 7 {
        Kind::Face
    } else {
        Kind::Oops
    }
}

impl Link {
    /// The number of the link (`link as i32`).
    pub fn code(&self) -> (c: u8)
        ensures
            c == link_code(*self),
    {
        match self {
            Link::Boss => 0,
            Link::Home => 1,
            Link::Head => 2,
            Link::Tail => 3,
        }
    }
}

impl Kind {
    /// The number of the kind (`kind as i32`).
    pub fn code(&self) -> (c: u8)
        ensures
            c == kind_code(*self),
    {
        match self {
            Kind::Area => 0,
            Kind::Site => 1,
            Kind::Unit => 2,
            Kind::Trap => 3,
            Kind::Post => 4,
            Kind::Body => 5,
            Kind::Face => 6,
            Kind::Crew => 7,
            Kind::Oops => 8,
        }
    }

    /// The kind that the numbering of the data file gives to `i`.
    pub fn from(i: u8) -> (k: Kind)
        ensures
            k == kind_from_spec(i),
    {
        match i {
            0 => Kind::Post,
            1 => Kind::Area,
            2 => Kind::Site,
            3 => Kind::Unit,
            4 => Kind::Trap,
            5 => Kind::Body,
            6 => Kind::Crew,
            7 => Kind::Face,
            _ => Kind::Oops,
        }
    }
}

impl Default for Kind {
    fn default() -> (k: Kind)
        ensures
            k == Kind::Face,
    {
        Kind::Face
    }
}

/// A link of the mesh: object `id1` of kind `ty1` is linked by `link` to
/// object `id2` of kind `ty2`.
#[derive(Clone, Copy, Debug, PartialEq, Eq, Structural, PartialOrd, Ord)]
pub struct Kin {
    pub ty1: Kind,
    pub id1: u32,
    pub link: Link,
    pub ty2: Kind,
    pub id2: u32,
}

/// The place of a link in the mesh order, as one number: the fields are
/// compared in declaration order, each by its number.
pub open spec fn kin_key(k: Kin) -> int {
    (((kind_code(k.ty1) * 0x1_0000_0000 + k.id1) * 16 + link_code(k.link)) * 16 + kind_code(k.ty2))
        * 0x1_0000_0000 + k.id2
}

proof fn lemma_digit_pair(x1: int, y1: int, x2: int, y2: int, m: int)
    requires
        m > 0,
        0 <= y1 < m,
        0 <= y2 < m,
    ensures
        x1 * m + y1 < x2 * m + y2 <==> x1 < x2 || (x1 == x2 && y1 < y2),
        x1 * m + y1 == x2 * m + y2 <==> x1 == x2 && y1 == y2,
{
    if x1 < x2 {
        assert(x1 * m + m <= x2 * m) by (nonlinear_arith)
            requires
                x1 < x2,
                m > 0,
        ;
    } else if x1 > x2 {
        assert(x2 * m + m <= x1 * m) by (nonlinear_arith)
            requires
                x1 > x2,
                m > 0,
        ;
    }
}

/// `a` comes before `b` when their fields, in declaration order, are compared
/// one after the other (the order that `derive(Ord)` gives the struct).
pub open spec fn kin_lex_less(a: Kin, b: Kin) -> bool {
    ||| kind_code(a.ty1) < kind_code(b.ty1)
    ||| kind_code(a.ty1) == kind_code(b.ty1) && a.id1 < b.id1
    ||| kind_code(a.ty1) == kind_code(b.ty1) && a.id1 == b.id1 && link_code(a.link) < link_code(b.link)
    ||| kind_code(a.ty1) == kind_code(b.ty1) && a.id1 == b.id1 && link_code(a.link) == link_code(b.link)
        && kind_code(a.ty2) < kind_code(b.ty2)
    ||| kind_code(a.ty1) == kind_code(b.ty1) && a.id1 == b.id1 && link_code(a.link) == link_code(b.link)
        && kind_code(a.ty2) == kind_code(b.ty2) && a.id2 < b.id2
}

/// The mesh order is the field-by-field order of links, and two links have the
/// same place in it exactly when they are equal.
pub proof fn lemma_kin_key_order(a: Kin, b: Kin)
    ensures
        kin_key(a) < kin_key(b) <==> kin_lex_less(a, b),
        kin_key(a) == kin_key(b) <==> a == b,
{
    let a1 = kind_code(a.ty1) * 0x1_0000_0000 + a.id1;
    let b1 = kind_code(b.ty1) * 0x1_0000_0000 + b.id1;
    lemma_digit_pair(kind_code(a.ty1), a.id1 as int, kind_code(b.ty1), b.id1 as int, 0x1_0000_0000);
    let a2 = a1 * 16 + link_code(a.link);
    let b2 = b1 * 16 + link_code(b.link);
    lemma_digit_pair(a1, link_code(a.link), b1, link_code(b.link), 16);
    let a3 = a2 * 16 + kind_code(a.ty2);
    let b3 = b2 * 16 + kind_code(b.ty2);
    lemma_digit_pair(a2, kind_code(a.ty2), b2, kind_code(b.ty2), 16);
    lemma_digit_pair(a3, a.id2 as int, b3, b.id2 as int, 0x1_0000_0000);
}

impl Kin {
    /// The place of the link in the mesh order.
    pub fn key(&self) -> (r: u128)
        ensures
            r == kin_key(*self),
    {
        (((self.ty1.code() as u128) * 0x1_0000_0000 + (self.id1 as u128)) * 16 + (
        self.link.code() as u128)) * 16 * 0x1_0000_0000 + (self.ty2.code() as u128) * 0x1_0000_0000
            + (self.id2 as u128)
    }
}

/// The number made of `a` as its high half and `b` as its low half.
pub open spec fn combine_spec(a: u16, b: u16) -> u32 {
    (a * 0x10000 + b) as u32
}

/// Packs two 16-bit codes into one 32-bit code, `a` in the high half.
pub fn combine(a: &u16, b: &u16) -> (r: u32)
    ensures
        r == combine_spec(*a, *b),
        r == *a * 0x10000 + *b,
{
    (*a as u32) * 0x10000 + (*b as u32)
}

/// The two halves of a combined code give back the two codes, so different
/// pairs never share a code.
pub proof fn lemma_combine_halves(a: u16, b: u16, c: u16, d: u16)
    ensures
        combine_spec(a, b) / 0x10000 == a,
        combine_spec(a, b) % 0x10000 == b,
        combine_spec(a, b) == combine_spec(c, d) <==> a == c && b == d,
{
    lemma_digit_pair(a as int, b as int, c as int, d as int, 0x10000);
    assert((a * 0x10000 + b) / 0x10000 == a && (a * 0x10000 + b) % 0x10000 == b) by (nonlinear_arith)
        requires
            0 <= b < 0x10000,
            0 <= a < 0x10000,
    ;
}

/// The numbers that one row of the mesh file describes.
#[derive(Debug)]
pub struct Rec {
    pub post: u32,
    pub area: u32,
    pub site: u32,
    pub unit: u32,
    pub trap: u32,
    pub body: u32,
    pub face: u32,
    pub boss: u32,
    pub boss_body: u32,
    pub boss_face: u32,
}

/// The fields of a mesh row that `Rec::new` cuts or must read: the user name
/// (`S` and a number), the personnel area and sub-area (a letter and a number)
/// and the manager's user name (empty or a letter and a number).
pub open spec fn rec_ok(face: Seq<char>, paco: Seq<char>, pasc: Seq<char>, mpfa: Seq<char>) -> bool {
    &&& first_char_one_byte(face)
    &&& first_char_one_byte(paco)
    &&& parse_u16(paco.skip(1)) is Some
    &&& first_char_one_byte(pasc)
    &&& parse_u16(pasc.skip(1)) is Some
    &&& (mpfa.len() == 0 || first_char_one_byte(mpfa))
}

/// The numbers of a mesh row: unreadable numbers become 0, the area combines
/// the personnel area and sub-area numbers, and the user numbers drop their
/// first letter.
pub open spec fn rec_spec(
    face: Seq<char>,
    poid: Seq<char>,
    emid: Seq<char>,
    paco: Seq<char>,
    pasc: Seq<char>,
    ouid: Seq<char>,
    joid: Seq<char>,
    mpid: Seq<char>,
    mpbo: Seq<char>,
    mpfa: Seq<char>,
    site: u32,
) -> Rec {
    Rec {
        post: parse_u32_or_zero(poid),
        area: combine_spec(parse_u16(paco.skip(1))->0, parse_u16(pasc.skip(1))->0),
        site: site,
        unit: parse_u32_or_zero(ouid),
        trap: parse_u32_or_zero(joid),
        body: parse_u32_or_zero(emid),
        face: parse_u32_or_zero(face.skip(1)),
        boss: parse_u32_or_zero(mpid),
        boss_body: parse_u32_or_zero(mpbo),
        boss_face: if mpfa.len() == 0 {
            0
        } else {
            parse_u32_or_zero(mpfa.skip(1))
        },
    }
}

impl Rec {
    /// Reads the numbers of a mesh row.
    pub fn new(
        face: &Vec<char>,
        poid: &Vec<char>,
        emid: &Vec<char>,
        paco: &Vec<char>,
        pasc: &Vec<char>,
        ouid: &Vec<char>,
        joid: &Vec<char>,
        mpid: &Vec<char>,
        mpbo: &Vec<char>,
        mpfa: &Vec<char>,
        site: u32,
    ) -> (r: Rec)
        requires
            rec_ok(face@, paco@, pasc@, mpfa@),
        ensures
            r == rec_spec(face@, poid@, emid@, paco@, pasc@, ouid@, joid@, mpid@, mpbo@, mpfa@, site),
    {
        let paco_num = match parse_u16_chars(&skip_first(paco)) {
            Some(v) => v,
            None => 0,
        };
        let pasc_num = match parse_u16_chars(&skip_first(pasc)) {
            Some(v) => v,
            None => 0,
        };
        let area = combine(&paco_num, &pasc_num);
        let unit = parse_u32_or_zero_chars(ouid);
        let trap = parse_u32_or_zero_chars(joid);
        let post = parse_u32_or_zero_chars(poid);
        let body = parse_u32_or_zero_chars(emid);
        let face = parse_u32_or_zero_chars(&skip_first(face));
        let boss = parse_u32_or_zero_chars(mpid);
        let boss_face = if mpfa.len() == 0 {
            0
        } else {
            parse_u32_or_zero_chars(&skip_first(mpfa))
        };
        let boss_body = parse_u32_or_zero_chars(mpbo);
        Rec { post, area, site, unit, trap, body, face, boss, boss_body, boss_face }
    }
}

/// A link is kept only between two different objects that both have a number.
pub open spec fn kin_valid(k: Kin) -> bool {
    k.id1 != 0 && k.id2 != 0 && k.id1 != k.id2
}

/// `s` with `k` added when it is a valid link.
pub open spec fn push_kin(s: Seq<Kin>, k: Kin) -> Seq<Kin> {
    if kin_valid(k) {
        s.push(k)
    } else {
        s
    }
}

/// `s` with each valid link of `ks` added, in order.
pub open spec fn push_all(s: Seq<Kin>, ks: Seq<Kin>) -> Seq<Kin>
    decreases ks.len(),
{
    if ks.len() == 0 {
        s
    } else {
        push_kin(push_all(s, ks.drop_last()), ks.last())
    }
}

impl Kin {
    /// Adds the link to `vec` when it joins two different objects that both have a
    /// number.
    pub fn push(ty1: Kind, id1: u32, link: Link, ty2: Kind, id2: u32, vec: &mut Vec<Kin>)
        ensures
            final(vec)@ == push_kin(old(vec)@, Kin { ty1, id1, link, ty2, id2 }),
    {
        if id1 == 0 || id2 == 0 {
            return ;
        }
        if id1 == id2 {
            return ;
        }
        vec.push(Kin { ty1, id1, link, ty2, id2 })
    }
}

/// The links that a mesh row describes, in the order they are added.
pub open spec fn rec_links(o: Rec) -> Seq<Kin> {
    seq![
        Kin { ty1: Kind::Face, id1: o.face, link: Link::Boss, ty2: Kind::Post, id2: o.boss },
        Kin { ty1: Kind::Face, id1: o.face, link: Link::Home, ty2: Kind::Post, id2: o.post },
        Kin { ty1: Kind::Post, id1: o.post, link: Link::Home, ty2: Kind::Area, id2: o.area },
        Kin { ty1: Kind::Post, id1: o.post, link: Link::Home, ty2: Kind::Site, id2: o.site },
        Kin { ty1: Kind::Post, id1: o.post, link: Link::Tail, ty2: Kind::Unit, id2: o.unit },
        Kin { ty1: Kind::Post, id1: o.post, link: Link::Home, ty2: Kind::Trap, id2: o.trap },
        Kin { ty1: Kind::Post, id1: o.post, link: Link::Tail, ty2: Kind::Body, id2: o.boss_body },
        Kin { ty1: Kind::Post, id1: o.post, link: Link::Tail, ty2: Kind::Post, id2: o.boss },
        Kin { ty1: Kind::Post, id1: o.boss, link: Link::Head, ty2: Kind::Face, id2: o.face },
        Kin { ty1: Kind::Post, id1: o.boss, link: Link::Head, ty2: Kind::Unit, id2: o.unit },
        Kin { ty1: Kind::Post, id1: o.post, link: Link::Tail, ty2: Kind::Face, id2: o.boss_face },
    ]
}

/// Adds the valid links that row `o` describes to `mesh`.
pub fn push_rec_links(o: &Rec, mesh: &mut Vec<Kin>)
    ensures
        final(mesh)@ == push_all(old(mesh)@, rec_links(*o)),
{
    let ghost ks = rec_links(*o);
    let ghost start = mesh@;
    Kin::push(Kind::Face, o.face, Link::Boss, Kind::Post, o.boss, mesh);
    assert(mesh@ == push_all(start, ks.take(1))) by {
        assert(ks.take(1).drop_last() =~= ks.take(0));
        assert(ks.take(0).len() == 0);
        assert(push_all(start, ks.take(0)) == start);
        assert(ks.take(1).last() == ks[0]);
    }
    Kin::push(Kind::Face, o.face, Link::Home, Kind::Post, o.post, mesh);
    assert(mesh@ == push_all(start, ks.take(2))) by {
        assert(ks.take(2).drop_last() =~= ks.take(1));
    }
    Kin::push(Kind::Post, o.post, Link::Home, Kind::Area, o.area, mesh);
    assert(mesh@ == push_all(start, ks.take(3))) by {
        assert(ks.take(3).drop_last() =~= ks.take(2));
    }
    Kin::push(Kind::Post, o.post, Link::Home, Kind::Site, o.site, mesh);
    assert(mesh@ == push_all(start, ks.take(4))) by {
        assert(ks.take(4).drop_last() =~= ks.take(3));
    }
    Kin::push(Kind::Post, o.post, Link::Tail, Kind::Unit, o.unit, mesh);
    assert(mesh@ == push_all(start, ks.take(5))) by {
        assert(ks.take(5).drop_last() =~= ks.take(4));
    }
    Kin::push(Kind::Post, o.post, Link::Home, Kind::Trap, o.trap, mesh);
    assert(mesh@ == push_all(start, ks.take(6))) by {
        assert(ks.take(6).drop_last() =~= ks.take(5));
    }
    Kin::push(Kind::Post, o.post, Link::Tail, Kind::Body, o.boss_body, mesh);
    assert(mesh@ == push_all(start, ks.take(7))) by {
        assert(ks.take(7).drop_last() =~= ks.take(6));
    }
    Kin::push(Kind::Post, o.post, Link::Tail, Kind::Post, o.boss, mesh);
    assert(mesh@ == push_all(start, ks.take(8))) by {
        assert(ks.take(8).drop_last() =~= ks.take(7));
    }
    Kin::push(Kind::Post, o.boss, Link::Head, Kind::Face, o.face, mesh);
    assert(mesh@ == push_all(start, ks.take(9))) by {
        assert(ks.take(9).drop_last() =~= ks.take(8));
    }
    Kin::push(Kind::Post, o.boss, Link::Head, Kind::Unit, o.unit, mesh);
    assert(mesh@ == push_all(start, ks.take(10))) by {
        assert(ks.take(10).drop_last() =~= ks.take(9));
    }
    Kin::push(Kind::Post, o.post, Link::Tail, Kind::Face, o.boss_face, mesh);
    assert(mesh@ == push_all(start, ks)) by {
        assert(ks.drop_last() =~= ks.take(10));
    }
}

/// The place of a link in the mesh order, as the number that `Kin::key` returns.
pub open spec fn kin_key128(k: Kin) -> u128 {
    kin_key(k) as u128
}

/// Links in strictly increasing mesh order, so without duplicates.
pub open spec fn links_sorted(s: Seq<Kin>) -> bool {
    forall|i: int, j: int| 0 <= i < j < s.len() ==> kin_key(s[i]) < kin_key(s[j])
}

/// The state of reading the mesh file: the numbers given so far to
/// organisation keys and to locations, the next number of each, the links read
/// and the user number of each row read.
pub ghost struct MeshScan {
    pub orgkeys: Seq<(Seq<char>, u16)>,
    pub next_org: u16,
    pub locations: Seq<(Seq<char>, u16)>,
    pub next_loc: u16,
    pub kins: Seq<Kin>,
    pub faces: Seq<u32>,
}

/// Nothing read yet: numbering starts at 1000.
pub open spec fn mesh_scan_start() -> MeshScan {
    MeshScan {
        orgkeys: Seq::empty(),
        next_org: 1000,
        locations: Seq::empty(),
        next_loc: 1000,
        kins: Seq::empty(),
        faces: Seq::empty(),
    }
}

/// Whether the organisation key of row `v` (column 9) is new.
pub open spec fn mesh_org_new(st: MeshScan, v: Seq<Seq<char>>) -> bool {
    assoc_get(st.orgkeys, v[9]) is None
}

/// Whether the location of row `v` is new: column 11 is looked up, though
/// column 16 is the one numbered.
pub open spec fn mesh_loc_new(st: MeshScan, v: Seq<Seq<char>>) -> bool {
    assoc_get(st.locations, v[11]) is None
}

/// The organisation keys after row `v`.
pub open spec fn mesh_orgkeys_after(st: MeshScan, v: Seq<Seq<char>>) -> Seq<(Seq<char>, u16)> {
    if mesh_org_new(st, v) {
        st.orgkeys.push((v[9], st.next_org))
    } else {
        st.orgkeys
    }
}

/// The locations after row `v`.
pub open spec fn mesh_locations_after(st: MeshScan, v: Seq<Seq<char>>) -> Seq<(Seq<char>, u16)> {
    if mesh_loc_new(st, v) {
        st.locations.push((v[16], st.next_loc))
    } else {
        st.locations
    }
}

/// Row `v` of the mesh file can be read without stopping the program: it has
/// the columns read, the counters do not run out, its location (column 16) has
/// a number and its names and areas are well formed.
pub open spec fn mesh_line_ok(st: MeshScan, v: Seq<Seq<char>>) -> bool {
    &&& v.len() >= 17
    &&& (mesh_org_new(st, v) ==> st.next_org < 65535)
    &&& (mesh_loc_new(st, v) ==> st.next_loc < 65535)
    &&& assoc_get(mesh_locations_after(st, v), v[16]) is Some
    &&& rec_ok(v[0], v[3], v[4], v[10])
}

/// The numbers of row `v`, its site being the combined organisation and
/// location numbers.
pub open spec fn mesh_line_rec(st: MeshScan, v: Seq<Seq<char>>) -> Rec {
    let region = combine_spec(
        assoc_get(mesh_orgkeys_after(st, v), v[9])->0,
        assoc_get(mesh_locations_after(st, v), v[16])->0,
    );
    rec_spec(v[0], v[1], v[2], v[3], v[4], v[5], v[6], v[7], v[8], v[10], region)
}

/// The state after reading row `v`.
pub open spec fn mesh_line_next(st: MeshScan, v: Seq<Seq<char>>) -> MeshScan {
    let o = mesh_line_rec(st, v);
    MeshScan {
        orgkeys: mesh_orgkeys_after(st, v),
        next_org: if mesh_org_new(st, v) {
            (st.next_org + 1) as u16
        } else {
            st.next_org
        },
        locations: mesh_locations_after(st, v),
        next_loc: if mesh_loc_new(st, v) {
            (st.next_loc + 1) as u16
        } else {
            st.next_loc
        },
        kins: push_all(st.kins, rec_links(o)),
        faces: st.faces.push(o.face),
    }
}

/// The state after reading `lines`: the first line is a header, unreadable lines
/// are passed over, and `None` means a row the program stops on.
pub open spec fn mesh_scan(lines: Seq<Option<Seq<char>>>) -> Option<MeshScan>
    decreases lines.len(),
{
    if lines.len() <= 1 {
        Some(mesh_scan_start())
    } else {
        match mesh_scan(lines.drop_last()) {
            None => None,
            Some(st) => match lines.last() {
                None => Some(st),
                Some(l) => {
                    let v = split_on(l, '\t');
                    if mesh_line_ok(st, v) {
                        Some(mesh_line_next(st, v))
                    } else {
                        None
                    }
                },
            },
        }
    }
}

/// Once a row stops the reading, no later line makes up for it.
proof fn lemma_mesh_scan_stops(lines: Seq<Option<Seq<char>>>, k: int)
    requires
        0 <= k <= lines.len(),
        mesh_scan(lines.take(k)) is None,
    ensures
        mesh_scan(lines) is None,
    decreases lines.len() - k,
{
    if k < lines.len() {
        assert(lines.take(k + 1).drop_last() =~= lines.take(k));
        lemma_mesh_scan_stops(lines, k + 1);
    } else {
        assert(lines.take(k) =~= lines);
    }
}

/// Every link gathered joins two different numbered objects.
pub open spec fn all_valid(s: Seq<Kin>) -> bool {
    forall|i: int| 0 <= i < s.len() ==> kin_valid(#[trigger] s[i])
}

proof fn lemma_push_all_valid(s: Seq<Kin>, ks: Seq<Kin>)
    requires
        all_valid(s),
    ensures
        all_valid(push_all(s, ks)),
    decreases ks.len(),
{
    if ks.len() > 0 {
        lemma_push_all_valid(s, ks.drop_last());
    }
}

/// The mesh as read: its links in order, and the user number of each row.
pub struct MeshView {
    pub links: Seq<Kin>,
    pub faces: Seq<u32>,
}

/// The mesh is well formed: its links are sorted without duplicates and each
/// joins two different numbered objects.
pub open spec fn mesh_wf(m: MeshView) -> bool {
    links_sorted(m.links) && all_valid(m.links)
}

/// The mesh built from a completed read: the links gathered, sorted and without
/// duplicates, and the rows' user numbers in file order.
pub open spec fn mesh_from_scan(m: MeshView, st: MeshScan) -> bool {
    &&& links_sorted(m.links)
    &&& (forall|k: Kin| m.links.contains(k) <==> st.kins.contains(k))
    &&& m.faces == st.faces
}

/// The organisation mesh.
pub struct MeshData {
    mesh: Vec<Kin>,
    faces: Vec<u32>,
}

impl View for MeshData {
    type V = MeshView;

    closed spec fn view(&self) -> MeshView {
        MeshView { links: self.mesh@, faces: self.faces@ }
    }
}

/// The reading of the mesh file in progress.
struct MeshScanner {
    orgkeys: NameCodes,
    next_org: u16,
    locations: NameCodes,
    next_loc: u16,
    kins: Vec<Kin>,
    faces: Vec<u32>,
}

impl MeshScanner {
    spec fn state(&self) -> MeshScan {
        MeshScan {
            orgkeys: self.orgkeys@,
            next_org: self.next_org,
            locations: self.locations@,
            next_loc: self.next_loc,
            kins: self.kins@,
            faces: self.faces@,
        }
    }

    fn new() -> (r: MeshScanner)
        ensures
            r.state() == mesh_scan_start(),
    {
        let r = MeshScanner {
            orgkeys: NameCodes::new(),
            next_org: 1000,
            locations: NameCodes::new(),
            next_loc: 1000,
            kins: Vec::new(),
            faces: Vec::new(),
        };
        proof {
            assert(r.kins@ =~= Seq::<Kin>::empty());
            assert(r.faces@ =~= Seq::<u32>::empty());
        }
        r
    }

    /// Reads one row; `false` when the row is one the program stops on.
    fn scan_row(&mut self, v: &Vec<Vec<char>>) -> (ok: bool)
        requires
            all_valid(old(self).kins@),
        ensures
            ok == mesh_line_ok(old(self).state(), seqs_of(v@)),
            ok ==> final(self).state() == mesh_line_next(old(self).state(), seqs_of(v@)),
            ok ==> all_valid(final(self).kins@),
    {
        let ghost st = self.state();
        let ghost sv = seqs_of(v@);
        if v.len() < 17 {
            return false;
        }
        assert(sv[9] == v@[9]@ && sv[11] == v@[11]@ && sv[16] == v@[16]@);
        if !(starts_with_one_byte(&v[0]) && starts_with_one_byte(&v[3]) && starts_with_one_byte(
            &v[4],
        ) && (v[10].len() == 0 || starts_with_one_byte(&v[10]))) {
            return false;
        }
        let paco_ok = match parse_u16_chars(&skip_first(&v[3])) {
            Some(_) => true,
            None => false,
        };
        let pasc_ok = match parse_u16_chars(&skip_first(&v[4])) {
            Some(_) => true,
            None => false,
        };
        if !(paco_ok && pasc_ok) {
            return false;
        }
        let org_new = match self.orgkeys.get(&v[9]) {
            Some(_) => false,
            None => true,
        };
        let loc_new = match self.locations.get(&v[11]) {
            Some(_) => false,
            None => true,
        };
        if org_new && self.next_org == 65535 {
            return false;
        }
        if loc_new && self.next_loc == 65535 {
            return false;
        }
        if org_new {
            self.orgkeys.insert(copy_chars(&v[9]), self.next_org);
            self.next_org = self.next_org + 1;
        }
        if loc_new {
            self.locations.insert(copy_chars(&v[16]), self.next_loc);
            self.next_loc = self.next_loc + 1;
        }
        let org = match self.orgkeys.get(&v[9]) {
            Some(c) => c,
            None => 0,
        };
        let loc = match self.locations.get(&v[16]) {
            Some(c) => c,
            None => {
                return false;
            },
        };
        let region = combine(&org, &loc);
        let o = Rec::new(&v[0], &v[1], &v[2], &v[3], &v[4], &v[5], &v[6], &v[7], &v[8], &v[10], region);
        self.faces.push(o.face);
        push_rec_links(&o, &mut self.kins);
        proof {
            lemma_push_all_valid(st.kins, rec_links(o));
        }
        true
    }
}

/// The mesh read from the lines of the mesh file (`None` for a line that
/// could not be read), or `None` when a row would stop the program.
pub fn try_init(lines: &Vec<Option<String>>) -> (r: Option<MeshData>)
    ensures
        r is Some <==> mesh_scan(line_views(lines@)) is Some,
        r matches Some(m) ==> mesh_from_scan(m@, mesh_scan(line_views(lines@))->0) && mesh_wf(m@),
{
    let ghost lv = line_views(lines@);
    let mut sc = MeshScanner::new();
    let mut i: usize = 0;
    while i < lines.len()
        invariant
            i <= lines.len(),
            lv == line_views(lines@),
            mesh_scan(lv.take(i as int)) == Some(sc.state()),
            all_valid(sc.kins@),
        decreases lines.len() - i,
    {
        let ghost pre = lv.take(i as int);
        let ghost post = lv.take(i + 1);
        proof {
            assert(post.drop_last() =~= pre);
            assert(post.last() == lv[i as int]);
        }
        if i > 0 {
            match &lines[i] {
                None => {},
                Some(l) => {
                    let cs = chars_of(l.as_str());
                    let v = split_on_char(&cs, '\t');
                    if !sc.scan_row(&v) {
                        proof {
                            lemma_mesh_scan_stops(lv, i + 1);
                        }
                        return None;
                    }
                },
            }
        }
        i = i + 1;
    }
    proof {
        assert(lv.take(lines.len() as int) =~= lv);
    }
    let mesh = sort_links(&sc.kins);
    let m = MeshData { mesh, faces: sc.faces };
    proof {
        assert forall|j: int| 0 <= j < m.mesh@.len() implies kin_valid(#[trigger] m.mesh@[j]) by {
            assert(m.mesh@.contains(m.mesh@[j]));
            assert(sc.kins@.contains(m.mesh@[j]));
        }
    }
    Some(m)
}

/// The mesh read from the lines of the mesh file (`None` for a line that
/// could not be read); the first line is a header.
pub fn init(lines: &Vec<Option<String>>) -> (r: MeshData)
    requires
        mesh_scan(line_views(lines@)) is Some,
    ensures
        mesh_from_scan(r@, mesh_scan(line_views(lines@))->0),
        mesh_wf(r@),
{
    match try_init(lines) {
        Some(m) => m,
        None => MeshData { mesh: Vec::new(), faces: Vec::new() },
    }
}

/// The two lines that the user roster holds for a user number.
pub open spec fn roster_entry(f: u32) -> Seq<Seq<char>> {
    seq![seq!['-', ' ', 'u', 'i', 'd', ':', ' '] + decimal(f as nat), seq![' ', ' ', 'p', 'i', 'd', ':', ' '] + decimal(f as nat)]
}

/// The lines of the user roster: two for each row read, in file order.
pub open spec fn roster_lines(faces: Seq<u32>) -> Seq<Seq<char>>
    decreases faces.len(),
{
    if faces.len() == 0 {
        Seq::empty()
    } else {
        roster_lines(faces.drop_last()) + roster_entry(faces.last())
    }
}

impl MeshData {
    /// The user roster (YAML) that reading the mesh file writes: for each row
    /// `- uid: N` and `  pid: N`, N being the row's user number, joined by
    /// new lines.
    pub fn roster_yaml(&self) -> (r: String)
        ensures
            r@ == join_lines(roster_lines(self@.faces)),
    {
        let mut lines: Vec<Vec<char>> = Vec::new();
        for i in 0..self.faces.len()
            invariant
                seqs_of(lines@) == roster_lines(self.faces@.take(i as int)),
        {
            let f = self.faces[i];
            let digits = decimal_chars(f as u64);
            let mut a: Vec<char> = vec!['-', ' ', 'u', 'i', 'd', ':', ' '];
            append_chars(&mut a, &digits);
            let mut b: Vec<char> = vec![' ', ' ', 'p', 'i', 'd', ':', ' '];
            append_chars(&mut b, &digits);
            let ghost before = seqs_of(lines@);
            lines.push(a);
            lines.push(b);
            proof {
                assert(self.faces@.take(i + 1).drop_last() =~= self.faces@.take(i as int));
                assert(seqs_of(lines@) =~= before + roster_entry(f));
            }
        }
        proof {
            assert(self.faces@.take(self.faces@.len() as int) =~= self.faces@);
        }
        string_from_chars(&join_lines_chars(&lines))
    }
}

/// The number of links of `s` that come before `b` in mesh order, counted from
/// the start up to the first one that does not: for a sorted mesh, the place
/// where `b` stands or would be inserted.
pub open spec fn lower_bound(s: Seq<Kin>, b: Kin) -> int
    decreases s.len(),
{
    if s.len() == 0 {
        0
    } else if kin_key(s[0]) < kin_key(b) {
        1 + lower_bound(s.skip(1), b)
    } else {
        0
    }
}

proof fn lemma_lower_bound(s: Seq<Kin>, b: Kin, i: int)
    requires
        links_sorted(s),
        0 <= i <= s.len(),
        forall|j: int| 0 <= j < i ==> kin_key(#[trigger] s[j]) < kin_key(b),
        forall|j: int| i <= j < s.len() ==> kin_key(#[trigger] s[j]) >= kin_key(b),
    ensures
        lower_bound(s, b) == i,
    decreases s.len(),
{
    if s.len() > 0 && i > 0 {
        let t = s.skip(1);
        assert forall|j: int| 0 <= j < i - 1 implies kin_key(#[trigger] t[j]) < kin_key(b) by {
            assert(t[j] == s[j + 1]);
        }
        assert forall|j: int| i - 1 <= j < t.len() implies kin_key(#[trigger] t[j]) >= kin_key(b) by {
            assert(t[j] == s[j + 1]);
        }
        lemma_lower_bound(t, b, i - 1);
        assert(kin_key(s[0]) < kin_key(b));
    } else if s.len() > 0 {
        assert(kin_key(s[0]) >= kin_key(b));
    }
}

/// Where `b` stands or would be inserted in the sorted `mesh`, and whether it
/// stands there (a binary search).
fn search(mesh: &Vec<Kin>, b: &Kin) -> (r: (bool, usize))
    requires
        links_sorted(mesh@),
    ensures
        r.1 == lower_bound(mesh@, *b),
        r.1 <= mesh@.len(),
        r.0 == mesh@.contains(*b),
{
    let bk = b.key();
    let mut lo: usize = 0;
    let mut hi: usize = mesh.len();
    while lo < hi
        invariant
            0 <= lo <= hi <= mesh.len(),
            bk == kin_key(*b),
            links_sorted(mesh@),
            forall|j: int| 0 <= j < lo ==> kin_key(#[trigger] mesh@[j]) < kin_key(*b),
            forall|j: int| hi <= j < mesh.len() ==> kin_key(#[trigger] mesh@[j]) >= kin_key(*b),
        decreases hi - lo,
    {
        let mid = lo + (hi - lo) / 2;
        if mesh[mid].key() < bk {
            proof {
                assert forall|j: int| 0 <= j < mid + 1 implies kin_key(#[trigger] mesh@[j]) < kin_key(*b) by {
                    if j < mid {
                        assert(kin_key(mesh@[j]) < kin_key(mesh@[mid as int]));
                    }
                }
            }
            lo = mid + 1;
        } else {
            proof {
                assert forall|j: int| mid <= j < mesh.len() implies kin_key(#[trigger] mesh@[j]) >= kin_key(*b) by {
                    if j > mid {
                        assert(kin_key(mesh@[mid as int]) < kin_key(mesh@[j]));
                    }
                }
            }
            hi = mid;
        }
    }
    proof {
        lemma_lower_bound(mesh@, *b, lo as int);
    }
    let found = lo < mesh.len() && mesh[lo].key() == bk;
    proof {
        if found {
            lemma_kin_key_order(mesh@[lo as int], *b);
            assert(mesh@[lo as int] == *b);
        }
        if mesh@.contains(*b) {
            let k = choose|k: int| 0 <= k < mesh@.len() && mesh@[k] == *b;
            if k > lo {
                assert(kin_key(mesh@[lo as int]) < kin_key(mesh@[k]));
            }
            assert(k >= lo);
            assert(k == lo);
        }
    }
    (found, lo)
}

/// The second object of the link that stands where `b` would be inserted, or
/// 0 when `b` itself is in the mesh.
pub open spec fn seek(s: Seq<Kin>, b: Kin) -> u32 {
    if s.contains(b) {
        0
    } else {
        s[lower_bound(s, b)].id2
    }
}

/// `seek` does not run past the end of the mesh.
pub open spec fn seek_defined(s: Seq<Kin>, b: Kin) -> bool {
    s.contains(b) || lower_bound(s, b) < s.len()
}

/// What is looked up for the position of user `id`.
pub open spec fn face_probe(id: u32) -> Kin {
    Kin { ty1: Kind::Face, id1: id, link: Link::Home, ty2: Kind::Post, id2: 0 }
}

/// What is looked up for the manager position of user `id`.
pub open spec fn manager_probe(id: u32) -> Kin {
    Kin { ty1: Kind::Face, id1: id, link: Link::Boss, ty2: Kind::Post, id2: 0 }
}

/// The position of the manager of user `id`: the second object of the first
/// link at or after (Face, `id`, Boss, Post) in mesh order.
pub fn get_manager_position(mesh: &MeshData, id: u32) -> (r: u32)
    requires
        mesh_wf(mesh@),
        seek_defined(mesh@.links, manager_probe(id)),
    ensures
        r == seek(mesh@.links, manager_probe(id)),
{
    let b = Kin { ty1: Kind::Face, id1: id, link: Link::Boss, ty2: Kind::Post, id2: 0 };
    let (found, i) = search(&mesh.mesh, &b);
    if !found {
        let kin = mesh.mesh[i];
        return kin.id2;
    }
    0
}

/// The position of user `id`: the second object of the first link at or after
/// (Face, `id`, Home, Post) in mesh order.
pub fn get_face_position(mesh: &MeshData, id: u32) -> (r: u32)
    requires
        mesh_wf(mesh@),
        seek_defined(mesh@.links, face_probe(id)),
    ensures
        r == seek(mesh@.links, face_probe(id)),
{
    let b = Kin { ty1: Kind::Face, id1: id, link: Link::Home, ty2: Kind::Post, id2: 0 };
    let (found, i) = search(&mesh.mesh, &b);
    if !found {
        let kin = mesh.mesh[i];
        return kin.id2;
    }
    0
}

/// Where the run of links of position `p` that starts at index `i` ends: the
/// first index from `i` on whose link does not start at position `p`, or the
/// end of the mesh.
pub open spec fn run_end(s: Seq<Kin>, i: int, p: u32) -> int
    decreases s.len() - i,
{
    if i < 0 || i >= s.len() {
        s.len() as int
    } else if s[i].ty1 == Kind::Post && s[i].id1 == p {
        run_end(s, i + 1, p)
    } else {
        i
    }
}

/// The organisational links among `entries`: all but those to subordinate
/// users, each with its catalogue text.
pub open spec fn org_of(entries: Seq<Kin>, texts: Map<u64, TextView>) -> Seq<DataView>
    decreases entries.len(),
{
    if entries.len() == 0 {
        Seq::empty()
    } else {
        let r = org_of(entries.drop_last(), texts);
        let k = entries.last();
        if k.link == Link::Head && k.ty2 == Kind::Face {
            r
        } else {
            r.push(
                DataView {
                    link: link_code(k.link) as i32,
                    ty2: kind_code(k.ty2) as i32,
                    id2: k.id2,
                    name: text_of(texts, k.ty2, k.id2).name,
                    text: text_of(texts, k.ty2, k.id2).text,
                },
            )
        }
    }
}

/// The subordinate users among `entries` that the directory knows.
pub open spec fn subs_of(entries: Seq<Kin>, users: Seq<PersonView>) -> Seq<PersonView>
    decreases entries.len(),
{
    if entries.len() == 0 {
        Seq::empty()
    } else {
        let r = subs_of(entries.drop_last(), users);
        let k = entries.last();
        if k.link == Link::Head && k.ty2 == Kind::Face {
            match find_uid(users, k.id2) {
                Some(u) => r.push(u),
                None => r,
            }
        } else {
            r
        }
    }
}

/// What is looked up first among the links of position `p`.
pub open spec fn post_probe(p: u32) -> Kin {
    Kin { ty1: Kind::Post, id1: p, link: Link::Home, ty2: Kind::Area, id2: 0 }
}

/// What the mesh says about user `uid`: the user's position `p`, and for the
/// links of `p` from (Post, `p`, Home, Area) on, in mesh order, the
/// organisational links with their texts and the subordinate users.
pub open spec fn mesh_user(s: Seq<Kin>, users: Seq<PersonView>, texts: Map<u64, TextView>, uid: u32) -> UserView {
    let p = seek(s, face_probe(uid));
    let b = post_probe(p);
    if s.contains(b) {
        UserView { id: p, org: Seq::empty(), subs: Seq::empty() }
    } else {
        let entries = s.subrange(lower_bound(s, b), run_end(s, lower_bound(s, b), p));
        UserView { id: p, org: org_of(entries, texts), subs: subs_of(entries, users) }
    }
}

/// The look-ups of `mesh_user` stay inside the mesh.
pub open spec fn mesh_user_defined(s: Seq<Kin>, uid: u32) -> bool {
    &&& seek_defined(s, face_probe(uid))
    &&& {
        let p = seek(s, face_probe(uid));
        s.contains(post_probe(p)) || run_end(s, lower_bound(s, post_probe(p)), p) < s.len()
    }
}

/// The position of user `uid`, its organisational links with their texts and
/// the users who report to it.
pub fn get_mesh(mesh: &MeshData, users: &UserData, texts: &OrgText, uid: u32) -> (r: User)
    requires
        mesh_wf(mesh@),
        uid_sorted(users@),
        mesh_user_defined(mesh@.links, uid),
    ensures
        r@ == mesh_user(mesh@.links, users@, texts@, uid),
{
    let mp = get_face_position(mesh, uid);
    let id = mp;
    let ty1 = Kind::Post;
    let b = Kin { ty1, id1: id, link: Link::Home, ty2: Kind::Area, id2: 0 };
    let ghost s = mesh@.links;
    let mut org: Vec<Data> = Vec::new();
    let mut subs: Vec<Sub> = Vec::new();
    let (found, start) = search(&mesh.mesh, &b);
    if !found {
        let mut i = start;
        let ghost e = run_end(s, start as int, id);
        proof {
            assert(s.subrange(start as int, start as int) =~= Seq::<Kin>::empty());
            assert(org@.map_values(|d: Data| d@) =~= Seq::<DataView>::empty());
            assert(subs@.map_values(|x: Sub| x@) =~= Seq::<PersonView>::empty());
        }
        while i < mesh.mesh.len()
            invariant
                s == mesh@.links,
                s == mesh.mesh@,
                uid_sorted(users@),
                start <= i <= s.len(),
                e == run_end(s, start as int, id),
                e < s.len(),
                run_end(s, i as int, id) == e,
                b == post_probe(id),
                !s.contains(b),
                start == lower_bound(s, b),
                id == seek(s, face_probe(uid)),
                org@.map_values(|d: Data| d@) == org_of(s.subrange(start as int, i as int), texts@),
                subs@.map_values(|x: Sub| x@) == subs_of(s.subrange(start as int, i as int), users@),
            decreases s.len() - i,
        {
            let kin = mesh.mesh[i];
            if kin.ty1 != b.ty1 || kin.id1 != b.id1 {
                proof {
                    assert(run_end(s, i as int, id) == i);
                }
                return User { id, org, subs };
            }
            let ghost pre = s.subrange(start as int, i as int);
            let ghost post = s.subrange(start as int, i + 1);
            proof {
                assert(post.drop_last() =~= pre);
                assert(post.last() == kin);
                assert(run_end(s, i as int, id) == run_end(s, i + 1, id));
            }
            if kin.link == Link::Head && kin.ty2 == Kind::Face {
                match get_cn(users, &kin.id2) {
                    Some(u) => {
                        let ghost before = subs@.map_values(|x: Sub| x@);
                        subs.push(Sub { uid: u.uid, pid: u.pid, cn: u.cn, dn: u.dn });
                        proof {
                            assert(subs@.map_values(|x: Sub| x@) =~= before.push(u@));
                        }
                    },
                    None => {},
                }
            } else {
                let t = get_text(texts, kin.ty2, &kin.id2);
                let ghost before = org@.map_values(|d: Data| d@);
                org.push(
                    Data {
                        link: kin.link.code() as i32,
                        ty2: kin.ty2.code() as i32,
                        id2: kin.id2,
                        name: t.name,
                        text: t.text,
                    },
                );
                proof {
                    assert(org@.map_values(|d: Data| d@) =~= before.push(
                        DataView {
                            link: link_code(kin.link) as i32,
                            ty2: kind_code(kin.ty2) as i32,
                            id2: kin.id2,
                            name: text_of(texts@, kin.ty2, kin.id2).name,
                            text: text_of(texts@, kin.ty2, kin.id2).text,
                        },
                    ));
                }
            }
            i = i + 1;
        }
    }
    User { id, org, subs }
}

/// The claims of user `uid`, as the directory has them.
pub open spec fn claims_of(users: Seq<PersonView>, uid: u32) -> Option<PersonView> {
    find_uid(users, uid)
}

/// The claims of user `uid`, or `None` when the directory does not know the user.
pub fn get_claims(users: &UserData, uid: u32) -> (r: Option<Claims>)
    requires
        uid_sorted(users@),
    ensures
        match claims_of(users@, uid) {
            Some(p) => r is Some && r->0@ == p,
            None => r is None,
        },
{
    match get_cn(users, &uid) {
        Some(u) => Some(Claims { uid: u.uid, pid: u.pid, cn: u.cn, dn: u.dn }),
        None => None,
    }
}

impl MeshData {
    /// Whether the look-ups of `get_mesh` for user `uid` stay inside the mesh.
    pub fn can_get_mesh(&self, uid: u32) -> (r: bool)
        requires
            mesh_wf(self@),
        ensures
            r == mesh_user_defined(self@.links, uid),
    {
        let ghost s = self@.links;
        let b = Kin { ty1: Kind::Face, id1: uid, link: Link::Home, ty2: Kind::Post, id2: 0 };
        let (found, i) = search(&self.mesh, &b);
        if !found && i >= self.mesh.len() {
            return false;
        }
        let p = if found {
            0
        } else {
            self.mesh[i].id2
        };
        assert(p == seek(s, face_probe(uid)));
        let b2 = Kin { ty1: Kind::Post, id1: p, link: Link::Home, ty2: Kind::Area, id2: 0 };
        let (found2, j) = search(&self.mesh, &b2);
        if found2 {
            return true;
        }
        let mut k = j;
        while k < self.mesh.len() && self.mesh[k].ty1 == Kind::Post && self.mesh[k].id1 == p
            invariant
                s == self.mesh@,
                j <= k <= s.len(),
                run_end(s, k as int, p) == run_end(s, j as int, p),
            decreases s.len() - k,
        {
            k = k + 1;
        }
        k < self.mesh.len()
    }
}

/// Every subordinate that a look-up reports is a user whom the directory knows
/// and whom a (Head, Face) link among the entries names.
pub proof fn lemma_subs_are_heads(entries: Seq<Kin>, users: Seq<PersonView>)
    ensures
        forall|i: int|
            0 <= i < subs_of(entries, users).len() ==> users.contains(#[trigger] subs_of(entries, users)[i]),
        forall|i: int|
            0 <= i < subs_of(entries, users).len() ==> is_head_of(entries, #[trigger] subs_of(entries, users)[i].uid),
    decreases entries.len(),
{
    if entries.len() > 0 {
        let t = entries.drop_last();
        lemma_subs_are_heads(t, users);
        let k = entries.last();
        lemma_find_uid(users, k.id2);
        let last = entries.len() - 1;
        assert(entries[last] == k);
        assert forall|i: int| 0 <= i < subs_of(entries, users).len() implies users.contains(
            #[trigger] subs_of(entries, users)[i],
        ) && is_head_of(entries, subs_of(entries, users)[i].uid) by {
            if i < subs_of(t, users).len() {
                assert(subs_of(entries, users)[i] == subs_of(t, users)[i]);
                assert(is_head_of(t, subs_of(t, users)[i].uid));
                let j = choose|j: int|
                    0 <= j < t.len() && t[j].link == Link::Head && t[j].ty2 == Kind::Face && t[j].id2
                        == subs_of(t, users)[i].uid;
                assert(entries[j] == t[j]);
            } else {
                let u = find_uid(users, k.id2)->0;
                assert(subs_of(entries, users)[i] == u);
            }
        }
    }
}

/// Some (Head, Face) link among `entries` names user `uid`.
pub open spec fn is_head_of(entries: Seq<Kin>, uid: u32) -> bool {
    exists|j: int|
        0 <= j < entries.len() && entries[j].link == Link::Head && entries[j].ty2 == Kind::Face
            && entries[j].id2 == uid
}

proof fn lemma_lower_bound_props(s: Seq<Kin>, b: Kin)
    requires
        links_sorted(s),
    ensures
        0 <= lower_bound(s, b) <= s.len(),
        forall|j: int| 0 <= j < lower_bound(s, b) ==> kin_key(#[trigger] s[j]) < kin_key(b),
        forall|j: int| lower_bound(s, b) <= j < s.len() ==> kin_key(#[trigger] s[j]) >= kin_key(b),
    decreases s.len(),
{
    if s.len() > 0 {
        let t = s.skip(1);
        assert forall|i: int, j: int| 0 <= i < j < t.len() implies kin_key(t[i]) < kin_key(t[j]) by {
            assert(t[i] == s[i + 1] && t[j] == s[j + 1]);
        }
        lemma_lower_bound_props(t, b);
        if kin_key(s[0]) < kin_key(b) {
            assert forall|j: int| 0 <= j < lower_bound(s, b) implies kin_key(#[trigger] s[j]) < kin_key(b) by {
                if j > 0 {
                    assert(s[j] == t[j - 1]);
                }
            }
            assert forall|j: int| lower_bound(s, b) <= j < s.len() implies kin_key(#[trigger] s[j]) >= kin_key(b) by {
                assert(s[j] == t[j - 1]);
            }
        } else {
            assert forall|j: int| 0 <= j < s.len() implies kin_key(#[trigger] s[j]) >= kin_key(b) by {
                if j > 0 {
                    assert(kin_key(s[0]) < kin_key(s[j]));
                }
            }
        }
    }
}

/// `k` with its second object taken away: what is looked up to find the links
/// that start like `k`.
pub open spec fn probe_of(k: Kin) -> Kin {
    Kin { id2: 0, ..k }
}

/// Looking up a link's start finds a link with that same start: the one with
/// the smallest second object. So the position look-ups find the user's own
/// position (or manager position) whenever the mesh links the user to one.
pub proof fn lemma_seek_finds(m: MeshView, k: Kin)
    requires
        mesh_wf(m),
        m.links.contains(k),
    ensures
        seek_defined(m.links, probe_of(k)),
        ({
            let f = m.links[lower_bound(m.links, probe_of(k))];
            &&& f.ty1 == k.ty1 && f.id1 == k.id1 && f.link == k.link && f.ty2 == k.ty2
            &&& f.id2 <= k.id2
            &&& seek(m.links, probe_of(k)) == f.id2
        }),
{
    let s = m.links;
    let b = probe_of(k);
    lemma_lower_bound_props(s, b);
    let i = choose|i: int| 0 <= i < s.len() && s[i] == k;
    assert(kin_valid(s[i]));
    lemma_kin_key_order(b, k);
    let lb = lower_bound(s, b);
    assert(lb <= i);
    let f = s[lb];
    lemma_kin_key_order(b, f);
    lemma_kin_key_order(f, k);
    if lb < i {
        assert(kin_key(f) < kin_key(k));
    }
    if s.contains(b) {
        let j = choose|j: int| 0 <= j < s.len() && s[j] == b;
        assert(kin_valid(s[j]));
    }
}

/// Reading the mesh file numbers organisation keys one after the other, from
/// 1000: different keys get different numbers, so the area part of a site
/// names its organisation key.
pub proof fn lemma_mesh_orgkeys_fresh(lines: Seq<Option<Seq<char>>>)
    ensures
        mesh_scan(lines) matches Some(st) ==> fresh_codes(st.orgkeys, st.next_org),
    decreases lines.len(),
{
    if lines.len() > 1 {
        lemma_mesh_orgkeys_fresh(lines.drop_last());
        if let Some(st) = mesh_scan(lines.drop_last()) {
            if let Some(l) = lines.last() {
                let v = split_on(l, '\t');
                if mesh_line_ok(st, v) && mesh_org_new(st, v) {
                    lemma_fresh_push(st.orgkeys, st.next_org, v[9]);
                }
            }
        }
    }
}

/// After reading the mesh file, two different organisation keys have
/// different numbers.
pub proof fn lemma_mesh_orgkeys_distinct(lines: Seq<Option<Seq<char>>>, a: Seq<char>, b: Seq<char>)
    requires
        mesh_scan(lines) is Some,
        assoc_get(mesh_scan(lines)->0.orgkeys, a) is Some,
        assoc_get(mesh_scan(lines)->0.orgkeys, b) is Some,
        a != b,
    ensures
        assoc_get(mesh_scan(lines)->0.orgkeys, a) != assoc_get(mesh_scan(lines)->0.orgkeys, b),
{
    lemma_mesh_orgkeys_fresh(lines);
    let st = mesh_scan(lines)->0;
    lemma_fresh_distinct(st.orgkeys, st.next_org, a, b);
}

/// Reading the mesh file numbers locations one after the other, from 1000:
/// each new location gets a number larger than all before it.
pub proof fn lemma_mesh_locations_rising(lines: Seq<Option<Seq<char>>>)
    ensures
        mesh_scan(lines) matches Some(st) ==> rising_codes(st.locations, st.next_loc),
    decreases lines.len(),
{
    if lines.len() > 1 {
        lemma_mesh_locations_rising(lines.drop_last());
        if let Some(st) = mesh_scan(lines.drop_last()) {
            if let Some(l) = lines.last() {
                let v = split_on(l, '\t');
                if mesh_line_ok(st, v) && mesh_loc_new(st, v) {
                    lemma_rising_push(st.locations, st.next_loc, v[16]);
                }
            }
        }
    }
}

/// After reading the mesh file, two different locations have different
/// numbers, so rows of one organisation key at different locations get
/// different site codes.
pub proof fn lemma_mesh_locations_distinct(lines: Seq<Option<Seq<char>>>, a: Seq<char>, b: Seq<char>)
    requires
        mesh_scan(lines) is Some,
        assoc_get(mesh_scan(lines)->0.locations, a) is Some,
        assoc_get(mesh_scan(lines)->0.locations, b) is Some,
        a != b,
    ensures
        assoc_get(mesh_scan(lines)->0.locations, a) != assoc_get(mesh_scan(lines)->0.locations, b),
{
    lemma_mesh_locations_rising(lines);
    let st = mesh_scan(lines)->0;
    lemma_rising_distinct(st.locations, st.next_loc, a, b);
}

/// The kind whose number (`kind as i32`) is `c`.
pub open spec fn kind_of_code(c: i32) -> Kind {
    if c == 0 {
        Kind::Area
    } else if c == 1 {
        Kind::Site
    } else if c == 2 {
        Kind::Unit
    } else if c == 3 {
        Kind::Trap
    } else if c == 4 {
        Kind::Post
    } else if c == 5 {
        Kind::Body
    } else if c == 6 {
        Kind::Face
    } else if c == 7 {
        Kind::Crew
    } else {
        Kind::Oops
    }
}

/// A link to a subordinate user: (Head, Face).
pub open spec fn is_sub_link(k: Kin) -> bool {
    k.link == Link::Head && k.ty2 == Kind::Face
}

/// What a look-up reports of organisational link `k`: its link and kind
/// numbers, its second object, and that object's catalogue text.
pub open spec fn link_data(k: Kin, texts: Map<u64, TextView>) -> DataView {
    DataView {
        link: link_code(k.link) as i32,
        ty2: kind_code(k.ty2) as i32,
        id2: k.id2,
        name: text_of(texts, k.ty2, k.id2).name,
        text: text_of(texts, k.ty2, k.id2).text,
    }
}

/// The organisational links reported for `entries` are exactly its links that
/// do not name a subordinate, each reported with the catalogue text of its own
/// second object.
proof fn lemma_org_of(entries: Seq<Kin>, texts: Map<u64, TextView>)
    ensures
        forall|i: int|
            0 <= i < org_of(entries, texts).len() ==> {
                let d = #[trigger] org_of(entries, texts)[i];
                &&& d.name == text_of(texts, kind_of_code(d.ty2), d.id2).name
                &&& d.text == text_of(texts, kind_of_code(d.ty2), d.id2).text
                &&& exists|j: int|
                    0 <= j < entries.len() && !is_sub_link(entries[j]) && d == link_data(
                        entries[j],
                        texts,
                    )
            },
        forall|j: int|
            0 <= j < entries.len() && !is_sub_link(entries[j]) ==> org_of(entries, texts).contains(
                link_data(#[trigger] entries[j], texts),
            ),
    decreases entries.len(),
{
    if entries.len() > 0 {
        let t = entries.drop_last();
        let k = entries.last();
        lemma_org_of(t, texts);
        let o = org_of(entries, texts);
        let ot = org_of(t, texts);
        assert(entries[entries.len() - 1] == k);
        assert forall|i: int| 0 <= i < o.len() implies {
            let d = #[trigger] o[i];
            &&& d.name == text_of(texts, kind_of_code(d.ty2), d.id2).name
            &&& d.text == text_of(texts, kind_of_code(d.ty2), d.id2).text
            &&& exists|j: int| 0 <= j < entries.len() && !is_sub_link(entries[j]) && d == link_data(entries[j], texts)
        } by {
            if i < ot.len() {
                assert(o[i] == ot[i]);
                let j = choose|j: int| 0 <= j < t.len() && !is_sub_link(t[j]) && ot[i] == link_data(t[j], texts);
                assert(entries[j] == t[j]);
            } else {
                assert(o[i] == link_data(k, texts));
            }
        }
        assert forall|j: int| 0 <= j < entries.len() && !is_sub_link(entries[j]) implies o.contains(
            link_data(#[trigger] entries[j], texts),
        ) by {
            if j < t.len() {
                assert(entries[j] == t[j]);
                let i = choose|i: int| 0 <= i < ot.len() && ot[i] == link_data(t[j], texts);
                assert(o[i] == ot[i]);
            } else {
                assert(o[o.len() - 1] == link_data(k, texts));
            }
        }
    }
}

/// Every subordinate link among `entries` whose user the directory knows has
/// that user among the subordinates reported.
proof fn lemma_subs_complete(entries: Seq<Kin>, users: Seq<PersonView>)
    ensures
        forall|j: int|
            0 <= j < entries.len() && is_sub_link(entries[j]) && find_uid(users, entries[j].id2) is Some
                ==> subs_of(entries, users).contains(find_uid(users, (#[trigger] entries[j]).id2)->0),
    decreases entries.len(),
{
    if entries.len() > 0 {
        let t = entries.drop_last();
        let k = entries.last();
        lemma_subs_complete(t, users);
        let o = subs_of(entries, users);
        let ot = subs_of(t, users);
        assert forall|j: int|
            0 <= j < entries.len() && is_sub_link(entries[j]) && find_uid(users, entries[j].id2) is Some
                implies o.contains(find_uid(users, (#[trigger] entries[j]).id2)->0) by {
            if j < t.len() {
                assert(entries[j] == t[j]);
                let u = find_uid(users, t[j].id2)->0;
                let i = choose|i: int| 0 <= i < ot.len() && ot[i] == u;
                assert(o[i] == ot[i]);
            } else {
                assert(entries[j] == k);
                assert(o[o.len() - 1] == find_uid(users, k.id2)->0);
            }
        }
    }
}

proof fn lemma_run_end_past(s: Seq<Kin>, i: int, p: u32, m: int)
    requires
        0 <= i <= m < s.len(),
        forall|k: int| i <= k <= m ==> (#[trigger] s[k]).ty1 == Kind::Post && s[k].id1 == p,
    ensures
        run_end(s, i, p) > m,
        run_end(s, i, p) <= s.len(),
    decreases m - i,
{
    if i < m {
        lemma_run_end_past(s, i + 1, p, m);
    } else {
        lemma_run_end_bound(s, i + 1, p);
    }
}

proof fn lemma_run_end_bound(s: Seq<Kin>, i: int, p: u32)
    ensures
        run_end(s, i, p) <= s.len(),
        0 <= i <= s.len() ==> i <= run_end(s, i, p),
    decreases s.len() - i,
{
    if 0 <= i < s.len() {
        lemma_run_end_bound(s, i + 1, p);
    }
}

/// A link of position `p` that comes at or after `post_probe(p)` lies in the
/// run of entries that a look-up of `p` walks through.
proof fn lemma_in_run(s: Seq<Kin>, p: u32, m: int)
    requires
        links_sorted(s),
        0 <= m < s.len(),
        s[m].ty1 == Kind::Post,
        s[m].id1 == p,
        kin_key(s[m]) >= kin_key(post_probe(p)),
    ensures
        lower_bound(s, post_probe(p)) <= m < run_end(s, lower_bound(s, post_probe(p)), p),
        run_end(s, lower_bound(s, post_probe(p)), p) <= s.len(),
{
    let b = post_probe(p);
    lemma_lower_bound_props(s, b);
    let lb = lower_bound(s, b);
    assert forall|k: int| lb <= k <= m implies (#[trigger] s[k]).ty1 == Kind::Post && s[k].id1 == p by {
        lemma_kin_key_order(b, s[k]);
        lemma_kin_key_order(s[k], s[m]);
        if k < m {
            assert(kin_key(s[k]) < kin_key(s[m]));
        }
    }
    lemma_run_end_past(s, lb, p, m);
}

/// A look-up of user `uid` reports every link of the user's position `p` from
/// (Home, Area) on: each subordinate link whose user the directory knows gives
/// that user among the subordinates, and each other link is among the
/// organisational links with the catalogue text of its own second object.
pub proof fn lemma_get_mesh_complete(
    m: MeshView,
    users: Seq<PersonView>,
    texts: Map<u64, TextView>,
    uid: u32,
    k: Kin,
)
    requires
        mesh_wf(m),
        mesh_user_defined(m.links, uid),
        m.links.contains(k),
        k.ty1 == Kind::Post,
        k.id1 == seek(m.links, face_probe(uid)),
        k.link != Link::Boss,
    ensures
        is_sub_link(k) && find_uid(users, k.id2) is Some ==> mesh_user(m.links, users, texts, uid).subs.contains(
            find_uid(users, k.id2)->0,
        ),
        !is_sub_link(k) ==> mesh_user(m.links, users, texts, uid).org.contains(link_data(k, texts)),
{
    let s = m.links;
    let p = seek(s, face_probe(uid));
    let b = post_probe(p);
    let mi = choose|mi: int| 0 <= mi < s.len() && s[mi] == k;
    assert(kin_valid(s[mi]));
    lemma_kin_key_order(b, k);
    lemma_in_run(s, p, mi);
    if s.contains(b) {
        let j = choose|j: int| 0 <= j < s.len() && s[j] == b;
        assert(kin_valid(s[j]));
    }
    let lb = lower_bound(s, b);
    let entries = s.subrange(lb, run_end(s, lb, p));
    assert(entries[mi - lb] == k);
    lemma_org_of(entries, texts);
    lemma_subs_complete(entries, users);
}

/// Every organisational link that a look-up of user `uid` reports carries the
/// catalogue text of its own second object and is a link of the user's
/// position; every subordinate reported is a known user named by a
/// subordinate link of that position.
pub proof fn lemma_get_mesh_sound(m: MeshView, users: Seq<PersonView>, texts: Map<u64, TextView>, uid: u32)
    requires
        mesh_wf(m),
        mesh_user_defined(m.links, uid),
    ensures
        ({
            let r = mesh_user(m.links, users, texts, uid);
            let p = seek(m.links, face_probe(uid));
            &&& r.id == p
            &&& forall|i: int|
                0 <= i < r.org.len() ==> {
                    let d = #[trigger] r.org[i];
                    &&& d.name == text_of(texts, kind_of_code(d.ty2), d.id2).name
                    &&& d.text == text_of(texts, kind_of_code(d.ty2), d.id2).text
                    &&& exists|k: Kin|
                        #![trigger m.links.contains(k)]
                        m.links.contains(k) && k.ty1 == Kind::Post && k.id1 == p && !is_sub_link(k)
                            && d == link_data(k, texts)
                }
            &&& forall|i: int|
                0 <= i < r.subs.len() ==> users.contains(#[trigger] r.subs[i]) && exists|k: Kin|
                    #![trigger m.links.contains(k)]
                    m.links.contains(k) && k.ty1 == Kind::Post && k.id1 == p && is_sub_link(k) && k.id2
                        == r.subs[i].uid
        }),
{
    let s = m.links;
    let p = seek(s, face_probe(uid));
    let b = post_probe(p);
    if !s.contains(b) {
        let lb = lower_bound(s, b);
        lemma_lower_bound_props(s, b);
        let e = run_end(s, lb, p);
        lemma_run_end_bound(s, lb, p);
        let entries = s.subrange(lb, e);
        lemma_org_of(entries, texts);
        lemma_subs_are_heads(entries, users);
        assert forall|j: int| 0 <= j < entries.len() implies (#[trigger] entries[j]).ty1 == Kind::Post
            && entries[j].id1 == p && s.contains(entries[j]) by {
            lemma_run_end_members(s, lb, p, lb + j);
            assert(entries[j] == s[lb + j]);
        }
        let r = mesh_user(s, users, texts, uid);
        assert forall|i: int| 0 <= i < r.org.len() implies exists|k: Kin|
            #![trigger m.links.contains(k)]
            m.links.contains(k) && k.ty1 == Kind::Post && k.id1 == p && !is_sub_link(k) && #[trigger] r.org[i]
                == link_data(k, texts) by {
            let j = choose|j: int| 0 <= j < entries.len() && !is_sub_link(entries[j]) && r.org[i] == link_data(entries[j], texts);
            assert(entries[j].ty1 == Kind::Post && entries[j].id1 == p && s.contains(entries[j]));
        }
        assert forall|i: int| 0 <= i < r.subs.len() implies exists|k: Kin|
            #![trigger m.links.contains(k)]
            m.links.contains(k) && k.ty1 == Kind::Post && k.id1 == p && is_sub_link(k) && k.id2
                == (#[trigger] r.subs[i]).uid by {
            assert(is_head_of(entries, r.subs[i].uid));
            let j = choose|j: int|
                0 <= j < entries.len() && entries[j].link == Link::Head && entries[j].ty2 == Kind::Face
                    && entries[j].id2 == r.subs[i].uid;
            assert(entries[j].ty1 == Kind::Post && entries[j].id1 == p && s.contains(entries[j]));
        }
    }
}

proof fn lemma_run_end_members(s: Seq<Kin>, i: int, p: u32, k: int)
    requires
        0 <= i <= k < run_end(s, i, p),
        run_end(s, i, p) <= s.len(),
    ensures
        s[k].ty1 == Kind::Post && s[k].id1 == p,
    decreases k - i,
{
    if i < k {
        lemma_run_end_members(s, i + 1, p, k);
    }
}

} // verus!
