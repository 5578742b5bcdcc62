//! The text catalogue: the name and description of each organisational
//! object, read from the tab-separated organisation file.
use vstd::prelude::*;
use std::collections::BTreeMap;
use crate::chars::{lemma_after_first_absent, lemma_after_first_at, after_first, after_first_char, chars_of, copy_chars, first_char_one_byte, line_views, seqs_of, skip_first, split_on, split_on_char, starts_with_one_byte, string_from_chars, trim, trim_chars};
use crate::codes::{NameCodes, assoc_get, fresh_codes, lemma_fresh_distinct, lemma_fresh_push, rising_codes, lemma_rising_distinct, lemma_rising_push};
use crate::decimal::{parse_u16, parse_u16_chars, parse_u32, parse_u32_chars, parse_u32_or_zero, parse_u32_or_zero_chars};
use crate::df::{Kind, combine, combine_spec, kind_code};
use crate::sorting::lemma_u64_ordered;

verus! {

/// An object of the organisation: its kind and number.
#[derive(Clone, Copy, Debug, PartialEq, Eq, Structural, PartialOrd, Ord)]
pub struct Object {
    pub ty: Kind,
    pub id: u32,
}

/// The catalogue key of the object of kind `ty` and number `id`.
pub open spec fn object_key(ty: Kind, id: u32) -> u64 {
    (kind_code(ty) * 0x1_0000_0000 + id) as u64
}

impl Object {
    /// The object of kind `ty` and number `id`.
    pub fn new(ty: Kind, id: u32) -> (r: Object)
        ensures
            r == (Object { ty, id }),
    {
        Object { ty, id }
    }

    /// The catalogue key of the object.
    pub fn key(&self) -> (r: u64)
        ensures
            r == object_key(self.ty, self.id),
    {
        (self.ty.code() as u64) * 0x1_0000_0000 + (self.id as u64)
    }
}

/// Different objects have different catalogue keys.
pub proof fn lemma_object_key_distinct(a: Object, b: Object)
    ensures
        object_key(a.ty, a.id) == object_key(b.ty, b.id) <==> a == b,
{
    assert(kind_code(a.ty) * 0x1_0000_0000 + a.id < 0x1_0000_0000_0000_0000);
    assert(kind_code(b.ty) * 0x1_0000_0000 + b.id < 0x1_0000_0000_0000_0000);
    if kind_code(a.ty) < kind_code(b.ty) {
        assert(kind_code(a.ty) * 0x1_0000_0000 + 0x1_0000_0000 <= kind_code(b.ty) * 0x1_0000_0000);
    } else if kind_code(a.ty) > kind_code(b.ty) {
        assert(kind_code(b.ty) * 0x1_0000_0000 + 0x1_0000_0000 <= kind_code(a.ty) * 0x1_0000_0000);
    }
}

/// A name and a description.
pub struct TextView {
    pub name: Seq<char>,
    pub text: Seq<char>,
}

/// The name and description of an object.
#[derive(Debug)]
pub struct Text {
    pub name: String,
    pub text: String,
}

impl View for Text {
    type V = TextView;

    open spec fn view(&self) -> TextView {
        TextView { name: self.name@, text: self.text@ }
    }
}

impl Text {
    /// The text with name `a` and description `b`.
    pub fn new(a: &Vec<char>, b: &Vec<char>) -> (r: Text)
        ensures
            r@ == (TextView { name: a@, text: b@ }),
    {
        Text { name: string_from_chars(a), text: string_from_chars(b) }
    }
}

/// The catalogue: texts by catalogue key.
pub struct OrgText {
    texts: BTreeMap<u64, Text>,
}

impl View for OrgText {
    type V = Map<u64, TextView>;

    closed spec fn view(&self) -> Map<u64, TextView> {
        self.texts@.map_values(|t: Text| t@)
    }
}

/// The numbers that one row of the organisation file describes.
pub struct Rec {
    pub position: u32,
    pub division: u32,
    pub region: u32,
    pub orgunit: u32,
    pub job: u32,
    pub employee: u32,
    pub manager: u32,
    pub manager_eid: u32,
    pub manager_sid: u32,
}

/// The fields that `Rec::new` must read: the personnel area and sub-area (a
/// letter and a number) and the unit, job, position and employee numbers.
pub open spec fn rec_ok(
    poid: Seq<char>,
    emid: Seq<char>,
    pacode: Seq<char>,
    subcode: Seq<char>,
    ouid: Seq<char>,
    joid: Seq<char>,
) -> bool {
    &&& first_char_one_byte(pacode)
    &&& parse_u16(pacode.skip(1)) is Some
    &&& first_char_one_byte(subcode)
    &&& parse_u16(subcode.skip(1)) is Some
    &&& parse_u32(ouid) is Some
    &&& parse_u32(joid) is Some
    &&& parse_u32(poid) is Some
    &&& parse_u32(emid) is Some
}

/// The numbers of a row of the organisation file; the manager's user name is
/// read whole, so that a name with its letter gives 0.
pub open spec fn rec_spec(
    poid: Seq<char>,
    emid: Seq<char>,
    pacode: Seq<char>,
    subcode: Seq<char>,
    ouid: Seq<char>,
    joid: Seq<char>,
    mpid: Seq<char>,
    region: u32,
    manager_eid: Seq<char>,
    manager_sid: Seq<char>,
) -> Rec {
    Rec {
        position: parse_u32(poid)->0,
        division: combine_spec(parse_u16(pacode.skip(1))->0, parse_u16(subcode.skip(1))->0),
        region: region,
        orgunit: parse_u32(ouid)->0,
        job: parse_u32(joid)->0,
        employee: parse_u32(emid)->0,
        manager: parse_u32_or_zero(mpid),
        manager_eid: parse_u32_or_zero(manager_eid),
        manager_sid: if manager_sid.len() == 0 {
            0
        } else {
            parse_u32_or_zero(manager_sid)
        },
    }
}

/// The number that `Some` holds, or 0.
fn unwrap_u32(v: Option<u32>) -> (r: u32)
    ensures
        v matches Some(x) ==> r == x,
{
    match v {
        Some(x) => x,
        None => 0,
    }
}

impl Rec {
    /// Reads the numbers of a row of the organisation file.
    pub fn new(
        poid: &Vec<char>,
        emid: &Vec<char>,
        pacode: &Vec<char>,
        subcode: &Vec<char>,
        ouid: &Vec<char>,
        joid: &Vec<char>,
        mpid: &Vec<char>,
        region: u32,
        manager_eid: &Vec<char>,
        manager_sid: &Vec<char>,
    ) -> (r: Rec)
        requires
            rec_ok(poid@, emid@, pacode@, subcode@, ouid@, joid@),
        ensures
            r == rec_spec(
                poid@,
                emid@,
                pacode@,
                subcode@,
                ouid@,
                joid@,
                mpid@,
                region,
                manager_eid@,
                manager_sid@,
            ),
    {
        let pa = match parse_u16_chars(&skip_first(pacode)) {
            Some(v) => v,
            None => 0,
        };
        let psa = match parse_u16_chars(&skip_first(subcode)) {
            Some(v) => v,
            None => 0,
        };
        let division = combine(&pa, &psa);
        let orgunit = unwrap_u32(parse_u32_chars(ouid));
        let job = unwrap_u32(parse_u32_chars(joid));
        let position = unwrap_u32(parse_u32_chars(poid));
        let employee = unwrap_u32(parse_u32_chars(emid));
        let manager = parse_u32_or_zero_chars(mpid);
        let manager_eid = parse_u32_or_zero_chars(manager_eid);
        let manager_sid = if manager_sid.len() == 0 {
            0
        } else {
            parse_u32_or_zero_chars(manager_sid)
        };
        Rec {
            position,
            division,
            region,
            orgunit,
            job,
            employee,
            manager,
            manager_eid,
            manager_sid,
        }
    }
}

/// The short form of a name: what follows its first `:`, trimmed, or the whole
/// name when it holds no `:`.
pub open spec fn shortened(s: Seq<char>) -> Seq<char> {
    match after_first(s, ':') {
        Some(b) => trim(b),
        None => s,
    }
}

/// The short form of a name.
fn shorten(s: &Vec<char>) -> (r: Vec<char>)
    ensures
        r@ == shortened(s@),
{
    match after_first_char(s, ':') {
        Some(b) => trim_chars(&b),
        None => copy_chars(s),
    }
}

/// The state of reading the organisation file: the numbers given so far to
/// organisation keys and to locations, the next number of each, and the
/// catalogue so far.
pub ghost struct TextScan {
    pub orgkeys: Seq<(Seq<char>, u16)>,
    pub next_org: u16,
    pub locations: Seq<(Seq<char>, u16)>,
    pub next_loc: u16,
    pub texts: Map<u64, TextView>,
}

/// Nothing read yet: numbering starts at 1000.
pub open spec fn text_scan_start() -> TextScan {
    TextScan {
        orgkeys: Seq::empty(),
        next_org: 1000,
        locations: Seq::empty(),
        next_loc: 1000,
        texts: Map::empty(),
    }
}

/// Whether the organisation key of row `v` (column 9) is new.
pub open spec fn text_org_new(st: TextScan, v: Seq<Seq<char>>) -> bool {
    assoc_get(st.orgkeys, v[9]) is None
}

/// Whether the location of row `v` is new: column 16 is looked up, though
/// column 11 is the one numbered.
pub open spec fn text_loc_new(st: TextScan, v: Seq<Seq<char>>) -> bool {
    assoc_get(st.locations, v[16]) is None
}

/// The organisation keys after row `v`.
pub open spec fn text_orgkeys_after(st: TextScan, v: Seq<Seq<char>>) -> Seq<(Seq<char>, u16)> {
    if text_org_new(st, v) {
        st.orgkeys.push((v[9], st.next_org))
    } else {
        st.orgkeys
    }
}

/// The locations after row `v`.
pub open spec fn text_locations_after(st: TextScan, v: Seq<Seq<char>>) -> Seq<(Seq<char>, u16)> {
    if text_loc_new(st, v) {
        st.locations.push((v[11], st.next_loc))
    } else {
        st.locations
    }
}

/// Row `v` of the organisation file can be read without stopping the program:
/// it has the columns read, the counters do not run out, its location (column
/// 11) has a number and its numbers are well formed.
pub open spec fn text_line_ok(st: TextScan, v: Seq<Seq<char>>) -> bool {
    &&& v.len() >= 24
    &&& (text_org_new(st, v) ==> st.next_org < 65535)
    &&& (text_loc_new(st, v) ==> st.next_loc < 65535)
    &&& assoc_get(text_locations_after(st, v), v[11]) is Some
    &&& rec_ok(v[1], v[2], v[3], v[4], v[5], v[6])
}

/// The numbers of row `v`, its region being the combined organisation and
/// location numbers.
pub open spec fn text_line_rec(st: TextScan, v: Seq<Seq<char>>) -> Rec {
    let region = combine_spec(
        assoc_get(text_orgkeys_after(st, v), v[9])->0,
        assoc_get(text_locations_after(st, v), v[11])->0,
    );
    rec_spec(v[1], v[2], v[3], v[4], v[5], v[6], v[7], region, v[8], v[10])
}

/// The catalogue after the texts of row `v`, stored in this order: area
/// (columns 13, 14), unit (17 and its short form), job (13 and its short
/// form), manager position (23 and the short form of 22), employee (20, 21),
/// region (9, 11) and area again (15, 16).
pub open spec fn text_line_texts(m: Map<u64, TextView>, o: Rec, v: Seq<Seq<char>>) -> Map<u64, TextView> {
    m.insert(object_key(Kind::Area, o.division), TextView { name: v[13], text: v[14] }).insert(
        object_key(Kind::Unit, o.orgunit),
        TextView { name: v[17], text: shortened(v[17]) },
    ).insert(object_key(Kind::Trap, o.job), TextView { name: v[13], text: shortened(v[13]) }).insert(
        object_key(Kind::Post, o.manager),
        TextView { name: v[23], text: shortened(v[22]) },
    ).insert(object_key(Kind::Body, o.employee), TextView { name: v[20], text: v[21] }).insert(
        object_key(Kind::Site, o.region),
        TextView { name: v[9], text: v[11] },
    ).insert(object_key(Kind::Area, o.division), TextView { name: v[15], text: v[16] })
}

/// The state after reading row `v`.
pub open spec fn text_line_next(st: TextScan, v: Seq<Seq<char>>) -> TextScan {
    TextScan {
        orgkeys: text_orgkeys_after(st, v),
        next_org: if text_org_new(st, v) {
            (st.next_org + 1) as u16
        } else {
            st.next_org
        },
        locations: text_locations_after(st, v),
        next_loc: if text_loc_new(st, v) {
            (st.next_loc + 1) as u16
        } else {
            st.next_loc
        },
        texts: text_line_texts(st.texts, text_line_rec(st, v), v),
    }
}

/// The state after reading `lines`: the first line is a header, unreadable lines
/// are passed over, and `None` means a row the program stops on.
pub open spec fn text_scan(lines: Seq<Option<Seq<char>>>) -> Option<TextScan>
    decreases lines.len(),
{
    if lines.len() <= 1 {
        Some(text_scan_start())
    } else {
        match text_scan(lines.drop_last()) {
            None => None,
            Some(st) => match lines.last() {
                None => Some(st),
                Some(l) => {
                    let v = split_on(l, '\t');
                    if text_line_ok(st, v) {
                        Some(text_line_next(st, v))
                    } else {
                        None
                    }
                },
            },
        }
    }
}

proof fn lemma_text_scan_stops(lines: Seq<Option<Seq<char>>>, k: int)
    requires
        0 <= k <= lines.len(),
        text_scan(lines.take(k)) is None,
    ensures
        text_scan(lines) is None,
    decreases lines.len() - k,
{
    if k < lines.len() {
        assert(lines.take(k + 1).drop_last() =~= lines.take(k));
        lemma_text_scan_stops(lines, k + 1);
    } else {
        assert(lines.take(k) =~= lines);
    }
}

/// The reading of the organisation file in progress.
struct TextScanner {
    orgkeys: NameCodes,
    next_org: u16,
    locations: NameCodes,
    next_loc: u16,
    texts: OrgText,
}

impl TextScanner {
    spec fn state(&self) -> TextScan {
        TextScan {
            orgkeys: self.orgkeys@,
            next_org: self.next_org,
            locations: self.locations@,
            next_loc: self.next_loc,
            texts: self.texts@,
        }
    }

    fn new() -> (r: TextScanner)
        ensures
            r.state() == text_scan_start(),
    {
        let r = TextScanner {
            orgkeys: NameCodes::new(),
            next_org: 1000,
            locations: NameCodes::new(),
            next_loc: 1000,
            texts: OrgText { texts: BTreeMap::new() },
        };
        proof {
            assert(r.texts@ =~= Map::<u64, TextView>::empty());
        }
        r
    }

    /// Stores the text of `obj`.
    fn put(&mut self, obj: Object, t: Text)
        ensures
            final(self).state() == (TextScan {
                texts: old(self).state().texts.insert(object_key(obj.ty, obj.id), t@),
                ..old(self).state()
            }),
    {
        proof {
            lemma_u64_ordered();
        }
        let ghost before = self.texts@;
        let ghost tv = t@;
        self.texts.texts.insert(obj.key(), t);
        proof {
            assert(self.texts@ =~= before.insert(object_key(obj.ty, obj.id), tv));
        }
    }

    /// Reads one row; `false` when the row is one the program stops on.
    fn scan_row(&mut self, v: &Vec<Vec<char>>) -> (ok: bool)
        ensures
            ok == text_line_ok(old(self).state(), seqs_of(v@)),
            ok ==> final(self).state() == text_line_next(old(self).state(), seqs_of(v@)),
    {
        let ghost st = self.state();
        let ghost sv = seqs_of(v@);
        if v.len() < 24 {
            return false;
        }
        if !(starts_with_one_byte(&v[3]) && starts_with_one_byte(&v[4])) {
            return false;
        }
        let pa_ok = match parse_u16_chars(&skip_first(&v[3])) {
            Some(_) => true,
            None => false,
        };
        let psa_ok = match parse_u16_chars(&skip_first(&v[4])) {
            Some(_) => true,
            None => false,
        };
        let nums_ok = match (
            parse_u32_chars(&v[5]),
            parse_u32_chars(&v[6]),
            parse_u32_chars(&v[1]),
            parse_u32_chars(&v[2]),
        ) {
            (Some(_), Some(_), Some(_), Some(_)) => true,
            _ => false,
        };
        if !(pa_ok && psa_ok && nums_ok) {
            return false;
        }
        let org_new = match self.orgkeys.get(&v[9]) {
            Some(_) => false,
            None => true,
        };
        let loc_new = match self.locations.get(&v[16]) {
            Some(_) => false,
            None => true,
        };
        if org_new && self.next_org == 65535 {
            return false;
        }
        if loc_new && self.next_loc == 65535 {
            return false;
        }
        if org_new {
            self.orgkeys.insert(copy_chars(&v[9]), self.next_org);
            self.next_org = self.next_org + 1;
        }
        if loc_new {
            self.locations.insert(copy_chars(&v[11]), self.next_loc);
            self.next_loc = self.next_loc + 1;
        }
        let org = match self.orgkeys.get(&v[9]) {
            Some(c) => c,
            None => 0,
        };
        let loc = match self.locations.get(&v[11]) {
            Some(c) => c,
            None => {
                return false;
            },
        };
        let region = combine(&org, &loc);
        let o = Rec::new(&v[1], &v[2], &v[3], &v[4], &v[5], &v[6], &v[7], region, &v[8], &v[10]);
        let shortened_job = shorten(&v[13]);
        let shortened_posname = shorten(&v[22]);
        let shortened_ouname = shorten(&v[17]);
        let ghost m0 = self.texts@;
        self.put(Object::new(Kind::Area, o.division), Text::new(&v[13], &v[14]));
        self.put(Object::new(Kind::Unit, o.orgunit), Text::new(&v[17], &shortened_ouname));
        self.put(Object::new(Kind::Trap, o.job), Text::new(&v[13], &shortened_job));
        self.put(Object::new(Kind::Post, o.manager), Text::new(&v[23], &shortened_posname));
        self.put(Object::new(Kind::Body, o.employee), Text::new(&v[20], &v[21]));
        self.put(Object::new(Kind::Site, o.region), Text::new(&v[9], &v[11]));
        self.put(Object::new(Kind::Area, o.division), Text::new(&v[15], &v[16]));
        proof {
            assert(sv[9] == v@[9]@ && sv[11] == v@[11]@ && sv[16] == v@[16]@);
            assert(o == text_line_rec(st, sv));
            assert(self.texts@ == text_line_texts(m0, o, sv));
        }
        true
    }
}

/// The catalogue read from the lines of the organisation file (`None` for a
/// line that could not be read), or `None` when a row would stop the program.
pub fn try_init(lines: &Vec<Option<String>>) -> (r: Option<OrgText>)
    ensures
        r is Some <==> text_scan(line_views(lines@)) is Some,
        r matches Some(t) ==> t@ == text_scan(line_views(lines@))->0.texts,
{
    let ghost lv = line_views(lines@);
    let mut sc = TextScanner::new();
    let mut i: usize = 0;
    while i < lines.len()
        invariant
            i <= lines.len(),
            lv == line_views(lines@),
            text_scan(lv.take(i as int)) == Some(sc.state()),
        decreases lines.len() - i,
    {
        let ghost pre = lv.take(i as int);
        let ghost post = lv.take(i + 1);
        proof {
            assert(post.drop_last() =~= pre);
            assert(post.last() == lv[i as int]);
        }
        if i > 0 {
            match &lines[i] {
                None => {},
                Some(l) => {
                    let cs = chars_of(l.as_str());
                    let v = split_on_char(&cs, '\t');
                    if !sc.scan_row(&v) {
                        proof {
                            lemma_text_scan_stops(lv, i + 1);
                        }
                        return None;
                    }
                },
            }
        }
        i = i + 1;
    }
    proof {
        assert(lv.take(lines.len() as int) =~= lv);
    }
    Some(sc.texts)
}

/// The catalogue read from the lines of the organisation file (`None` for a
/// line that could not be read); the first line is a header.
pub fn init(lines: &Vec<Option<String>>) -> (r: OrgText)
    requires
        text_scan(line_views(lines@)) is Some,
    ensures
        r@ == text_scan(line_views(lines@))->0.texts,
{
    match try_init(lines) {
        Some(t) => t,
        None => OrgText { texts: BTreeMap::new() },
    }
}

/// The text of the object of kind `ty` and number `id`: the stored one, or an
/// empty name and description.
pub open spec fn text_of(m: Map<u64, TextView>, ty: Kind, id: u32) -> TextView {
    if m.contains_key(object_key(ty, id)) {
        m[object_key(ty, id)]
    } else {
        TextView { name: Seq::empty(), text: Seq::empty() }
    }
}

/// The text of the object of kind `ty` and number `id`.
pub fn get_text(texts: &OrgText, ty: Kind, id: &u32) -> (r: Text)
    ensures
        r@ == text_of(texts@, ty, *id),
{
    broadcast use vstd::std_specs::btree::group_btree_axioms;

    proof {
        lemma_u64_ordered();
    }
    let key = Object { ty: ty, id: *id }.key();
    match texts.texts.get(&key) {
        Some(rec) => Text { name: rec.name.clone(), text: rec.text.clone() },
        None => Text { name: String::new(), text: String::new() },
    }
}

/// Reading the organisation file numbers organisation keys one after the
/// other, from 1000.
pub proof fn lemma_text_orgkeys_fresh(lines: Seq<Option<Seq<char>>>)
    ensures
        text_scan(lines) matches Some(st) ==> fresh_codes(st.orgkeys, st.next_org),
    decreases lines.len(),
{
    if lines.len() > 1 {
        lemma_text_orgkeys_fresh(lines.drop_last());
        if let Some(st) = text_scan(lines.drop_last()) {
            if let Some(l) = lines.last() {
                let v = split_on(l, '\t');
                if text_line_ok(st, v) && text_org_new(st, v) {
                    lemma_fresh_push(st.orgkeys, st.next_org, v[9]);
                }
            }
        }
    }
}

/// After reading the organisation file, two different organisation keys have
/// different numbers.
pub proof fn lemma_text_orgkeys_distinct(lines: Seq<Option<Seq<char>>>, a: Seq<char>, b: Seq<char>)
    requires
        text_scan(lines) is Some,
        assoc_get(text_scan(lines)->0.orgkeys, a) is Some,
        assoc_get(text_scan(lines)->0.orgkeys, b) is Some,
        a != b,
    ensures
        assoc_get(text_scan(lines)->0.orgkeys, a) != assoc_get(text_scan(lines)->0.orgkeys, b),
{
    lemma_text_orgkeys_fresh(lines);
    let st = text_scan(lines)->0;
    lemma_fresh_distinct(st.orgkeys, st.next_org, a, b);
}

/// Reading the organisation file numbers locations one after the other, from 1000:
/// each new location gets a number larger than all before it.
pub proof fn lemma_text_locations_rising(lines: Seq<Option<Seq<char>>>)
    ensures
        text_scan(lines) matches Some(st) ==> rising_codes(st.locations, st.next_loc),
    decreases lines.len(),
{
    if lines.len() > 1 {
        lemma_text_locations_rising(lines.drop_last());
        if let Some(st) = text_scan(lines.drop_last()) {
            if let Some(l) = lines.last() {
                let v = split_on(l, '\t');
                if text_line_ok(st, v) && text_loc_new(st, v) {
                    lemma_rising_push(st.locations, st.next_loc, v[11]);
                }
            }
        }
    }
}

/// After reading the organisation file, two different locations have different
/// numbers, so rows of one organisation key at different locations get
/// different site codes.
pub proof fn lemma_text_locations_distinct(lines: Seq<Option<Seq<char>>>, a: Seq<char>, b: Seq<char>)
    requires
        text_scan(lines) is Some,
        assoc_get(text_scan(lines)->0.locations, a) is Some,
        assoc_get(text_scan(lines)->0.locations, b) is Some,
        a != b,
    ensures
        assoc_get(text_scan(lines)->0.locations, a) != assoc_get(text_scan(lines)->0.locations, b),
{
    lemma_text_locations_rising(lines);
    let st = text_scan(lines)->0;
    lemma_rising_distinct(st.locations, st.next_loc, a, b);
}

/// A name without `:` is its own short form.
pub proof fn lemma_shortened_plain(s: Seq<char>)
    requires
        !s.contains(':'),
    ensures
        shortened(s) == s,
{
    lemma_after_first_absent(s, ':');
}

/// The short form of a name whose first `:` is at index `i` is what follows
/// that `:`, with the white space at both ends removed.
pub proof fn lemma_shortened_cut(s: Seq<char>, i: int)
    requires
        0 <= i < s.len(),
        s[i] == ':',
        forall|j: int| 0 <= j < i ==> s[j] != ':',
    ensures
        shortened(s) == trim(s.skip(i + 1)),
{
    lemma_after_first_at(s, ':', i);
}

} // verus!
