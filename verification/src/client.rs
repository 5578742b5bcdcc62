//! The client's reading of the link and kind numbers in the service's replies,
//! and the words it shows for them.
use vstd::prelude::*;

verus! {

/// A link as the client reads it; numbers it does not know read as `Other`.
#[derive(Clone, Copy, Debug, PartialEq, Eq, Structural, PartialOrd, Ord)]
pub enum Link {
    Boss,
    Home,
    Head,
    Tail,
    Other,
}

/// A kind of object as the client reads it.
#[derive(Clone, Copy, Debug, PartialEq, Eq, Structural, PartialOrd, Ord)]
pub enum Kind {
    Area,
    Site,
    Unit,
    Trap,
    Post,
    Body,
    Face,
    Crew,
    Oops,
}

/// The link that the client reads for number `i`.
pub open spec fn link_from_spec(i: u8) -> Link {
    if i == 0 {
        Link::Boss
    } else if i == 1 {
        Link::Home
    } else if i == 2 {
        Link::Head
    } else if i == 3 {
        Link::Tail
    } else {
        Link::Other
    }
}

/// The kind that the client reads for number `i`.
pub open spec fn kind_from_spec(i: u8) -> Kind {
    if i == 0 {
        Kind::Post
    } else if i == 1 {
        Kind::Area
    } else if i == 2 {
        Kind::Site
    } else if i == 3 {
        Kind::Unit
    } else if i == 4 {
        Kind::Trap
    } else if i == 5 {
        Kind::Body
    } else if i == 6 {
        Kind::Crew
    } else if i == 7 {
        Kind::Face
    } else {
        Kind::Oops
    }
}

impl Link {
    /// The link that number `i` stands for.
    pub fn from(i: u8) -> (r: Link)
        ensures
            r == link_from_spec(i),
    {
        match i {
            0 => Link::Boss,
            1 => Link::Home,
            2 => Link::Head,
            3 => Link::Tail,
            _ => Link::Other,
        }
    }

    /// The word shown for the link; `Other` has none.
    pub fn name(&self) -> (r: &'static str)
        requires
            *self != Link::Other,
        ensures
            *self == Link::Boss ==> r@ == "Boss"@,
            *self == Link::Home ==> r@ == "Home"@,
            *self == Link::Head ==> r@ == "Head"@,
            *self == Link::Tail ==> r@ == "Tail"@,
    {
        match self {
            Link::Boss => "Boss",
            Link::Home => "Home",
            Link::Head => "Head",
            Link::Tail => "Tail",
            Link::Other => "",
        }
    }
}

impl Kind {
    /// The kind that number `i` stands for.
    pub fn from(i: u8) -> (r: Kind)
        ensures
            r == kind_from_spec(i),
    {
        match i {
            0 => Kind::Post,
            1 => Kind::Area,
            2 => Kind::Site,
            3 => Kind::Unit,
            4 => Kind::Trap,
            5 => Kind::Body,
            6 => Kind::Crew,
            7 => Kind::Face,
            _ => Kind::Oops,
        }
    }

    /// The word shown for the kind: its name.
    pub fn name(&self) -> (r: &'static str)
        ensures
            *self == Kind::Area ==> r@ == "Area"@,
            *self == Kind::Site ==> r@ == "Site"@,
            *self == Kind::Unit ==> r@ == "Unit"@,
            *self == Kind::Trap ==> r@ == "Trap"@,
            *self == Kind::Post ==> r@ == "Post"@,
            *self == Kind::Body ==> r@ == "Body"@,
            *self == Kind::Face ==> r@ == "Face"@,
            *self == Kind::Crew ==> r@ == "Crew"@,
            *self == Kind::Oops ==> r@ == "Oops"@,
    {
        match self {
            Kind::Area => "Area",
            Kind::Site => "Site",
            Kind::Unit => "Unit",
            Kind::Trap => "Trap",
            Kind::Post => "Post",
            Kind::Body => "Body",
            Kind::Face => "Face",
            Kind::Crew => "Crew",
            Kind::Oops => "Oops",
        }
    }
}

impl Default for Kind {
    fn default() -> (k: Kind)
        ensures
            k == Kind::Face,
    {
        Kind::Face
    }
}

/// The client's reading of a link of the mesh.
pub open spec fn client_link(l: crate::df::Link) -> Link {
    match l {
        crate::df::Link::Boss => Link::Boss,
        crate::df::Link::Home => Link::Home,
        crate::df::Link::Head => Link::Head,
        crate::df::Link::Tail => Link::Tail,
    }
}

/// The link number that the service sends is read back by the client as the
/// same link.
pub proof fn lemma_link_numbers_agree(l: crate::df::Link)
    ensures
        link_from_spec(crate::df::link_code(l) as u8) == client_link(l),
{
}

} // verus!
