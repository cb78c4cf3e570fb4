use vstd::prelude::*;

use crate::text::text_equals;

verus! {

/// The field a collection is ordered by.
#[derive(Debug, Clone, Copy, PartialEq, Eq, Structural)]
pub enum SortBy {
    Name,
    Population,
    Area,
}

/// The six regions a country can belong to.
#[derive(Debug, Clone, Copy, PartialEq, Eq, Hash, Structural)]
pub enum Region {
    Americas,
    Antarctic,
    Africa,
    Asia,
    Europe,
    Oceania,
}

/// A boolean status a country may be required to have.
#[derive(Debug, Clone, Copy, PartialEq, Eq, Hash, Structural)]
pub enum Status {
    UN,
    Independent,
}

/// Which statuses a record must have to be shown.
#[derive(Debug, Clone, Copy, PartialEq, Eq, Structural)]
pub struct StatusFlags {
    pub independent: bool,
    pub un_member: bool,
}

/// One predicate over records; a list of them is combined with logical AND.
#[derive(Debug, Clone, PartialEq)]
pub enum FilterQuery {
    /// Case-insensitive containment in the common name, region or sub-region.
    Text(String),
    /// Membership in a set of regions; an empty set admits every record.
    Region(Vec<Region>),
    /// Required statuses.
    Status(StatusFlags),
}

impl SortBy {
    pub open spec fn name_spec(self) -> Seq<char> {
        match self {
            SortBy::Name => "Name"@,
            SortBy::Population => "Population"@,
            SortBy::Area => "Area"@,
        }
    }

    /// The display name of the sort key.
    pub fn name(&self) -> (r: &'static str)
        ensures
            r@ == self.name_spec(),
    {
        match self {
            SortBy::Name => "Name",
            SortBy::Population => "Population",
            SortBy::Area => "Area",
        }
    }

    /// All sort keys, in display order.
    pub fn all() -> (r: Vec<SortBy>)
        ensures
            r@ == seq![SortBy::Name, SortBy::Population, SortBy::Area],
    {
        vec![SortBy::Name, SortBy::Population, SortBy::Area]
    }

    /// The sort key whose display name is `s`, if any.
    pub fn from_name(s: &str) -> (r: Option<SortBy>)
        ensures
            r matches Some(k) ==> k.name_spec() == s@,
            forall|k: SortBy| (r == Some(k)) == (k.name_spec() == s@),
            r is None ==> forall|k: SortBy| k.name_spec() != s@,
    {
        proof {
            reveal_strlit("Name");
            reveal_strlit("Population");
            reveal_strlit("Area");
            assert("Name"@[0] != "Area"@[0]);
        }
        if text_equals(s, "Name") {
            Some(SortBy::Name)
        } else if text_equals(s, "Population") {
            Some(SortBy::Population)
        } else if text_equals(s, "Area") {
            Some(SortBy::Area)
        } else {
            None
        }
    }
}

impl Region {
    pub open spec fn name_spec(self) -> Seq<char> {
        match self {
            Region::Americas => "Americas"@,
            Region::Antarctic => "Antarctic"@,
            Region::Africa => "Africa"@,
            Region::Asia => "Asia"@,
            Region::Europe => "Europe"@,
            Region::Oceania => "Oceania"@,
        }
    }

    /// The display name of the region.
    pub fn name(&self) -> (r: &'static str)
        ensures
            r@ == self.name_spec(),
    {
        match self {
            Region::Americas => "Americas",
            Region::Antarctic => "Antarctic",
            Region::Africa => "Africa",
            Region::Asia => "Asia",
            Region::Europe => "Europe",
            Region::Oceania => "Oceania",
        }
    }

    /// All regions, in display order.
    pub fn all() -> (r: Vec<Region>)
        ensures
            r@ == seq![
                Region::Americas,
                Region::Antarctic,
                Region::Africa,
                Region::Asia,
                Region::Europe,
                Region::Oceania,
            ],
    {
        vec![
            Region::Americas,
            Region::Antarctic,
            Region::Africa,
            Region::Asia,
            Region::Europe,
            Region::Oceania,
        ]
    }

    /// The region whose display name is exactly `s`, if any.
    pub fn from_name(s: &str) -> (r: Option<Region>)
        ensures
            r matches Some(g) ==> g.name_spec() == s@,
            forall|g: Region| (r == Some(g)) == (g.name_spec() == s@),
            r is None ==> forall|g: Region| g.name_spec() != s@,
    {
        proof {
            reveal_strlit("Americas");
            reveal_strlit("Antarctic");
            reveal_strlit("Africa");
            reveal_strlit("Asia");
            reveal_strlit("Europe");
            reveal_strlit("Oceania");
        }
        let r = if text_equals(s, "Americas") {
            Some(Region::Americas)
        } else if text_equals(s, "Antarctic") {
            Some(Region::Antarctic)
        } else if text_equals(s, "Africa") {
            Some(Region::Africa)
        } else if text_equals(s, "Asia") {
            Some(Region::Asia)
        } else if text_equals(s, "Europe") {
            Some(Region::Europe)
        } else if text_equals(s, "Oceania") {
            Some(Region::Oceania)
        } else {
            None
        };
        proof {
            if let Some(x) = r {
                assert forall|g: Region| g.name_spec() == s@ implies g == x by {
                    lemma_region_name_injective(g, x);
                }
            }
        }
        r
    }
}

proof fn lemma_region_name_injective(g: Region, h: Region)
    requires
        g.name_spec() == h.name_spec(),
    ensures
        g == h,
{
    reveal_strlit("Americas");
    reveal_strlit("Antarctic");
    reveal_strlit("Africa");
    reveal_strlit("Asia");
    reveal_strlit("Europe");
    reveal_strlit("Oceania");
    assert("Americas"@.len() == 8);
    assert("Antarctic"@.len() == 9);
    assert("Africa"@.len() == 6 && "Africa"@[0] == 'A');
    assert("Asia"@.len() == 4);
    assert("Europe"@.len() == 6 && "Europe"@[0] == 'E');
    assert("Oceania"@.len() == 7);
    if g != h {
        assert(g.name_spec().len() != h.name_spec().len() || g.name_spec()[0] != h.name_spec()[0]);
    }
}

impl Status {
    pub open spec fn label_spec(self) -> Seq<char> {
        match self {
            Status::UN => "Member of the United Nations"@,
            Status::Independent => "Independent"@,
        }
    }

    /// The display label of the status.
    pub fn label(&self) -> (r: &'static str)
        ensures
            r@ == self.label_spec(),
    {
        match self {
            Status::UN => "Member of the United Nations",
            Status::Independent => "Independent",
        }
    }

    /// All statuses, in display order.
    pub fn all() -> (r: Vec<Status>)
        ensures
            r@ == seq![Status::UN, Status::Independent],
    {
        vec![Status::UN, Status::Independent]
    }
}

impl StatusFlags {
    pub open spec fn none_spec() -> StatusFlags {
        StatusFlags { independent: false, un_member: false }
    }

    /// No status required.
    pub fn none() -> (r: StatusFlags)
        ensures
            r == Self::none_spec(),
    {
        StatusFlags { independent: false, un_member: false }
    }

    /// Whether the status `s` is required.
    pub fn get(&self, s: Status) -> (r: bool)
        ensures
            r == self.get_spec(s),
    {
        match s {
            Status::Independent => self.independent,
            Status::UN => self.un_member,
        }
    }

    pub open spec fn get_spec(self, s: Status) -> bool {
        match s {
            Status::Independent => self.independent,
            Status::UN => self.un_member,
        }
    }

    /// These flags with the requirement for `s` set to `value`.
    pub fn with(self, s: Status, value: bool) -> (r: StatusFlags)
        ensures
            r.get_spec(s) == value,
            forall|t: Status| t != s ==> r.get_spec(t) == self.get_spec(t),
    {
        match s {
            Status::Independent => StatusFlags { independent: value, ..self },
            Status::UN => StatusFlags { un_member: value, ..self },
        }
    }
}

} // verus!
