//! The closed set of countries and jurisdictions a series can belong to.

use vstd::prelude::*;

verus! {

/// A country or jurisdiction, with a display name and a filesystem-safe name.
#[derive(Clone, Copy, Debug, Eq, Hash, PartialEq, Structural)]
pub enum Country {
    Australia,
    Austria,
    Belgium,
    Canada,
    Chile,
    CzechRepublic,
    Denmark,
    Estonia,
    Finland,
    France,
    Germany,
    Greece,
    Ireland,
    Israel,
    Italy,
    Japan,
    Latvia,
    Netherlands,
    NewZealand,
    Norway,
    Poland,
    Serbia,
    SouthKorea,
    Spain,
    Sweden,
    Switzerland,
    UnitedKingdom,
    UnitedStates,
}

impl Country {
    /// The display name of the country.
    pub open spec fn label_of(self) -> Seq<char> {
        match self {
            Country::Australia => "Australia"@,
            Country::Austria => "Austria"@,
            Country::Belgium => "Belgium"@,
            Country::Canada => "Canada"@,
            Country::Chile => "Chile"@,
            Country::CzechRepublic => "Czech Republic"@,
            Country::Denmark => "Denmark"@,
            Country::Estonia => "Estonia"@,
            Country::Finland => "Finland"@,
            Country::France => "France"@,
            Country::Germany => "Germany"@,
            Country::Greece => "Greece"@,
            Country::Ireland => "Ireland"@,
            Country::Israel => "Israel"@,
            Country::Italy => "Italy"@,
            Country::Japan => "Japan"@,
            Country::Latvia => "Latvia"@,
            Country::Netherlands => "Netherlands"@,
            Country::NewZealand => "New Zealand"@,
            Country::Norway => "Norway"@,
            Country::Poland => "Poland"@,
            Country::Serbia => "Serbia"@,
            Country::SouthKorea => "South Korea"@,
            Country::Spain => "Spain"@,
            Country::Sweden => "Sweden"@,
            Country::Switzerland => "Switzerland"@,
            Country::UnitedKingdom => "United Kingdom"@,
            Country::UnitedStates => "United States"@,
        }
    }

    /// The filesystem-safe name used as a directory segment.
    pub open spec fn filepath_of(self) -> Seq<char> {
        match self {
            Country::Australia => "australia"@,
            Country::Austria => "austria"@,
            Country::Belgium => "belgium"@,
            Country::Canada => "canada"@,
            Country::Chile => "chile"@,
            Country::CzechRepublic => "czech_republic"@,
            Country::Denmark => "denmark"@,
            Country::Estonia => "estonia"@,
            Country::Finland => "finland"@,
            Country::France => "france"@,
            Country::Germany => "germany"@,
            Country::Greece => "greece"@,
            Country::Ireland => "ireland"@,
            Country::Israel => "israel"@,
            Country::Italy => "italy"@,
            Country::Japan => "japan"@,
            Country::Latvia => "latvia"@,
            Country::Netherlands => "netherlands"@,
            Country::NewZealand => "new_zealand"@,
            Country::Norway => "norway"@,
            Country::Poland => "poland"@,
            Country::Serbia => "serbia"@,
            Country::SouthKorea => "south_korea"@,
            Country::Spain => "spain"@,
            Country::Sweden => "sweden"@,
            Country::Switzerland => "switzerland"@,
            Country::UnitedKingdom => "united_kingdom"@,
            Country::UnitedStates => "united_states"@,
        }
    }

    /// Position in the canonical order of countries.
    pub open spec fn rank_of(self) -> int {
        match self {
            Country::Australia => 0,
            Country::Austria => 1,
            Country::Belgium => 2,
            Country::Canada => 3,
            Country::Chile => 4,
            Country::CzechRepublic => 5,
            Country::Denmark => 6,
            Country::Estonia => 7,
            Country::Finland => 8,
            Country::France => 9,
            Country::Germany => 10,
            Country::Greece => 11,
            Country::Ireland => 12,
            Country::Israel => 13,
            Country::Italy => 14,
            Country::Japan => 15,
            Country::Latvia => 16,
            Country::Netherlands => 17,
            Country::NewZealand => 18,
            Country::Norway => 19,
            Country::Poland => 20,
            Country::Serbia => 21,
            Country::SouthKorea => 22,
            Country::Spain => 23,
            Country::Sweden => 24,
            Country::Switzerland => 25,
            Country::UnitedKingdom => 26,
            Country::UnitedStates => 27,
        }
    }

    /// The display name as a string slice.
    pub fn as_label(&self) -> (r: &'static str)
        ensures
            r@ == self.label_of(),
    {
        match self {
            Country::Australia => "Australia",
            Country::Austria => "Austria",
            Country::Belgium => "Belgium",
            Country::Canada => "Canada",
            Country::Chile => "Chile",
            Country::CzechRepublic => "Czech Republic",
            Country::Denmark => "Denmark",
            Country::Estonia => "Estonia",
            Country::Finland => "Finland",
            Country::France => "France",
            Country::Germany => "Germany",
            Country::Greece => "Greece",
            Country::Ireland => "Ireland",
            Country::Israel => "Israel",
            Country::Italy => "Italy",
            Country::Japan => "Japan",
            Country::Latvia => "Latvia",
            Country::Netherlands => "Netherlands",
            Country::NewZealand => "New Zealand",
            Country::Norway => "Norway",
            Country::Poland => "Poland",
            Country::Serbia => "Serbia",
            Country::SouthKorea => "South Korea",
            Country::Spain => "Spain",
            Country::Sweden => "Sweden",
            Country::Switzerland => "Switzerland",
            Country::UnitedKingdom => "United Kingdom",
            Country::UnitedStates => "United States",
        }
    }

    /// The display name as an owned string.
    pub fn label(&self) -> (r: String)
        ensures
            r@ == self.label_of(),
    {
        String::from_str(self.as_label())
    }

    /// The filesystem-safe name as a string slice.
    pub fn as_filepath(&self) -> (r: &'static str)
        ensures
            r@ == self.filepath_of(),
    {
        match self {
            Country::Australia => "australia",
            Country::Austria => "austria",
            Country::Belgium => "belgium",
            Country::Canada => "canada",
            Country::Chile => "chile",
            Country::CzechRepublic => "czech_republic",
            Country::Denmark => "denmark",
            Country::Estonia => "estonia",
            Country::Finland => "finland",
            Country::France => "france",
            Country::Germany => "germany",
            Country::Greece => "greece",
            Country::Ireland => "ireland",
            Country::Israel => "israel",
            Country::Italy => "italy",
            Country::Japan => "japan",
            Country::Latvia => "latvia",
            Country::Netherlands => "netherlands",
            Country::NewZealand => "new_zealand",
            Country::Norway => "norway",
            Country::Poland => "poland",
            Country::Serbia => "serbia",
            Country::SouthKorea => "south_korea",
            Country::Spain => "spain",
            Country::Sweden => "sweden",
            Country::Switzerland => "switzerland",
            Country::UnitedKingdom => "united_kingdom",
            Country::UnitedStates => "united_states",
        }
    }

    /// The country whose display name is `s`, if any.
    pub fn from_label(s: &str) -> (r: Option<Country>)
        ensures
            match r {
                Some(c) => s@ == c.label_of(),
                None => forall|c: Country| s@ != #[trigger] c.label_of(),
            },
    {
        if crate::text::str_eq(s, "Australia") {
            Some(Country::Australia)
        } else if crate::text::str_eq(s, "Austria") {
            Some(Country::Austria)
        } else if crate::text::str_eq(s, "Belgium") {
            Some(Country::Belgium)
        } else if crate::text::str_eq(s, "Canada") {
            Some(Country::Canada)
        } else if crate::text::str_eq(s, "Chile") {
            Some(Country::Chile)
        } else if crate::text::str_eq(s, "Czech Republic") {
            Some(Country::CzechRepublic)
        } else if crate::text::str_eq(s, "Denmark") {
            Some(Country::Denmark)
        } else if crate::text::str_eq(s, "Estonia") {
            Some(Country::Estonia)
        } else if crate::text::str_eq(s, "Finland") {
            Some(Country::Finland)
        } else if crate::text::str_eq(s, "France") {
            Some(Country::France)
        } else if crate::text::str_eq(s, "Germany") {
            Some(Country::Germany)
        } else if crate::text::str_eq(s, "Greece") {
            Some(Country::Greece)
        } else if crate::text::str_eq(s, "Ireland") {
            Some(Country::Ireland)
        } else if crate::text::str_eq(s, "Israel") {
            Some(Country::Israel)
        } else if crate::text::str_eq(s, "Italy") {
            Some(Country::Italy)
        } else if crate::text::str_eq(s, "Japan") {
            Some(Country::Japan)
        } else if crate::text::str_eq(s, "Latvia") {
            Some(Country::Latvia)
        } else if crate::text::str_eq(s, "Netherlands") {
            Some(Country::Netherlands)
        } else if crate::text::str_eq(s, "New Zealand") {
            Some(Country::NewZealand)
        } else if crate::text::str_eq(s, "Norway") {
            Some(Country::Norway)
        } else if crate::text::str_eq(s, "Poland") {
            Some(Country::Poland)
        } else if crate::text::str_eq(s, "Serbia") {
            Some(Country::Serbia)
        } else if crate::text::str_eq(s, "South Korea") {
            Some(Country::SouthKorea)
        } else if crate::text::str_eq(s, "Spain") {
            Some(Country::Spain)
        } else if crate::text::str_eq(s, "Sweden") {
            Some(Country::Sweden)
        } else if crate::text::str_eq(s, "Switzerland") {
            Some(Country::Switzerland)
        } else if crate::text::str_eq(s, "United Kingdom") {
            Some(Country::UnitedKingdom)
        } else if crate::text::str_eq(s, "United States") {
            Some(Country::UnitedStates)
        } else {
            None
        }
    }

    /// Executable form of `rank_of`.
    pub fn rank(&self) -> (r: u8)
        ensures
            r as int == self.rank_of(),
    {
        match self {
            Country::Australia => 0,
            Country::Austria => 1,
            Country::Belgium => 2,
            Country::Canada => 3,
            Country::Chile => 4,
            Country::CzechRepublic => 5,
            Country::Denmark => 6,
            Country::Estonia => 7,
            Country::Finland => 8,
            Country::France => 9,
            Country::Germany => 10,
            Country::Greece => 11,
            Country::Ireland => 12,
            Country::Israel => 13,
            Country::Italy => 14,
            Country::Japan => 15,
            Country::Latvia => 16,
            Country::Netherlands => 17,
            Country::NewZealand => 18,
            Country::Norway => 19,
            Country::Poland => 20,
            Country::Serbia => 21,
            Country::SouthKorea => 22,
            Country::Spain => 23,
            Country::Sweden => 24,
            Country::Switzerland => 25,
            Country::UnitedKingdom => 26,
            Country::UnitedStates => 27,
        }
    }
}

} // verus!
