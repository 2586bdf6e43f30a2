//! Turning a filter specification into a set of declared series.
//!
//! The upstream provider is a network collaborator: the caller fetches the
//! candidate series for a tag and hands each candidate's title here. The
//! decisions — which tag to ask for, which candidates to keep — are plain
//! functions and are verified.

use vstd::prelude::*;
use crate::countries::Country;
use crate::filter_spec::{strings_view, TagSelector};
use crate::text::{has_substring, str_contains, str_eq, str_trim, trim_of};

verus! {

/// The countries with reliable upstream data.
pub fn countries_with_data() -> (r: Vec<Country>)
    ensures
        r@ == seq![
            Country::Australia,
            Country::Austria,
            Country::Belgium,
            Country::Canada,
            Country::Chile,
            Country::CzechRepublic,
            Country::Denmark,
            Country::Estonia,
            Country::Finland,
            Country::France,
            Country::Germany,
            Country::Greece,
            Country::Ireland,
            Country::Israel,
            Country::Italy,
            Country::Japan,
            Country::Latvia,
            Country::Netherlands,
            Country::NewZealand,
            Country::Norway,
            Country::Poland,
            Country::Serbia,
            Country::SouthKorea,
            Country::Spain,
            Country::Sweden,
            Country::Switzerland,
            Country::UnitedKingdom,
            Country::UnitedStates,
        ],
{
    let r: Vec<Country> = vec![
        Country::Australia,
        Country::Austria,
        Country::Belgium,
        Country::Canada,
        Country::Chile,
        Country::CzechRepublic,
        Country::Denmark,
        Country::Estonia,
        Country::Finland,
        Country::France,
        Country::Germany,
        Country::Greece,
        Country::Ireland,
        Country::Israel,
        Country::Italy,
        Country::Japan,
        Country::Latvia,
        Country::Netherlands,
        Country::NewZealand,
        Country::Norway,
        Country::Poland,
        Country::Serbia,
        Country::SouthKorea,
        Country::Spain,
        Country::Sweden,
        Country::Switzerland,
        Country::UnitedKingdom,
        Country::UnitedStates,
    ];
    proof {
        assert(r@ =~= seq![
            Country::Australia,
            Country::Austria,
            Country::Belgium,
            Country::Canada,
            Country::Chile,
            Country::CzechRepublic,
            Country::Denmark,
            Country::Estonia,
            Country::Finland,
            Country::France,
            Country::Germany,
            Country::Greece,
            Country::Ireland,
            Country::Israel,
            Country::Italy,
            Country::Japan,
            Country::Latvia,
            Country::Netherlands,
            Country::NewZealand,
            Country::Norway,
            Country::Poland,
            Country::Serbia,
            Country::SouthKorea,
            Country::Spain,
            Country::Sweden,
            Country::Switzerland,
            Country::UnitedKingdom,
            Country::UnitedStates,
        ]);
    }
    r
}

/// The name the upstream provider uses for a country in tag queries: the
/// lower-cased display name, with a few historical exceptions.
pub open spec fn fred_name_of(country: Country) -> Seq<char> {
    match country {
        Country::SouthKorea => "korea"@,
        Country::UnitedStates => "usa"@,
        Country::Australia => "australia"@,
        Country::Austria => "austria"@,
        Country::Belgium => "belgium"@,
        Country::Canada => "canada"@,
        Country::Chile => "chile"@,
        Country::CzechRepublic => "czech republic"@,
        Country::Denmark => "denmark"@,
        Country::Estonia => "estonia"@,
        Country::Finland => "finland"@,
        Country::France => "france"@,
        Country::Germany => "germany"@,
        Country::Greece => "greece"@,
        Country::Ireland => "ireland"@,
        Country::Israel => "israel"@,
        Country::Italy => "italy"@,
        Country::Japan => "japan"@,
        Country::Latvia => "latvia"@,
        Country::Netherlands => "netherlands"@,
        Country::NewZealand => "new zealand"@,
        Country::Norway => "norway"@,
        Country::Poland => "poland"@,
        Country::Serbia => "serbia"@,
        Country::Spain => "spain"@,
        Country::Sweden => "sweden"@,
        Country::Switzerland => "switzerland"@,
        Country::UnitedKingdom => "united kingdom"@,
    }
}

/// The country name to use in an upstream tag query.
pub fn fred_country(country: Country) -> (r: String)
    ensures
        r@ == fred_name_of(country),
{
    let label: &str = match country {
        Country::SouthKorea => "korea",
        Country::UnitedStates => "usa",
        Country::Australia => "australia",
        Country::Austria => "austria",
        Country::Belgium => "belgium",
        Country::Canada => "canada",
        Country::Chile => "chile",
        Country::CzechRepublic => "czech republic",
        Country::Denmark => "denmark",
        Country::Estonia => "estonia",
        Country::Finland => "finland",
        Country::France => "france",
        Country::Germany => "germany",
        Country::Greece => "greece",
        Country::Ireland => "ireland",
        Country::Israel => "israel",
        Country::Italy => "italy",
        Country::Japan => "japan",
        Country::Latvia => "latvia",
        Country::Netherlands => "netherlands",
        Country::NewZealand => "new zealand",
        Country::Norway => "norway",
        Country::Poland => "poland",
        Country::Serbia => "serbia",
        Country::Spain => "spain",
        Country::Sweden => "sweden",
        Country::Switzerland => "switzerland",
        Country::UnitedKingdom => "united kingdom",
    };
    String::from_str(label)
}

/// The compiled tag query: every tag of the selector, trimmed, each followed
/// by `;`, then the provider's country name.
pub open spec fn tags_part(tags: Seq<Seq<char>>) -> Seq<char>
    decreases tags.len(),
{
    if tags.len() == 0 {
        Seq::empty()
    } else {
        tags_part(tags.drop_last()) + trim_of(tags.last()) + seq![';']
    }
}

/// The full tag query of a selector.
pub open spec fn tag_of(tags: Seq<Seq<char>>, country: Country) -> Seq<char> {
    tags_part(tags) + fred_name_of(country)
}

/// The upstream tag query for a selector, built outside the provider client
/// so that the client can stay generic over plain strings.
pub fn tag(tag_selector: &TagSelector) -> (r: String)
    ensures
        r@ == tag_of(strings_view(tag_selector.tags@), tag_selector.country),
{
    let ghost tv = strings_view(tag_selector.tags@);
    let mut s = String::new();
    let mut i: usize = 0;
    proof {
        assert(tv.take(0) =~= Seq::<Seq<char>>::empty());
        assert(s@ =~= tags_part(tv.take(0)));
    }
    while i < tag_selector.tags.len()
        invariant
            i <= tag_selector.tags@.len(),
            tv == strings_view(tag_selector.tags@),
            s@ == tags_part(tv.take(i as int)),
        decreases tag_selector.tags@.len() - i,
    {
        let t = str_trim(tag_selector.tags[i].as_str());
        s.append(t.as_str());
        s.append(";");
        proof {
            reveal_strlit(";");
            assert(";"@ =~= seq![';']);
            assert(tv.take(i + 1).drop_last() =~= tv.take(i as int));
            assert(tv.take(i + 1).last() == tv[i as int]);
            assert(tv[i as int] == tag_selector.tags@[i as int]@);
        }
        i = i + 1;
    }
    proof {
        assert(tv.take(tv.len() as int) =~= tv);
    }
    let c = fred_country(tag_selector.country);
    s.append(c.as_str());
    s
}

/// Some string of `v` equals `t`.
pub open spec fn any_equals(v: Seq<Seq<char>>, t: Seq<char>) -> bool {
    exists|i: int| 0 <= i < v.len() && #[trigger] v[i] == t
}

/// Some string of `v` occurs inside `t`.
pub open spec fn any_inside(v: Seq<Seq<char>>, t: Seq<char>) -> bool {
    exists|i: int| 0 <= i < v.len() && has_substring(t, #[trigger] v[i])
}

/// Every string of `v` occurs inside `t`.
pub open spec fn all_inside(v: Seq<Seq<char>>, t: Seq<char>) -> bool {
    forall|i: int| 0 <= i < v.len() ==> has_substring(t, #[trigger] v[i])
}

/// Whether a candidate series with the given title passes the selector: the
/// enumeration, when present, must name the title exactly; no excluded word
/// may occur in the title; every required word must.
pub open spec fn selected_spec(
    enumerate: Seq<Seq<char>>,
    exclude: Seq<Seq<char>>,
    require: Seq<Seq<char>>,
    title: Seq<char>,
) -> bool {
    &&& (enumerate.len() > 0 ==> any_equals(enumerate, title))
    &&& (exclude.len() > 0 ==> !any_inside(exclude, title))
    &&& (require.len() > 0 ==> all_inside(require, title))
}

/// Some string of `v` equals `t`.
fn vec_any_equals(v: &Vec<String>, t: &str) -> (r: bool)
    ensures
        r == any_equals(strings_view(v@), t@),
{
    let ghost vv = strings_view(v@);
    let mut i: usize = 0;
    while i < v.len()
        invariant
            i <= v@.len(),
            vv == strings_view(v@),
            forall|j: int| 0 <= j < i ==> #[trigger] vv[j] != t@,
        decreases v@.len() - i,
    {
        proof {
            assert(vv[i as int] == v@[i as int]@);
        }
        if str_eq(v[i].as_str(), t) {
            return true;
        }
        i = i + 1;
    }
    proof {
        if any_equals(vv, t@) {
            let j = choose|j: int| 0 <= j < vv.len() && #[trigger] vv[j] == t@;
            assert(vv[j] != t@);
        }
    }
    false
}

/// Some string of `v` occurs inside `t`.
fn vec_any_inside(v: &Vec<String>, t: &str) -> (r: bool)
    ensures
        r == any_inside(strings_view(v@), t@),
{
    let ghost vv = strings_view(v@);
    let mut i: usize = 0;
    while i < v.len()
        invariant
            i <= v@.len(),
            vv == strings_view(v@),
            forall|j: int| 0 <= j < i ==> !has_substring(t@, #[trigger] vv[j]),
        decreases v@.len() - i,
    {
        proof {
            assert(vv[i as int] == v@[i as int]@);
        }
        if str_contains(t, v[i].as_str()) {
            return true;
        }
        i = i + 1;
    }
    proof {
        if any_inside(vv, t@) {
            let j = choose|j: int| 0 <= j < vv.len() && has_substring(t@, #[trigger] vv[j]);
            assert(!has_substring(t@, vv[j]));
        }
    }
    false
}

/// Every string of `v` occurs inside `t`.
fn vec_all_inside(v: &Vec<String>, t: &str) -> (r: bool)
    ensures
        r == all_inside(strings_view(v@), t@),
{
    let ghost vv = strings_view(v@);
    let mut i: usize = 0;
    while i < v.len()
        invariant
            i <= v@.len(),
            vv == strings_view(v@),
            forall|j: int| 0 <= j < i ==> has_substring(t@, #[trigger] vv[j]),
        decreases v@.len() - i,
    {
        proof {
            assert(vv[i as int] == v@[i as int]@);
        }
        if !str_contains(t, v[i].as_str()) {
            return false;
        }
        i = i + 1;
    }
    true
}

/// Whether a candidate with the given title passes the selector. The caller
/// fetches the candidates from the provider and hands each title here.
pub fn is_selected(tag_selector: &TagSelector, title: &str) -> (r: bool)
    ensures
        r == selected_spec(
            strings_view(tag_selector.enumerate@),
            strings_view(tag_selector.exclude@),
            strings_view(tag_selector.require@),
            title@,
        ),
{
    if tag_selector.enumerate.len() > 0 && !vec_any_equals(&tag_selector.enumerate, title) {
        return false;
    }
    if tag_selector.exclude.len() > 0 && vec_any_inside(&tag_selector.exclude, title) {
        return false;
    }
    if tag_selector.require.len() > 0 && !vec_all_inside(&tag_selector.require, title) {
        return false;
    }
    true
}

} // verus!
