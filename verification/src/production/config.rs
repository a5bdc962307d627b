//! Project-wide configuration that the library's logic reads: the city
//! table of the daily run and the standard paths.
//!
//! The city list and the climate-zone labels must match the training
//! notebooks exactly, because the climate-zone one-hot features are part
//! of the trained Ridge model.

pub mod paths;

use vstd::prelude::*;
use crate::production::pipeline::climate_zones;
use crate::data::schema::all_cities_table;

verus! {

broadcast use vstd::string::group_string_axioms;

/// A city with the metadata required to query the Open-Meteo API and to
/// reproduce the climate-zone one-hot features.  Coordinates are in
/// hundredths of a degree, the elevation in metres.
pub struct CitySpec {
    pub name: String,
    pub country: String,
    pub country_code: String,
    pub latitude_centideg: i32,
    pub longitude_centideg: i32,
    pub elevation_m: i32,
    pub timezone: String,
    /// Köppen first letter + subtype (e.g. "Cfa", "BWh").
    pub climate_zone: &'static str,
    /// Flag emoji used in the README table.
    pub flag: &'static str,
}

impl View for CitySpec {
    type V = (Seq<char>, Seq<char>, Seq<char>, int, int, int, Seq<char>, Seq<char>, Seq<char>);

    /// The fields of the city, texts as character sequences.
    open spec fn view(&self) -> (Seq<char>, Seq<char>, Seq<char>, int, int, int, Seq<char>, Seq<char>, Seq<char>) {
        (
            self.name@,
            self.country@,
            self.country_code@,
            self.latitude_centideg as int,
            self.longitude_centideg as int,
            self.elevation_m as int,
            self.timezone@,
            self.climate_zone@,
            self.flag@,
        )
    }
}

/// The city table of the daily run, in README order: name, country,
/// country code, latitude and longitude in hundredths of a degree,
/// elevation in metres, time zone, climate zone and flag.
pub open spec fn city_table() -> Seq<(Seq<char>, Seq<char>, Seq<char>, int, int, int, Seq<char>, Seq<char>, Seq<char>)> {
    seq![
        ("Sao Paulo"@, "Brazil"@, "BR"@, -2355, -4663, 760, "America/Sao_Paulo"@, "Cfa"@, "🇧🇷"@),
        ("Rio de Janeiro"@, "Brazil"@, "BR"@, -2291, -4317, 5, "America/Sao_Paulo"@, "Aw"@, "🇧🇷"@),
        ("Sao Jose dos Campos"@, "Brazil"@, "BR"@, -2318, -4588, 600, "America/Sao_Paulo"@, "Cfa"@, "🇧🇷"@),
        ("Campinas"@, "Brazil"@, "BR"@, -2291, -4706, 680, "America/Sao_Paulo"@, "Cfa"@, "🇧🇷"@),
        ("New York"@, "USA"@, "US"@, 4071, -7401, 10, "America/New_York"@, "Dfa"@, "🇺🇸"@),
        ("Los Angeles"@, "USA"@, "US"@, 3405, -11824, 89, "America/Los_Angeles"@, "Csb"@, "🇺🇸"@),
        ("London"@, "United Kingdom"@, "GB"@, 5151, -13, 35, "Europe/London"@, "Cfb"@, "🇬🇧"@),
        ("Berlin"@, "Germany"@, "DE"@, 5252, 1340, 34, "Europe/Berlin"@, "Cfb"@, "🇩🇪"@),
        ("Oslo"@, "Norway"@, "NO"@, 5991, 1075, 23, "Europe/Oslo"@, "Dfb"@, "🇳🇴"@),
        ("Tokyo"@, "Japan"@, "JP"@, 3568, 13969, 40, "Asia/Tokyo"@, "Cfa"@, "🇯🇵"@),
        ("Shanghai"@, "China"@, "CN"@, 3123, 12147, 4, "Asia/Shanghai"@, "Cfa"@, "🇨🇳"@),
        ("Chongqing"@, "China"@, "CN"@, 2956, 10655, 244, "Asia/Shanghai"@, "Cwa"@, "🇨🇳"@),
        ("Nanjing"@, "China"@, "CN"@, 3206, 11880, 20, "Asia/Shanghai"@, "Cfa"@, "🇨🇳"@),
        ("Dubai"@, "UAE"@, "AE"@, 2527, 5530, 5, "Asia/Dubai"@, "BWh"@, "🇦🇪"@)
    ]
}

/// The names of the fourteen cities, in README order.
pub open spec fn city_names() -> Seq<Seq<char>> {
    seq!["Sao Paulo"@, "Rio de Janeiro"@, "Sao Jose dos Campos"@, "Campinas"@, "New York"@, "Los Angeles"@, "London"@, "Berlin"@, "Oslo"@, "Tokyo"@, "Shanghai"@, "Chongqing"@, "Nanjing"@, "Dubai"@]
}

/// The climate zone of each city, in the order of `city_names`.
pub open spec fn city_zones() -> Seq<Seq<char>> {
    seq!["Cfa"@, "Aw"@, "Cfa"@, "Cfa"@, "Dfa"@, "Csb"@, "Cfb"@, "Cfb"@, "Dfb"@, "Cfa"@, "Cfa"@, "Cwa"@, "Cfa"@, "BWh"@]
}

fn city(
    name: &str,
    country: &str,
    country_code: &str,
    latitude_centideg: i32,
    longitude_centideg: i32,
    elevation_m: i32,
    timezone: &str,
    climate_zone: &'static str,
    flag: &'static str,
) -> (c: CitySpec)
    ensures
        c.name@ == name@,
        c.country@ == country@,
        c.country_code@ == country_code@,
        c.latitude_centideg == latitude_centideg,
        c.longitude_centideg == longitude_centideg,
        c.elevation_m == elevation_m,
        c.timezone@ == timezone@,
        c.climate_zone@ == climate_zone@,
        c.flag@ == flag@,
{
    CitySpec {
        name: name.to_string(),
        country: country.to_string(),
        country_code: country_code.to_string(),
        latitude_centideg,
        longitude_centideg,
        elevation_m,
        timezone: timezone.to_string(),
        climate_zone,
        flag,
    }
}

/// The city names are pairwise distinct.
pub proof fn lemma_city_names_distinct()
    ensures
        forall|i: int, j: int|
            0 <= i < j < 14 ==> #[trigger] city_names()[i] != #[trigger] city_names()[j],
{
    reveal_strlit("Sao Paulo");
    reveal_strlit("Rio de Janeiro");
    reveal_strlit("Sao Jose dos Campos");
    reveal_strlit("Campinas");
    reveal_strlit("New York");
    reveal_strlit("Los Angeles");
    reveal_strlit("London");
    reveal_strlit("Berlin");
    reveal_strlit("Oslo");
    reveal_strlit("Tokyo");
    reveal_strlit("Shanghai");
    reveal_strlit("Chongqing");
    reveal_strlit("Nanjing");
    reveal_strlit("Dubai");
    let n = city_names();
    assert forall|i: int, j: int| 0 <= i < j < 14 implies #[trigger] n[i] != #[trigger] n[j] by {
        if n[i].len() == n[j].len() {
            assert(n[i][0] != n[j][0]);
        }
    }
}

/// Every city's zone is one of the zones of the one-hot features.
pub proof fn lemma_city_zones_known()
    ensures
        forall|i: int| 0 <= i < 14 ==> climate_zones().contains(#[trigger] city_zones()[i]),
{
    assert(climate_zones()[2] == city_zones()[0]);
    assert(climate_zones()[0] == city_zones()[1]);
    assert(climate_zones()[2] == city_zones()[2]);
    assert(climate_zones()[2] == city_zones()[3]);
    assert(climate_zones()[6] == city_zones()[4]);
    assert(climate_zones()[4] == city_zones()[5]);
    assert(climate_zones()[3] == city_zones()[6]);
    assert(climate_zones()[3] == city_zones()[7]);
    assert(climate_zones()[7] == city_zones()[8]);
    assert(climate_zones()[2] == city_zones()[9]);
    assert(climate_zones()[2] == city_zones()[10]);
    assert(climate_zones()[5] == city_zones()[11]);
    assert(climate_zones()[2] == city_zones()[12]);
    assert(climate_zones()[1] == city_zones()[13]);
}

/// Every zone of the one-hot features is the zone of some city.
pub proof fn lemma_city_zones_cover()
    ensures
        forall|j: int|
            #![trigger climate_zones()[j]]
            0 <= j < climate_zones().len() ==> exists|i: int|
                0 <= i < 14 && #[trigger] city_zones()[i] == climate_zones()[j],
{
    assert(city_zones()[1] == climate_zones()[0]);
    assert(city_zones()[13] == climate_zones()[1]);
    assert(city_zones()[0] == climate_zones()[2]);
    assert(city_zones()[6] == climate_zones()[3]);
    assert(city_zones()[5] == climate_zones()[4]);
    assert(city_zones()[11] == climate_zones()[5]);
    assert(city_zones()[4] == climate_zones()[6]);
    assert(city_zones()[8] == climate_zones()[7]);
}

/// The city table of the daily run and the city list of the notebooks
/// hold the same cities in the same order: each city has the same
/// country, country code, coordinates and time zone in both.
pub proof fn lemma_city_tables_agree()
    ensures
        city_table().len() == all_cities_table().len(),
        forall|i: int|
            0 <= i < city_table().len() ==> {
                &&& (#[trigger] city_table()[i]).1 == all_cities_table()[i].1
                &&& city_table()[i].2 == all_cities_table()[i].2
                &&& city_table()[i].3 == all_cities_table()[i].3
                &&& city_table()[i].4 == all_cities_table()[i].4
                &&& city_table()[i].6 == all_cities_table()[i].5
            },
{
}

/// The fourteen cities, in the order they appear in the README (the
/// order is display-only; the model does not depend on it).
pub fn cities() -> (r: Vec<CitySpec>)
    ensures
        r@.len() == 14,
        r@.map_values(|c: CitySpec| c@) == city_table(),
        r@.map_values(|c: CitySpec| c.name@) == city_names(),
        r@.map_values(|c: CitySpec| c.climate_zone@) == city_zones(),
        forall|i: int| 0 <= i < 14 ==> climate_zones().contains(#[trigger] r@[i].climate_zone@),
        forall|i: int, j: int| 0 <= i < j < 14 ==> #[trigger] r@[i].name@ != #[trigger] r@[j].name@,
        forall|z: Seq<char>|
            climate_zones().contains(z) ==> exists|i: int| 0 <= i < 14 && #[trigger] r@[i].climate_zone@ == z,
{
    let r = vec![
        city("Sao Paulo", "Brazil", "BR", -2355, -4663, 760, "America/Sao_Paulo", "Cfa", "🇧🇷"),
        city("Rio de Janeiro", "Brazil", "BR", -2291, -4317, 5, "America/Sao_Paulo", "Aw", "🇧🇷"),
        city("Sao Jose dos Campos", "Brazil", "BR", -2318, -4588, 600, "America/Sao_Paulo", "Cfa", "🇧🇷"),
        city("Campinas", "Brazil", "BR", -2291, -4706, 680, "America/Sao_Paulo", "Cfa", "🇧🇷"),
        city("New York", "USA", "US", 4071, -7401, 10, "America/New_York", "Dfa", "🇺🇸"),
        city("Los Angeles", "USA", "US", 3405, -11824, 89, "America/Los_Angeles", "Csb", "🇺🇸"),
        city("London", "United Kingdom", "GB", 5151, -13, 35, "Europe/London", "Cfb", "🇬🇧"),
        city("Berlin", "Germany", "DE", 5252, 1340, 34, "Europe/Berlin", "Cfb", "🇩🇪"),
        city("Oslo", "Norway", "NO", 5991, 1075, 23, "Europe/Oslo", "Dfb", "🇳🇴"),
        city("Tokyo", "Japan", "JP", 3568, 13969, 40, "Asia/Tokyo", "Cfa", "🇯🇵"),
        city("Shanghai", "China", "CN", 3123, 12147, 4, "Asia/Shanghai", "Cfa", "🇨🇳"),
        city("Chongqing", "China", "CN", 2956, 10655, 244, "Asia/Shanghai", "Cwa", "🇨🇳"),
        city("Nanjing", "China", "CN", 3206, 11880, 20, "Asia/Shanghai", "Cfa", "🇨🇳"),
        city("Dubai", "UAE", "AE", 2527, 5530, 5, "Asia/Dubai", "BWh", "🇦🇪"),
    ];
    assert(r@.map_values(|c: CitySpec| c@) =~= city_table());
    assert(r@.map_values(|c: CitySpec| c.name@) =~= city_names());
    assert(r@.map_values(|c: CitySpec| c.climate_zone@) =~= city_zones());
    proof {
        lemma_city_names_distinct();
        lemma_city_zones_known();
        lemma_city_zones_cover();
        assert forall|i: int| 0 <= i < 14 implies #[trigger] r@[i].name@ == city_names()[i] by {
            assert(r@.map_values(|c: CitySpec| c.name@)[i] == r@[i].name@);
        }
        assert forall|i: int| 0 <= i < 14 implies #[trigger] r@[i].climate_zone@ == city_zones()[i] by {
            assert(r@.map_values(|c: CitySpec| c.climate_zone@)[i] == r@[i].climate_zone@);
        }
    }
    r
}

} // verus!
