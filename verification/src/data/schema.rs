//! Weather-condition classification based on WMO weather codes, and the
//! city list of the data-collection notebooks.

use vstd::prelude::*;

verus! {

/// Weather condition classes used by the condition classifier.
#[derive(Debug, Clone, Copy, PartialEq, Eq, Structural)]
pub enum WeatherCondition {
    /// WMO codes 0, 1
    Clear,
    /// WMO codes 2, 3
    Cloudy,
    /// WMO codes 45, 48
    Foggy,
    /// WMO codes 51-67, 80-82
    Rainy,
    /// WMO codes 71-77, 85, 86
    Snowy,
    /// WMO codes 95-99
    Stormy,
}

/// The class a WMO code belongs to; unknown codes count as clear sky.
pub open spec fn wmo_class(code: int) -> WeatherCondition {
    if code == 0 || code == 1 {
        WeatherCondition::Clear
    } else if code == 2 || code == 3 {
        WeatherCondition::Cloudy
    } else if code == 45 || code == 48 {
        WeatherCondition::Foggy
    } else if (51 <= code <= 67) || (80 <= code <= 82) {
        WeatherCondition::Rainy
    } else if (71 <= code <= 77) || code == 85 || code == 86 {
        WeatherCondition::Snowy
    } else if 95 <= code <= 99 {
        WeatherCondition::Stormy
    } else {
        WeatherCondition::Clear
    }
}

/// Numeric class label of a condition (0..=5, in declaration order).
pub open spec fn label_of(c: WeatherCondition) -> int {
    match c {
        WeatherCondition::Clear => 0,
        WeatherCondition::Cloudy => 1,
        WeatherCondition::Foggy => 2,
        WeatherCondition::Rainy => 3,
        WeatherCondition::Snowy => 4,
        WeatherCondition::Stormy => 5,
    }
}

/// Condition of a numeric label; labels outside 0..=5 count as clear sky.
pub open spec fn condition_of_label(label: int) -> WeatherCondition {
    if label == 1 {
        WeatherCondition::Cloudy
    } else if label == 2 {
        WeatherCondition::Foggy
    } else if label == 3 {
        WeatherCondition::Rainy
    } else if label == 4 {
        WeatherCondition::Snowy
    } else if label == 5 {
        WeatherCondition::Stormy
    } else {
        WeatherCondition::Clear
    }
}

/// Display name of a condition.
pub open spec fn name_of(c: WeatherCondition) -> Seq<char> {
    match c {
        WeatherCondition::Clear => "Clear"@,
        WeatherCondition::Cloudy => "Cloudy"@,
        WeatherCondition::Foggy => "Foggy"@,
        WeatherCondition::Rainy => "Rainy"@,
        WeatherCondition::Snowy => "Snowy"@,
        WeatherCondition::Stormy => "Stormy"@,
    }
}

/// Emoji of a condition.
pub open spec fn emoji_of(c: WeatherCondition) -> Seq<char> {
    match c {
        WeatherCondition::Clear => "☀️"@,
        WeatherCondition::Cloudy => "⛅"@,
        WeatherCondition::Foggy => "🌫️"@,
        WeatherCondition::Rainy => "🌧️"@,
        WeatherCondition::Snowy => "🌨️"@,
        WeatherCondition::Stormy => "⛈️"@,
    }
}

impl WeatherCondition {
    /// Convert a WMO weather code to its condition class.
    pub fn from_wmo_code(code: i32) -> (c: WeatherCondition)
        ensures
            c == wmo_class(code as int),
    {
        match code {
            0 | 1 => WeatherCondition::Clear,
            2 | 3 => WeatherCondition::Cloudy,
            45 | 48 => WeatherCondition::Foggy,
            51..=67 | 80..=82 => WeatherCondition::Rainy,
            71..=77 | 85 | 86 => WeatherCondition::Snowy,
            95..=99 => WeatherCondition::Stormy,
            _ => WeatherCondition::Clear,
        }
    }

    /// Emoji representation.
    pub fn emoji(&self) -> (e: &'static str)
        ensures
            e@ == emoji_of(*self),
    {
        match self {
            WeatherCondition::Clear => "☀️",
            WeatherCondition::Cloudy => "⛅",
            WeatherCondition::Foggy => "🌫️",
            WeatherCondition::Rainy => "🌧️",
            WeatherCondition::Snowy => "🌨️",
            WeatherCondition::Stormy => "⛈️",
        }
    }

    /// Display name.
    pub fn as_str(&self) -> (s: &'static str)
        ensures
            s@ == name_of(*self),
    {
        match self {
            WeatherCondition::Clear => "Clear",
            WeatherCondition::Cloudy => "Cloudy",
            WeatherCondition::Foggy => "Foggy",
            WeatherCondition::Rainy => "Rainy",
            WeatherCondition::Snowy => "Snowy",
            WeatherCondition::Stormy => "Stormy",
        }
    }

    /// Numeric label for classification.
    pub fn to_label(&self) -> (l: i32)
        ensures
            l as int == label_of(*self),
    {
        match self {
            WeatherCondition::Clear => 0,
            WeatherCondition::Cloudy => 1,
            WeatherCondition::Foggy => 2,
            WeatherCondition::Rainy => 3,
            WeatherCondition::Snowy => 4,
            WeatherCondition::Stormy => 5,
        }
    }

    /// Condition of a numeric label.
    pub fn from_label(label: i32) -> (c: WeatherCondition)
        ensures
            c == condition_of_label(label as int),
    {
        match label {
            0 => WeatherCondition::Clear,
            1 => WeatherCondition::Cloudy,
            2 => WeatherCondition::Foggy,
            3 => WeatherCondition::Rainy,
            4 => WeatherCondition::Snowy,
            5 => WeatherCondition::Stormy,
            _ => WeatherCondition::Clear,
        }
    }
}

/// Labels round-trip: decoding the label of a condition gives the
/// condition back, and every label lies in 0..=5.
pub proof fn lemma_label_round_trip(c: WeatherCondition)
    ensures
        condition_of_label(label_of(c)) == c,
        0 <= label_of(c) <= 5,
{
}

/// Different conditions have different names and different labels.
pub proof fn lemma_names_and_labels_distinct(c1: WeatherCondition, c2: WeatherCondition)
    requires
        c1 != c2,
    ensures
        name_of(c1) != name_of(c2),
        label_of(c1) != label_of(c2),
{
    reveal_strlit("Clear");
    reveal_strlit("Cloudy");
    reveal_strlit("Foggy");
    reveal_strlit("Rainy");
    reveal_strlit("Snowy");
    reveal_strlit("Stormy");
    if name_of(c1) == name_of(c2) {
        assert(name_of(c1)[1] == name_of(c2)[1]);
        assert(name_of(c1)[0] == name_of(c2)[0]);
        assert(name_of(c1).len() == name_of(c2).len());
    }
}

/// Every label in 0..=5 is the label of the condition it decodes to,
/// so the six labels and the six conditions are in one-to-one
/// correspondence.
pub proof fn lemma_label_decode_encode(label: int)
    requires
        0 <= label <= 5,
    ensures
        label_of(condition_of_label(label)) == label,
{
}

/// Every WMO code is classified; codes outside the documented groups
/// fall back to clear sky, the same class as codes 0 and 1.
pub proof fn lemma_unknown_codes_are_clear(code: int)
    requires
        !(0 <= code <= 3),
        code != 45,
        code != 48,
        !(51 <= code <= 67),
        !(80 <= code <= 82),
        !(71 <= code <= 77),
        code != 85,
        code != 86,
        !(95 <= code <= 99),
    ensures
        wmo_class(code) == WeatherCondition::Clear,
{
}

/// The condition of an optional WMO code: absent when the code is.
pub fn condition_of(code: Option<i32>) -> (c: Option<WeatherCondition>)
    ensures
        c == match code {
            Some(k) => Some(wmo_class(k as int)),
            None => None::<WeatherCondition>,
        },
{
    match code {
        Some(k) => Some(WeatherCondition::from_wmo_code(k)),
        None => None,
    }
}

/// A city with its geographic coordinates, in hundredths of a degree.
pub struct City {
    pub name: String,
    pub country: String,
    pub country_code: String,
    pub latitude_centideg: i32,
    pub longitude_centideg: i32,
    pub timezone: String,
}

impl City {
    /// A city from its fields.
    pub fn new(name: &str, country: &str, country_code: &str, lat: i32, lon: i32, tz: &str) -> (c: Self)
        ensures
            c.name@ == name@,
            c.country@ == country@,
            c.country_code@ == country_code@,
            c.latitude_centideg == lat,
            c.longitude_centideg == lon,
            c.timezone@ == tz@,
    {
        City {
            name: name.to_string(),
            country: country.to_string(),
            country_code: country_code.to_string(),
            latitude_centideg: lat,
            longitude_centideg: lon,
            timezone: tz.to_string(),
        }
    }
}

impl View for City {
    type V = (Seq<char>, Seq<char>, Seq<char>, int, int, Seq<char>);

    /// The fields of the city, texts as character sequences.
    open spec fn view(&self) -> (Seq<char>, Seq<char>, Seq<char>, int, int, Seq<char>) {
        (
            self.name@,
            self.country@,
            self.country_code@,
            self.latitude_centideg as int,
            self.longitude_centideg as int,
            self.timezone@,
        )
    }
}

/// The cities of the data-collection notebooks: name, country, country
/// code, latitude and longitude in hundredths of a degree, time zone.
pub open spec fn all_cities_table() -> Seq<(Seq<char>, Seq<char>, Seq<char>, int, int, Seq<char>)> {
    seq![
        ("São Paulo"@, "Brazil"@, "BR"@, -2355, -4663, "America/Sao_Paulo"@),
        ("Rio de Janeiro"@, "Brazil"@, "BR"@, -2291, -4317, "America/Sao_Paulo"@),
        ("São José dos Campos"@, "Brazil"@, "BR"@, -2318, -4588, "America/Sao_Paulo"@),
        ("Campinas"@, "Brazil"@, "BR"@, -2291, -4706, "America/Sao_Paulo"@),
        ("New York"@, "USA"@, "US"@, 4071, -7401, "America/New_York"@),
        ("Los Angeles"@, "USA"@, "US"@, 3405, -11824, "America/Los_Angeles"@),
        ("London"@, "United Kingdom"@, "GB"@, 5151, -13, "Europe/London"@),
        ("Berlin"@, "Germany"@, "DE"@, 5252, 1340, "Europe/Berlin"@),
        ("Oslo"@, "Norway"@, "NO"@, 5991, 1075, "Europe/Oslo"@),
        ("Tokyo"@, "Japan"@, "JP"@, 3568, 13969, "Asia/Tokyo"@),
        ("Shanghai"@, "China"@, "CN"@, 3123, 12147, "Asia/Shanghai"@),
        ("Chongqing"@, "China"@, "CN"@, 2956, 10655, "Asia/Shanghai"@),
        ("Nanjing"@, "China"@, "CN"@, 3206, 11880, "Asia/Shanghai"@),
        ("Dubai"@, "UAE"@, "AE"@, 2527, 5530, "Asia/Dubai"@)
    ]
}

/// The names of the fourteen cities of the data-collection notebooks.
pub open spec fn all_city_names() -> Seq<Seq<char>> {
    seq!["São Paulo"@, "Rio de Janeiro"@, "São José dos Campos"@, "Campinas"@, "New York"@, "Los Angeles"@, "London"@, "Berlin"@, "Oslo"@, "Tokyo"@, "Shanghai"@, "Chongqing"@, "Nanjing"@, "Dubai"@]
}

/// All 14 cities used in this project.
pub fn get_all_cities() -> (r: Vec<City>)
    ensures
        r@.len() == 14,
        r@.map_values(|c: City| c@) == all_cities_table(),
        r@.map_values(|c: City| c.name@) == all_city_names(),
{
    let r = vec![
        City::new("São Paulo", "Brazil", "BR", -2355, -4663, "America/Sao_Paulo"),
        City::new("Rio de Janeiro", "Brazil", "BR", -2291, -4317, "America/Sao_Paulo"),
        City::new("São José dos Campos", "Brazil", "BR", -2318, -4588, "America/Sao_Paulo"),
        City::new("Campinas", "Brazil", "BR", -2291, -4706, "America/Sao_Paulo"),
        City::new("New York", "USA", "US", 4071, -7401, "America/New_York"),
        City::new("Los Angeles", "USA", "US", 3405, -11824, "America/Los_Angeles"),
        City::new("London", "United Kingdom", "GB", 5151, -13, "Europe/London"),
        City::new("Berlin", "Germany", "DE", 5252, 1340, "Europe/Berlin"),
        City::new("Oslo", "Norway", "NO", 5991, 1075, "Europe/Oslo"),
        City::new("Tokyo", "Japan", "JP", 3568, 13969, "Asia/Tokyo"),
        City::new("Shanghai", "China", "CN", 3123, 12147, "Asia/Shanghai"),
        City::new("Chongqing", "China", "CN", 2956, 10655, "Asia/Shanghai"),
        City::new("Nanjing", "China", "CN", 3206, 11880, "Asia/Shanghai"),
        City::new("Dubai", "UAE", "AE", 2527, 5530, "Asia/Dubai"),
    ];
    assert(r@.map_values(|c: City| c@) =~= all_cities_table());
    assert(r@.map_values(|c: City| c.name@) =~= all_city_names());
    r
}

/// The WMO groups: codes 0 and 1 are clear sky, 2 and 3 cloudy, 45 and
/// 48 fog, every code from 51 to 67 and from 80 to 82 rain, every code
/// from 71 to 77 and 85, 86 snow, every code from 95 to 99 a storm.
pub proof fn lemma_wmo_groups(code: int)
    ensures
        (code == 0 || code == 1) ==> wmo_class(code) == WeatherCondition::Clear,
        (code == 2 || code == 3) ==> wmo_class(code) == WeatherCondition::Cloudy,
        (code == 45 || code == 48) ==> wmo_class(code) == WeatherCondition::Foggy,
        (51 <= code <= 67 || 80 <= code <= 82) ==> wmo_class(code) == WeatherCondition::Rainy,
        (71 <= code <= 77 || code == 85 || code == 86) ==> wmo_class(code) == WeatherCondition::Snowy,
        (95 <= code <= 99) ==> wmo_class(code) == WeatherCondition::Stormy,
        wmo_class(code) == WeatherCondition::Rainy ==> (51 <= code <= 67 || 80 <= code <= 82),
        wmo_class(code) == WeatherCondition::Snowy ==> (71 <= code <= 77 || code == 85 || code
            == 86),
        wmo_class(code) == WeatherCondition::Stormy ==> 95 <= code <= 99,
        wmo_class(code) == WeatherCondition::Foggy ==> (code == 45 || code == 48),
        wmo_class(code) == WeatherCondition::Cloudy ==> (code == 2 || code == 3),
{
}

} // verus!
