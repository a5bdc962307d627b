use rust_weather_ml::data::schema::{condition_of, get_all_cities, City, WeatherCondition};
use rust_weather_ml::production::config::cities;

#[test]
fn test_weather_condition_from_wmo() {
    assert_eq!(WeatherCondition::from_wmo_code(0), WeatherCondition::Clear);
    assert_eq!(WeatherCondition::from_wmo_code(3), WeatherCondition::Cloudy);
    assert_eq!(WeatherCondition::from_wmo_code(61), WeatherCondition::Rainy);
    assert_eq!(WeatherCondition::from_wmo_code(71), WeatherCondition::Snowy);
    assert_eq!(WeatherCondition::from_wmo_code(95), WeatherCondition::Stormy);
}

#[test]
fn wmo_code_range_edges() {
    assert_eq!(WeatherCondition::from_wmo_code(1), WeatherCondition::Clear);
    assert_eq!(WeatherCondition::from_wmo_code(2), WeatherCondition::Cloudy);
    assert_eq!(WeatherCondition::from_wmo_code(45), WeatherCondition::Foggy);
    assert_eq!(WeatherCondition::from_wmo_code(48), WeatherCondition::Foggy);
    assert_eq!(WeatherCondition::from_wmo_code(51), WeatherCondition::Rainy);
    assert_eq!(WeatherCondition::from_wmo_code(67), WeatherCondition::Rainy);
    assert_eq!(WeatherCondition::from_wmo_code(80), WeatherCondition::Rainy);
    assert_eq!(WeatherCondition::from_wmo_code(82), WeatherCondition::Rainy);
    assert_eq!(WeatherCondition::from_wmo_code(77), WeatherCondition::Snowy);
    assert_eq!(WeatherCondition::from_wmo_code(85), WeatherCondition::Snowy);
    assert_eq!(WeatherCondition::from_wmo_code(86), WeatherCondition::Snowy);
    assert_eq!(WeatherCondition::from_wmo_code(99), WeatherCondition::Stormy);
}

#[test]
fn unknown_wmo_codes_are_clear() {
    assert_eq!(WeatherCondition::from_wmo_code(-1), WeatherCondition::Clear);
    assert_eq!(WeatherCondition::from_wmo_code(4), WeatherCondition::Clear);
    assert_eq!(WeatherCondition::from_wmo_code(68), WeatherCondition::Clear);
    assert_eq!(WeatherCondition::from_wmo_code(100), WeatherCondition::Clear);
}

#[test]
fn condition_names_and_emoji() {
    assert_eq!(WeatherCondition::Clear.as_str(), "Clear");
    assert_eq!(WeatherCondition::Cloudy.as_str(), "Cloudy");
    assert_eq!(WeatherCondition::Foggy.as_str(), "Foggy");
    assert_eq!(WeatherCondition::Rainy.as_str(), "Rainy");
    assert_eq!(WeatherCondition::Snowy.as_str(), "Snowy");
    assert_eq!(WeatherCondition::Stormy.as_str(), "Stormy");
    assert_eq!(WeatherCondition::Clear.emoji(), "☀️");
    assert_eq!(WeatherCondition::Cloudy.emoji(), "⛅");
    assert_eq!(WeatherCondition::Foggy.emoji(), "🌫️");
    assert_eq!(WeatherCondition::Rainy.emoji(), "🌧️");
    assert_eq!(WeatherCondition::Snowy.emoji(), "🌨️");
    assert_eq!(WeatherCondition::Stormy.emoji(), "⛈️");
}

#[test]
fn labels_round_trip() {
    let all = [
        WeatherCondition::Clear,
        WeatherCondition::Cloudy,
        WeatherCondition::Foggy,
        WeatherCondition::Rainy,
        WeatherCondition::Snowy,
        WeatherCondition::Stormy,
    ];
    for (i, c) in all.iter().enumerate() {
        assert_eq!(c.to_label(), i as i32);
        assert_eq!(WeatherCondition::from_label(c.to_label()), *c);
    }
}

#[test]
fn unknown_labels_are_clear() {
    assert_eq!(WeatherCondition::from_label(-3), WeatherCondition::Clear);
    assert_eq!(WeatherCondition::from_label(6), WeatherCondition::Clear);
    assert_eq!(WeatherCondition::from_label(5), WeatherCondition::Stormy);
}

#[test]
fn test_city_creation() {
    let cities = get_all_cities();
    assert_eq!(cities.len(), 14);
    assert_eq!(cities[0].name, "São Paulo");
}

#[test]
fn city_new_keeps_fields() {
    let c = City::new("Oslo", "Norway", "NO", 5991, 1075, "Europe/Oslo");
    assert_eq!(c.name, "Oslo");
    assert_eq!(c.country, "Norway");
    assert_eq!(c.country_code, "NO");
    assert_eq!(c.latitude_centideg, 5991);
    assert_eq!(c.longitude_centideg, 1075);
    assert_eq!(c.timezone, "Europe/Oslo");
}

#[test]
fn city_list_keeps_notebook_order() {
    let names: Vec<String> = get_all_cities().into_iter().map(|c| c.name).collect();
    assert_eq!(names[2], "São José dos Campos");
    assert_eq!(names[13], "Dubai");
}

#[test]
fn daily_run_table_has_fourteen_distinct_cities() {
    let table = cities();
    assert_eq!(table.len(), 14);
    assert_eq!(table[0].name, "Sao Paulo");
    assert_eq!(table[0].climate_zone, "Cfa");
    assert_eq!(table[0].latitude_centideg, -2355);
    assert_eq!(table[13].name, "Dubai");
    assert_eq!(table[13].climate_zone, "BWh");
    assert_eq!(table[8].climate_zone, "Dfb");
    for i in 0..table.len() {
        for j in (i + 1)..table.len() {
            assert_ne!(table[i].name, table[j].name);
        }
    }
}

#[test]
fn condition_of_follows_the_code() {
    assert_eq!(condition_of(None), None);
    assert_eq!(condition_of(Some(61)), Some(WeatherCondition::Rainy));
    assert_eq!(condition_of(Some(1000)), Some(WeatherCondition::Clear));
}

#[test]
fn city_tables_agree_on_places() {
    let run = cities();
    let notebook = get_all_cities();
    assert_eq!(run.len(), notebook.len());
    for (a, b) in run.iter().zip(notebook.iter()) {
        assert_eq!(a.country, b.country);
        assert_eq!(a.country_code, b.country_code);
        assert_eq!(a.latitude_centideg, b.latitude_centideg);
        assert_eq!(a.longitude_centideg, b.longitude_centideg);
        assert_eq!(a.timezone, b.timezone);
    }
    assert_eq!(run[9].name, "Tokyo");
    assert_eq!(run[9].latitude_centideg, 3568);
    assert_eq!(run[9].longitude_centideg, 13969);
    assert_eq!(run[9].timezone, "Asia/Tokyo");
    assert_eq!(run[10].latitude_centideg, 3123);
    assert_eq!(run[5].elevation_m, 89);
    assert_eq!(run[6].flag, "🇬🇧");
}

#[test]
fn every_one_hot_zone_has_a_city() {
    let zones: Vec<&str> = cities().iter().map(|c| c.climate_zone).collect();
    for z in ["Aw", "BWh", "Cfa", "Cfb", "Csb", "Cwa", "Dfa", "Dfb"] {
        assert!(zones.contains(&z), "{z}");
    }
}
