use bottom::temperature::{convert_temperature, get_temperature_data, TempHarvest, TemperatureType};

fn reading(name: &str, celsius_milli: i64) -> TempHarvest {
    TempHarvest { component_name: name.to_string(), temperature: celsius_milli }
}

fn names_and_temps(rows: &[TempHarvest]) -> Vec<(String, i64)> {
    rows.iter().map(|r| (r.component_name.clone(), r.temperature)).collect()
}

#[test]
fn default_unit_is_celsius() {
    assert_eq!(TemperatureType::default(), TemperatureType::Celsius);
}

#[test]
fn celsius_is_passed_through() {
    assert_eq!(convert_temperature(36_600, TemperatureType::Celsius), 36_600);
    assert_eq!(convert_temperature(-5_250, TemperatureType::Celsius), -5_250);
}

#[test]
fn kelvin_adds_273_15() {
    assert_eq!(convert_temperature(0, TemperatureType::Kelvin), 273_150);
    assert_eq!(convert_temperature(25_000, TemperatureType::Kelvin), 298_150);
    assert_eq!(convert_temperature(-273_150, TemperatureType::Kelvin), 0);
}

#[test]
fn fahrenheit_is_nine_fifths_plus_32() {
    assert_eq!(convert_temperature(0, TemperatureType::Fahrenheit), 32_000);
    assert_eq!(convert_temperature(100_000, TemperatureType::Fahrenheit), 212_000);
    assert_eq!(convert_temperature(-40_000, TemperatureType::Fahrenheit), -40_000);
    assert_eq!(convert_temperature(37_000, TemperatureType::Fahrenheit), 98_600);
}

#[test]
fn fahrenheit_rounds_down_between_thousandths() {
    assert_eq!(convert_temperature(1, TemperatureType::Fahrenheit), 32_001);
    assert_eq!(convert_temperature(-1, TemperatureType::Fahrenheit), 31_998);
}

#[test]
fn two_pass_order_ends_in_name_order() {
    let rows = vec![reading("b", 10_000), reading("a", 10_000), reading("c", 20_000)];
    let out = get_temperature_data(&rows, &TemperatureType::Celsius);
    assert_eq!(
        names_and_temps(&out),
        vec![("a".to_string(), 10_000), ("b".to_string(), 10_000), ("c".to_string(), 20_000)]
    );
}

#[test]
fn equal_names_keep_warmest_first() {
    let rows = vec![reading("core", 40_000), reading("acpi", 30_000), reading("core", 55_000)];
    let out = get_temperature_data(&rows, &TemperatureType::Celsius);
    assert_eq!(
        names_and_temps(&out),
        vec![("acpi".to_string(), 30_000), ("core".to_string(), 55_000), ("core".to_string(), 40_000)]
    );
}

#[test]
fn readings_are_converted_before_ordering() {
    let rows = vec![reading("gpu", 50_000), reading("cpu", 0)];
    let out = get_temperature_data(&rows, &TemperatureType::Kelvin);
    assert_eq!(
        names_and_temps(&out),
        vec![("cpu".to_string(), 273_150), ("gpu".to_string(), 323_150)]
    );
    let out = get_temperature_data(&rows, &TemperatureType::Fahrenheit);
    assert_eq!(
        names_and_temps(&out),
        vec![("cpu".to_string(), 32_000), ("gpu".to_string(), 122_000)]
    );
}

#[test]
fn no_sensors_give_no_rows() {
    let out = get_temperature_data(&Vec::new(), &TemperatureType::Celsius);
    assert!(out.is_empty());
}
