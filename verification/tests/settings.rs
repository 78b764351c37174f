use elsinore::index;
use elsinore::models::OneWireDevice;
use elsinore::models::Setting;
use elsinore::models::TemperatureProbe;
use elsinore::settings::latest_brewery_name;
use elsinore::settings::normalize_brewery_name;

#[test]
fn entered_names_lose_one_line_break() {
    assert_eq!("Foo", normalize_brewery_name("Foo\n").as_str());
    assert_eq!("Foo", normalize_brewery_name("Foo\r\n").as_str());
    assert_eq!("Baz", normalize_brewery_name("Baz\r").as_str());
    assert_eq!("Bar", normalize_brewery_name("Bar").as_str());
}

#[test]
fn empty_names_default_to_elsinore() {
    assert_eq!("Elsinore", normalize_brewery_name("").as_str());
    assert_eq!("Elsinore", normalize_brewery_name("\n").as_str());
    assert_eq!("Elsinore", normalize_brewery_name("\r\n").as_str());
}

#[test]
fn the_last_stored_name_wins() {
    assert_eq!(None, latest_brewery_name(Vec::new()));
    let rows = vec!["Old Name".to_string(), "New Name".to_string()];
    assert_eq!(Some("New Name".to_string()), latest_brewery_name(rows));
}

#[test]
fn index_greets() {
    assert_eq!("Hello, world!", index());
}

#[test]
fn model_rows_hold_their_fields() {
    let probe = TemperatureProbe { id: 1, probe_type: "one_wire".to_string() };
    assert_eq!(1, probe.id);
    assert_eq!("one_wire", probe.probe_type.as_str());
    let dev = OneWireDevice { id: 2, address: "28-00000406f49f".to_string() };
    assert_eq!("28-00000406f49f", dev.address.as_str());
    let setting = Setting { brewery_name: Some("Elsinore".to_string()) };
    assert_eq!(Some("Elsinore".to_string()), setting.brewery_name);
}
