use elsinore::one_wire::MilliCelsius;
use elsinore::one_wire::TempProbe;
use elsinore::one_wire::W1Config;
use elsinore::one_wire::parse_temp;
use elsinore::w1_errors::NumError;
use elsinore::w1_errors::W1Error;

#[test]
fn test_parse_temp() {
    let temp_data = "6e 01 55 05 7f 7e a5 66 f2 : crc=f2 YES
6e 01 55 05 7f 7e a5 66 f2 t=22875"
        .to_string();
    assert_eq!(Ok(22875), parse_temp(temp_data.as_bytes()));
}

#[test]
fn parse_temp_known_values() {
    assert_eq!(Ok(0), parse_temp(b"t=0"));
    assert_eq!(Ok(5), parse_temp(b"t=+5"));
    assert_eq!(Ok(-1500), parse_temp(b"t=-1500"));
    assert_eq!(Ok(22875), parse_temp(b"t= 22875 \n"));
    assert_eq!(Ok(1), parse_temp(b"t=0000000000000000000001"));
}

#[test]
fn parse_temp_missing_marker() {
    assert_eq!(Err(W1Error::MissingMarker), parse_temp(b"no temperature here"));
    assert_eq!(Err(W1Error::MissingMarker), parse_temp(b""));
    assert_eq!(Err(W1Error::MissingMarker), parse_temp(b"t"));
}

#[test]
fn parse_temp_first_marker_wins() {
    // The suffix runs to the end of the record, so a second marker spoils
    // the numeral, exactly as splitting at the first find would.
    assert_eq!(Err(W1Error::Parse(NumError::InvalidDigit)), parse_temp(b"t=1 t=2"));
}

#[test]
fn parse_temp_bad_numerals() {
    assert_eq!(Err(W1Error::Parse(NumError::Empty)), parse_temp(b"t="));
    assert_eq!(Err(W1Error::Parse(NumError::Empty)), parse_temp(b"t=   "));
    assert_eq!(Err(W1Error::Parse(NumError::InvalidDigit)), parse_temp(b"t=-"));
    assert_eq!(Err(W1Error::Parse(NumError::InvalidDigit)), parse_temp(b"t=12x3"));
}

#[test]
fn parse_temp_range() {
    assert_eq!(Ok(i64::MAX), parse_temp(b"t=9223372036854775807"));
    assert_eq!(Ok(i64::MIN), parse_temp(b"t=-9223372036854775808"));
    assert_eq!(Err(W1Error::Parse(NumError::Overflow)), parse_temp(b"t=9223372036854775808"));
    assert_eq!(Err(W1Error::Parse(NumError::Overflow)), parse_temp(b"t=-9223372036854775809"));
    assert_eq!(Err(W1Error::Parse(NumError::Overflow)), parse_temp(b"t=99999999999999999999"));
}

fn good_record() -> Vec<u8> {
    b"6e 01 55 05 7f 7e a5 66 f2 : crc=f2 YES\n6e 01 55 05 7f 7e a5 66 f2 t=22875".to_vec()
}

#[test]
fn read_temp_parses_valid_record() {
    let probe = TempProbe::new("28-00000406f49f".to_string());
    assert_eq!(Ok(MilliCelsius(22875)), probe.read_temp(Ok(good_record())));
}

#[test]
fn read_temp_no_yes_is_bad_connection() {
    let probe = TempProbe::new("28-00000406f49f".to_string());
    // A t= field is present, but the confirmation is NO.
    let rec = b"6e 01 55 05 7f 7e a5 66 f2 : crc=f2 NO\n6e 01 55 05 7f 7e a5 66 f2 t=22875";
    assert_eq!(Err(W1Error::BadSerialConnection), probe.read_temp(Ok(rec.to_vec())));
    // No t= field either: still the connection fault.
    assert_eq!(Err(W1Error::BadSerialConnection), probe.read_temp(Ok(b"garbage".to_vec())));
}

#[test]
fn read_temp_yes_without_marker() {
    let probe = TempProbe::new("28-00000406f49f".to_string());
    let rec = b"6e 01 55 05 7f 7e a5 66 f2 : crc=f2 YES\n6e 01 55 05 7f 7e a5 66 f2";
    assert_eq!(Err(W1Error::MissingMarker), probe.read_temp(Ok(rec.to_vec())));
}

#[test]
fn read_temp_passes_io_failure_through() {
    let probe = TempProbe::new("28-00000406f49f".to_string());
    assert_eq!(Err(W1Error::Io), probe.read_temp(Err(W1Error::Io)));
}

#[test]
fn probe_starts_without_reading() {
    let probe = TempProbe::new("28-00000406f49f".to_string());
    assert_eq!(None, probe.temp_c);
}

#[test]
fn failed_update_retains_cached_value() {
    let mut probe = TempProbe::new("28-00000406f49f".to_string());
    assert_eq!(Ok(()), probe.update_temp(Ok(good_record())));
    assert_eq!(Some(MilliCelsius(22875)), probe.temp_c);
    // A bus fault, an I/O fault and a malformed record all leave the last
    // known-good reading standing.
    assert_eq!(
        Err(W1Error::BadSerialConnection),
        probe.update_temp(Ok(b"crc=f2 NO t=1".to_vec()))
    );
    assert_eq!(Some(MilliCelsius(22875)), probe.temp_c);
    assert_eq!(Err(W1Error::Io), probe.update_temp(Err(W1Error::Io)));
    assert_eq!(Some(MilliCelsius(22875)), probe.temp_c);
    assert_eq!(Err(W1Error::MissingMarker), probe.update_temp(Ok(b"YES".to_vec())));
    assert_eq!(Some(MilliCelsius(22875)), probe.temp_c);
    // A fresh reading replaces it.
    assert_eq!(Ok(()), probe.update_temp(Ok(b"YES t=19000".to_vec())));
    assert_eq!(Some(MilliCelsius(19000)), probe.temp_c);
}

#[test]
fn never_successful_probe_reports_absent() {
    let mut probe = TempProbe::new("28-00000406f49f".to_string());
    assert_eq!(Err(W1Error::Io), probe.update_temp(Err(W1Error::Io)));
    assert_eq!(None, probe.temp_c);
}

#[test]
fn fahrenheit_conversion_is_exact() {
    // 22.875 C is exactly 73.175 F.
    assert_eq!(73_175_000, MilliCelsius(22875).to_fahrenheit());
    // 0 C is 32 F; -40 C is -40 F.
    assert_eq!(32_000_000, MilliCelsius(0).to_fahrenheit());
    assert_eq!(-40_000_000, MilliCelsius(-40_000).to_fahrenheit());
    assert_eq!(22875, MilliCelsius(22875).as_celsius());
}

#[test]
fn device_path_composition() {
    let cfg = W1Config::sys_default();
    assert_eq!(
        "/sys/bus/w1/devices/28-00000406f49f/w1_slave",
        cfg.device_path("28-00000406f49f").as_str()
    );
    let synthetic = W1Config {
        bus_root: "/tmp/fake-bus".to_string(),
        slave_file: "reading".to_string(),
    };
    assert_eq!("/tmp/fake-bus/p1/reading", synthetic.device_path("p1").as_str());
}

#[test]
fn display_renders_millidegrees() {
    assert_eq!("22.875", MilliCelsius(22875).display().as_str());
    assert_eq!("0.000", MilliCelsius(0).display().as_str());
    assert_eq!("-1.500", MilliCelsius(-1500).display().as_str());
    assert_eq!("-0.042", MilliCelsius(-42).display().as_str());
    assert_eq!("19.000", MilliCelsius(19000).display().as_str());
}

#[test]
fn probe_display_distinguishes_absent_readings() {
    let mut probe = TempProbe::new("28-00000406f49f".to_string());
    assert_eq!("address: 28-00000406f49f", probe.display().as_str());
    assert_eq!(Ok(()), probe.update_temp(Ok(good_record())));
    assert_eq!(
        "address: 28-00000406f49f, temperature: 22.875 C",
        probe.display().as_str()
    );
}
