use usv_to_db_tool::upsc::{parse_upsc_output, power_measurement, snapshot_get};

fn pairs(v: &[(&str, &str)]) -> Vec<(String, String)> {
    v.iter().map(|(k, x)| (k.to_string(), x.to_string())).collect()
}

#[test]
fn upsc_lines_are_split_and_trimmed() {
    let out = "battery.charge: 87.5\r\nups.status: OL CHRG\nno colon here\ndevice.url: http://x:1\n\n";
    assert_eq!(
        parse_upsc_output(out),
        pairs(&[("battery.charge", "87.5"), ("ups.status", "OL CHRG"), ("device.url", "http://x:1")])
    );
}

#[test]
fn upsc_empty_output() {
    assert!(parse_upsc_output("").is_empty());
    assert!(parse_upsc_output("\n\n").is_empty());
}

#[test]
fn snapshot_keeps_last_value() {
    let p = pairs(&[("a", "1"), ("b", "2"), ("a", "3")]);
    assert_eq!(snapshot_get(&p, "a"), Some("3".to_string()));
    assert_eq!(snapshot_get(&p, "b"), Some("2".to_string()));
    assert_eq!(snapshot_get(&p, "c"), None);
}

#[test]
fn power_measurement_from_snapshot() {
    let p = pairs(&[
        ("device.serial", "ABC123"),
        ("device.model", "X1"),
        ("ups.realpower", "450"),
        ("ups.power", "500"),
        ("battery.charge", "87.5"),
        ("ups.status", "OL"),
    ]);
    let lp = power_measurement(&p, 1700000000123).unwrap();
    assert_eq!(
        lp.to_string(),
        "measurement__power,device_serial=ABC123,device_model=X1 ups_realpower=450i,ups_power=500i,battery_charge=\"87.5\" 1700000000123"
    );
}

#[test]
fn power_measurement_needs_every_value() {
    let p = pairs(&[("device.serial", "A"), ("device.model", "X1"), ("ups.realpower", "1"), ("ups.power", "2")]);
    assert!(power_measurement(&p, 0).is_none());
}
