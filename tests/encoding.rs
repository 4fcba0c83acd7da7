use usv_to_db_tool::influxdb_config::{
    InfluxDbConfig, InfluxDbFieldSet, InfluxDbLp, InfluxDbProtocol, InfluxDbTagSet,
};

fn field(key: &str, value: &str) -> InfluxDbFieldSet {
    InfluxDbFieldSet { key: key.to_string(), value: value.to_string() }
}

fn tag(key: &str, value: &str) -> InfluxDbTagSet {
    InfluxDbTagSet { key: key.to_string(), value: value.to_string() }
}

fn config(protocol: InfluxDbProtocol, host: &str, port: u16, database: &str) -> InfluxDbConfig {
    InfluxDbConfig {
        token: "secret".to_string(),
        database: database.to_string(),
        hostname: host.to_string(),
        protocol,
        port,
    }
}

fn power_line() -> InfluxDbLp {
    InfluxDbLp {
        table: "measurement__power".to_string(),
        tag_set: vec![tag("device_serial", "ABC123"), tag("device_model", "X1")],
        field_set: vec![field("ups_realpower", "450"), field("battery_charge", "87.5")],
        timestamp: 1700000000123,
    }
}

#[test]
fn integer_field_gets_suffix() {
    assert_eq!(field("field", "42").to_string(), "field=42i");
}

#[test]
fn negative_integer_field_gets_suffix() {
    assert_eq!(field("field", "-7").to_string(), "field=-7i");
}

#[test]
fn padded_integer_field_is_trimmed() {
    assert_eq!(field("field", " 10 ").to_string(), "field=10i");
    assert_eq!(field("field", "\t10\r\n").to_string(), "field=10i");
}

#[test]
fn decimal_field_is_quoted() {
    assert_eq!(field("field", "3.14").to_string(), "field=\"3.14\"");
}

#[test]
fn empty_field_is_quoted() {
    assert_eq!(field("field", "").to_string(), "field=\"\"");
}

#[test]
fn quoted_field_keeps_its_padding() {
    assert_eq!(field("field", " on ").to_string(), "field=\" on \"");
}

#[test]
fn signs_alone_are_no_integer() {
    assert_eq!(field("f", "-").to_string(), "f=\"-\"");
    assert_eq!(field("f", "+").to_string(), "f=\"+\"");
    assert_eq!(field("f", "+5").to_string(), "f=+5i");
    assert_eq!(field("f", "1 2").to_string(), "f=\"1 2\"");
}

#[test]
fn integer_field_at_i64_bounds() {
    assert_eq!(field("f", "9223372036854775807").to_string(), "f=9223372036854775807i");
    assert_eq!(field("f", "9223372036854775808").to_string(), "f=\"9223372036854775808\"");
    assert_eq!(field("f", "-9223372036854775808").to_string(), "f=-9223372036854775808i");
    assert_eq!(field("f", "-9223372036854775809").to_string(), "f=\"-9223372036854775809\"");
    assert_eq!(field("f", "0009223372036854775807").to_string(), "f=0009223372036854775807i");
}

#[test]
fn tag_spaces_are_escaped() {
    assert_eq!(tag("key", "on line").to_string(), "key=on\\ line");
    assert_eq!(tag("key", "a  b ").to_string(), "key=a\\ \\ b\\ ");
}

#[test]
fn tag_without_space_is_unchanged() {
    assert_eq!(tag("key", "online").to_string(), "key=online");
}

#[test]
fn tag_escapes_nothing_but_spaces() {
    assert_eq!(tag("key", "a,b=c").to_string(), "key=a,b=c");
}

#[test]
fn secure_endpoint() {
    let c = config(InfluxDbProtocol::Https, "metrics.local", 8181, "ups");
    assert_eq!(
        c.build_url(),
        "https://metrics.local:8181/api/v3/write_lp?db=ups&precision=millisecond"
    );
}

#[test]
fn plain_endpoint() {
    let c = config(InfluxDbProtocol::Http, "10.0.0.2", 0, "a b");
    assert_eq!(c.build_url(), "http://10.0.0.2:0/api/v3/write_lp?db=a b&precision=millisecond");
    let c = config(InfluxDbProtocol::Http, "h", 65535, "d");
    assert_eq!(c.build_url(), "http://h:65535/api/v3/write_lp?db=d&precision=millisecond");
}

#[test]
fn power_measurement_line() {
    assert_eq!(
        power_line().to_string(),
        "measurement__power,device_serial=ABC123,device_model=X1 ups_realpower=450i,battery_charge=\"87.5\" 1700000000123"
    );
}

#[test]
fn line_without_tags_keeps_comma() {
    let lp = InfluxDbLp {
        table: "table".to_string(),
        tag_set: vec![],
        field_set: vec![field("field", "1")],
        timestamp: 5,
    };
    assert_eq!(lp.to_string(), "table, field=1i 5");
}

#[test]
fn line_without_fields() {
    let lp = InfluxDbLp {
        table: "t".to_string(),
        tag_set: vec![tag("k", "v")],
        field_set: vec![],
        timestamp: 0,
    };
    assert_eq!(lp.to_string(), "t,k=v  0");
}

#[test]
fn negative_and_extreme_timestamps() {
    let mut lp = power_line();
    lp.timestamp = -42;
    assert!(lp.to_string().ends_with(" -42"));
    lp.timestamp = i64::MIN;
    assert!(lp.to_string().ends_with(" -9223372036854775808"));
    lp.timestamp = i64::MAX;
    assert!(lp.to_string().ends_with(" 9223372036854775807"));
}

#[test]
fn line_counts_one_equals_sign_per_tag_and_field() {
    let lp = InfluxDbLp {
        table: "m".to_string(),
        tag_set: vec![tag("a", "x y"), tag("b", "z"), tag("c", "")],
        field_set: vec![field("f", " 3 "), field("g", "text")],
        timestamp: 77,
    };
    let line = lp.to_string();
    let rest = line.strip_prefix("m,").unwrap();
    let tag_end = rest.find("z,c= ").unwrap() + 4;
    let tags = &rest[..tag_end];
    let after = &rest[tag_end + 1..];
    let (fields, ts) = after.rsplit_once(' ').unwrap();
    assert_eq!(tags.matches('=').count(), 3);
    assert_eq!(fields.matches('=').count(), 2);
    assert_eq!(ts, "77");
    assert!(line.ends_with(" 77"));
}

#[test]
fn rendering_twice_gives_the_same_line() {
    let lp = power_line();
    assert_eq!(lp.to_string(), lp.to_string());
    assert_eq!(lp.to_string(), power_line().to_string());
}
