//! The monitoring daemon's `key: value` output, and the measurement taken from it.
use vstd::prelude::*;
use crate::influxdb_config::{InfluxDbFieldSet, InfluxDbLp, InfluxDbTagSet};
use crate::lines::{entry, entry_bounds, line_list, line_ranges, range_views};
use crate::text::{chars_of, push_range};

verus! {

/// The trimmed `key: value` entries of `lines`, in order; a line without `:` gives none.
pub open spec fn upsc_entries(lines: Seq<Seq<char>>) -> Seq<(Seq<char>, Seq<char>)>
    decreases lines.len(),
{
    if lines.len() == 0 {
        Seq::empty()
    } else {
        match entry(lines.last(), ':') {
            Some(kv) => upsc_entries(lines.drop_last()).push(kv),
            None => upsc_entries(lines.drop_last()),
        }
    }
}

pub open spec fn pair_views(p: Seq<(String, String)>) -> Seq<(Seq<char>, Seq<char>)> {
    Seq::new(p.len(), |i: int| (p[i].0@, p[i].1@))
}

/// The value of the last entry of `key`.
pub open spec fn lookup(entries: Seq<(Seq<char>, Seq<char>)>, key: Seq<char>) -> Option<
    Seq<char>,
>
    decreases entries.len(),
{
    if entries.len() == 0 {
        None
    } else if entries.last().0 == key {
        Some(entries.last().1)
    } else {
        lookup(entries.drop_last(), key)
    }
}

/// The entries of the daemon's output, in the order of its lines.
pub fn parse_upsc_output(output: &str) -> (r: Vec<(String, String)>)
    ensures
        pair_views(r@) == upsc_entries(line_list(output@)),
{
    let v = chars_of(output);
    let rs = line_ranges(&v);
    let ghost ls = line_list(output@);
    let mut r: Vec<(String, String)> = Vec::new();
    let mut i: usize = 0;
    while i < rs.len()
        invariant
            i <= rs@.len(),
            v@ == output@,
            ls == line_list(output@),
            range_views(v@, rs@) == ls,
            crate::lines::ranges_within(v@, rs@),
            pair_views(r@) == upsc_entries(ls.take(i as int)),
        decreases rs.len() - i,
    {
        let (lo, hi) = rs[i];
        assert(ls[i as int] == v@.subrange(lo as int, hi as int));
        assert(ls.take(i + 1).drop_last() =~= ls.take(i as int));
        match entry_bounds(&v, lo, hi, ':') {
            Some(((ka, kb), (va, vb))) => {
                let mut k = String::new();
                push_range(&mut k, &v, ka, kb);
                let mut val = String::new();
                push_range(&mut val, &v, va, vb);
                r.push((k, val));
            },
            None => {},
        }
        assert(pair_views(r@) =~= upsc_entries(ls.take(i + 1)));
        i = i + 1;
    }
    assert(ls.take(i as int) =~= ls);
    r
}

/// The value of the last entry of `key`, as a map that takes the entries in order keeps it.
pub fn snapshot_get(entries: &Vec<(String, String)>, key: &str) -> (r: Option<String>)
    ensures
        match (r, lookup(pair_views(entries@), key@)) {
            (Some(s), Some(t)) => s@ == t,
            (None, None) => true,
            _ => false,
        },
{
    let k = String::from_str(key);
    let ghost p = pair_views(entries@);
    let mut i: usize = entries.len();
    assert(p.take(i as int) =~= p);
    while i > 0
        invariant
            i <= entries@.len(),
            k@ == key@,
            p == pair_views(entries@),
            lookup(p, key@) == lookup(p.take(i as int), key@),
        decreases i,
    {
        assert(p.take(i as int).drop_last() =~= p.take(i - 1));
        if entries[i - 1].0 == k {
            return Some(entries[i - 1].1.clone());
        }
        i = i - 1;
    }
    assert(p.take(0) =~= Seq::<(Seq<char>, Seq<char>)>::empty());
    None
}

/// The power measurement of one polling cycle: tagged with the device's serial number
/// and model, with the real power, the apparent power and the battery charge as fields.
/// `None` where the snapshot lacks one of them.
pub fn power_measurement(snapshot: &Vec<(String, String)>, timestamp: i64) -> (r: Option<
    InfluxDbLp,
>)
    ensures
        ({
            let p = pair_views(snapshot@);
            let serial = lookup(p, "device.serial"@);
            let model = lookup(p, "device.model"@);
            let realpower = lookup(p, "ups.realpower"@);
            let power = lookup(p, "ups.power"@);
            let charge = lookup(p, "battery.charge"@);
            match r {
                Some(lp) => {
                    &&& serial is Some && model is Some && realpower is Some && power is Some
                        && charge is Some
                    &&& lp.table@ == "measurement__power"@
                    &&& lp.timestamp == timestamp
                    &&& lp.tag_set@.len() == 2
                    &&& lp.tag_set@[0].key@ == "device_serial"@
                    &&& lp.tag_set@[0].value@ == serial->0
                    &&& lp.tag_set@[1].key@ == "device_model"@
                    &&& lp.tag_set@[1].value@ == model->0
                    &&& lp.field_set@.len() == 3
                    &&& lp.field_set@[0].key@ == "ups_realpower"@
                    &&& lp.field_set@[0].value@ == realpower->0
                    &&& lp.field_set@[1].key@ == "ups_power"@
                    &&& lp.field_set@[1].value@ == power->0
                    &&& lp.field_set@[2].key@ == "battery_charge"@
                    &&& lp.field_set@[2].value@ == charge->0
                },
                None => serial is None || model is None || realpower is None || power is None
                    || charge is None,
            }
        }),
{
    let serial = match snapshot_get(snapshot, "device.serial") {
        Some(s) => s,
        None => return None,
    };
    let model = match snapshot_get(snapshot, "device.model") {
        Some(s) => s,
        None => return None,
    };
    let realpower = match snapshot_get(snapshot, "ups.realpower") {
        Some(s) => s,
        None => return None,
    };
    let power = match snapshot_get(snapshot, "ups.power") {
        Some(s) => s,
        None => return None,
    };
    let charge = match snapshot_get(snapshot, "battery.charge") {
        Some(s) => s,
        None => return None,
    };
    let tag_set = vec![
        InfluxDbTagSet { key: String::from_str("device_serial"), value: serial },
        InfluxDbTagSet { key: String::from_str("device_model"), value: model },
    ];
    let field_set = vec![
        InfluxDbFieldSet { key: String::from_str("ups_realpower"), value: realpower },
        InfluxDbFieldSet { key: String::from_str("ups_power"), value: power },
        InfluxDbFieldSet { key: String::from_str("battery_charge"), value: charge },
    ];
    Some(
        InfluxDbLp {
            table: String::from_str("measurement__power"),
            tag_set,
            field_set,
            timestamp,
        },
    )
}

} // verus!
