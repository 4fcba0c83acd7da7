//! Measurements in the line protocol, and the endpoint that receives them.
use vstd::prelude::*;
use crate::text::{
    chars_of, int_text, is_i64_range, is_i64_text, nat_text, push_char, push_int, push_nat,
    push_range, trim, trim_bounds,
};

verus! {

#[derive(Clone, Copy, Debug, PartialEq, Eq, Structural)]
pub enum InfluxDbProtocol {
    Http,
    Https,
}

/// Where and as whom measurements are written.
#[derive(Debug)]
pub struct InfluxDbConfig {
    pub token: String,
    pub database: String,
    pub hostname: String,
    pub protocol: InfluxDbProtocol,
    pub port: u16,
}

/// One timestamped observation: a table, its tags, its fields and the time in
/// milliseconds since the epoch.
#[derive(Debug)]
pub struct InfluxDbLp {
    pub table: String,
    pub tag_set: Vec<InfluxDbTagSet>,
    pub field_set: Vec<InfluxDbFieldSet>,
    pub timestamp: i64,
}

/// An indexed dimension of a measurement.
#[derive(Debug)]
pub struct InfluxDbTagSet {
    pub key: String,
    pub value: String,
}

/// A measured value; whether it is an integer is decided when it is rendered.
#[derive(Debug)]
pub struct InfluxDbFieldSet {
    pub key: String,
    pub value: String,
}

pub open spec fn scheme_text(p: InfluxDbProtocol) -> Seq<char> {
    match p {
        InfluxDbProtocol::Http => "http"@,
        InfluxDbProtocol::Https => "https"@,
    }
}

/// `<scheme>://<host>:<port>/api/v3/write_lp?db=<database>&precision=millisecond`
pub open spec fn url_text(c: &InfluxDbConfig) -> Seq<char> {
    scheme_text(c.protocol) + "://"@ + c.hostname@ + seq![':'] + nat_text(c.port as nat)
        + "/api/v3/write_lp?db="@ + c.database@ + "&precision=millisecond"@
}

/// `v` with a backslash before each space.
pub open spec fn escape_spaces(v: Seq<char>) -> Seq<char>
    decreases v.len(),
{
    if v.len() == 0 {
        Seq::empty()
    } else if v.last() == ' ' {
        escape_spaces(v.drop_last()) + seq!['\\', ' ']
    } else {
        escape_spaces(v.drop_last()) + seq![v.last()]
    }
}

/// `key=value`, spaces in the value escaped.
pub open spec fn tag_text(key: Seq<char>, value: Seq<char>) -> Seq<char> {
    key + seq!['='] + escape_spaces(value)
}

/// `key=<n>i` where the trimmed value is an `i64`, else `key="<value>"`.
pub open spec fn field_text(key: Seq<char>, value: Seq<char>) -> Seq<char> {
    if is_i64_text(trim(value)) {
        key + seq!['='] + trim(value) + seq!['i']
    } else {
        key + seq!['=', '"'] + value + seq!['"']
    }
}

/// The parts, separated by commas.
pub open spec fn join(parts: Seq<Seq<char>>) -> Seq<char>
    decreases parts.len(),
{
    if parts.len() == 0 {
        Seq::empty()
    } else if parts.len() == 1 {
        parts[0]
    } else {
        join(parts.drop_last()) + seq![','] + parts.last()
    }
}

pub open spec fn tag_texts(tags: Seq<InfluxDbTagSet>) -> Seq<Seq<char>> {
    Seq::new(tags.len(), |i: int| tag_text(tags[i].key@, tags[i].value@))
}

pub open spec fn field_texts(fields: Seq<InfluxDbFieldSet>) -> Seq<Seq<char>> {
    Seq::new(fields.len(), |i: int| field_text(fields[i].key@, fields[i].value@))
}

/// The tag segment of a line.
pub open spec fn tag_segment(lp: &InfluxDbLp) -> Seq<char> {
    join(tag_texts(lp.tag_set@))
}

/// The field segment of a line.
pub open spec fn field_segment(lp: &InfluxDbLp) -> Seq<char> {
    join(field_texts(lp.field_set@))
}

/// `<table>,<tags> <fields> <timestamp>`; the comma stays when there are no tags.
pub open spec fn line_text(lp: &InfluxDbLp) -> Seq<char> {
    lp.table@ + seq![','] + tag_segment(lp) + seq![' '] + field_segment(lp) + seq![' '] + int_text(
        lp.timestamp as int,
    )
}

proof fn lemma_join_step(parts: Seq<Seq<char>>, i: int)
    requires
        0 <= i < parts.len(),
    ensures
        join(parts.take(i + 1)) == if i == 0 {
            parts[0]
        } else {
            join(parts.take(i)) + seq![','] + parts[i]
        },
{
    assert(parts.take(i + 1).drop_last() =~= parts.take(i));
}

impl InfluxDbConfig {
    /// The write endpoint of this configuration.
    pub fn build_url(&self) -> (r: String)
        ensures
            r@ == url_text(self),
    {
        let mut out = String::new();
        match self.protocol {
            InfluxDbProtocol::Http => out.append("http"),
            InfluxDbProtocol::Https => out.append("https"),
        }
        out.append("://");
        out.append(self.hostname.as_str());
        push_char(&mut out, ':');
        push_nat(&mut out, self.port as u64);
        out.append("/api/v3/write_lp?db=");
        out.append(self.database.as_str());
        out.append("&precision=millisecond");
        assert(out@ =~= url_text(self));
        out
    }
}

impl InfluxDbTagSet {
    /// `key=value`, each space of the value written `\ `.
    pub fn to_string(&self) -> (r: String)
        ensures
            r@ == tag_text(self.key@, self.value@),
    {
        let v = chars_of(self.value.as_str());
        let mut out = String::new();
        out.append(self.key.as_str());
        push_char(&mut out, '=');
        let ghost head = out@;
        let mut i: usize = 0;
        while i < v.len()
            invariant
                i <= v@.len(),
                v@ == self.value@,
                out@ == head + escape_spaces(v@.take(i as int)),
            decreases v.len() - i,
        {
            let c = v[i];
            assert(v@.take(i + 1).drop_last() =~= v@.take(i as int));
            if c == ' ' {
                push_char(&mut out, '\\');
                push_char(&mut out, ' ');
            } else {
                push_char(&mut out, c);
            }
            assert(out@ =~= head + escape_spaces(v@.take(i + 1)));
            i = i + 1;
        }
        assert(v@.take(i as int) =~= v@);
        assert(out@ =~= tag_text(self.key@, self.value@));
        out
    }
}

impl InfluxDbFieldSet {
    /// `key=<n>i` where the trimmed value parses as an `i64`, else `key="<value>"`
    /// with the value as it stands.
    pub fn to_string(&self) -> (r: String)
        ensures
            r@ == field_text(self.key@, self.value@),
    {
        let v = chars_of(self.value.as_str());
        assert(v@.subrange(0, v@.len() as int) =~= v@);
        let (a, b) = trim_bounds(&v, 0, v.len());
        let mut out = String::new();
        out.append(self.key.as_str());
        push_char(&mut out, '=');
        if is_i64_range(&v, a, b) {
            push_range(&mut out, &v, a, b);
            push_char(&mut out, 'i');
        } else {
            push_char(&mut out, '"');
            out.append(self.value.as_str());
            push_char(&mut out, '"');
        }
        assert(out@ =~= field_text(self.key@, self.value@));
        out
    }
}

impl InfluxDbLp {
    /// The measurement as one line of the line protocol, without a line break.
    pub fn to_string(&self) -> (r: String)
        ensures
            r@ == line_text(self),
    {
        let mut out = String::new();
        out.append(self.table.as_str());
        push_char(&mut out, ',');
        let ghost head = out@;
        let ghost tags = tag_texts(self.tag_set@);
        let mut i: usize = 0;
        while i < self.tag_set.len()
            invariant
                i <= self.tag_set@.len(),
                tags == tag_texts(self.tag_set@),
                out@ == head + join(tags.take(i as int)),
            decreases self.tag_set.len() - i,
        {
            proof {
                lemma_join_step(tags, i as int);
            }
            if i > 0 {
                push_char(&mut out, ',');
            }
            let t = self.tag_set[i].to_string();
            out.append(t.as_str());
            assert(out@ =~= head + join(tags.take(i + 1)));
            i = i + 1;
        }
        assert(tags.take(i as int) =~= tags);
        push_char(&mut out, ' ');
        let ghost mid = out@;
        let ghost fields = field_texts(self.field_set@);
        let mut j: usize = 0;
        while j < self.field_set.len()
            invariant
                j <= self.field_set@.len(),
                fields == field_texts(self.field_set@),
                out@ == mid + join(fields.take(j as int)),
            decreases self.field_set.len() - j,
        {
            proof {
                lemma_join_step(fields, j as int);
            }
            if j > 0 {
                push_char(&mut out, ',');
            }
            let f = self.field_set[j].to_string();
            out.append(f.as_str());
            assert(out@ =~= mid + join(fields.take(j + 1)));
            j = j + 1;
        }
        assert(fields.take(j as int) =~= fields);
        push_char(&mut out, ' ');
        push_int(&mut out, self.timestamp);
        assert(out@ =~= line_text(self));
        out
    }
}

/// How often `c` occurs in `s`.
pub open spec fn count_char(s: Seq<char>, c: char) -> nat
    decreases s.len(),
{
    if s.len() == 0 {
        0
    } else {
        count_char(s.drop_last(), c) + if s.last() == c {
            1nat
        } else {
            0nat
        }
    }
}

proof fn lemma_count_concat(a: Seq<char>, b: Seq<char>, c: char)
    ensures
        count_char(a + b, c) == count_char(a, c) + count_char(b, c),
    decreases b.len(),
{
    if b.len() > 0 {
        assert((a + b).drop_last() =~= a + b.drop_last());
        lemma_count_concat(a, b.drop_last(), c);
    } else {
        assert(a + b =~= a);
    }
}

proof fn lemma_count_escape(v: Seq<char>)
    ensures
        count_char(escape_spaces(v), '=') == count_char(v, '='),
    decreases v.len(),
{
    if v.len() > 0 {
        lemma_count_escape(v.drop_last());
        if v.last() == ' ' {
            assert(seq!['\\', ' '] =~= seq!['\\'] + seq![' ']);
            lemma_count_concat(seq!['\\'], seq![' '], '=');
            lemma_count_single('\\', '=');
            lemma_count_single(' ', '=');
            lemma_count_concat(escape_spaces(v.drop_last()), seq!['\\', ' '], '=');
        } else {
            lemma_count_single(v.last(), '=');
            lemma_count_concat(escape_spaces(v.drop_last()), seq![v.last()], '=');
        }
    }
}

proof fn lemma_count_single(x: char, c: char)
    ensures
        count_char(seq![x], c) == if x == c {
            1nat
        } else {
            0nat
        },
{
    let s = seq![x];
    assert(s.drop_last() =~= Seq::<char>::empty());
    assert(s.last() == x);
    assert(count_char(s.drop_last(), c) == 0);
}

proof fn lemma_count_trim(s: Seq<char>, c: char)
    requires
        count_char(s, c) == 0,
    ensures
        count_char(trim(s), c) == 0,
{
    lemma_count_trim_start(s, c);
    lemma_count_trim_end(crate::text::trim_start(s), c);
}

proof fn lemma_count_trim_start(s: Seq<char>, c: char)
    requires
        count_char(s, c) == 0,
    ensures
        count_char(crate::text::trim_start(s), c) == 0,
    decreases s.len(),
{
    if s.len() > 0 && crate::text::is_ws(s[0]) {
        assert(s =~= seq![s[0]] + s.skip(1));
        lemma_count_concat(seq![s[0]], s.skip(1), c);
        lemma_count_trim_start(s.skip(1), c);
    }
}

proof fn lemma_count_trim_end(s: Seq<char>, c: char)
    requires
        count_char(s, c) == 0,
    ensures
        count_char(crate::text::trim_end(s), c) == 0,
    decreases s.len(),
{
    if s.len() > 0 && crate::text::is_ws(s.last()) {
        lemma_count_trim_end(s.drop_last(), c);
    }
}

proof fn lemma_count_join(parts: Seq<Seq<char>>)
    requires
        forall|i: int| 0 <= i < parts.len() ==> count_char(#[trigger] parts[i], '=') == 1,
    ensures
        count_char(join(parts), '=') == parts.len(),
    decreases parts.len(),
{
    if parts.len() == 1 {
    } else if parts.len() > 1 {
        let p = parts.drop_last();
        lemma_count_join(p);
        lemma_count_concat(join(p), seq![','], '=');
        lemma_count_concat(join(p) + seq![','], parts.last(), '=');
        lemma_count_single(',', '=');
    }
}

/// Where no tag key or value and no field key or value holds an `=`, a line is the
/// table, a comma, a tag segment with one `=` for each tag, a space, a field segment
/// with one `=` for each field, a space and the decimal timestamp, which ends it.
pub proof fn lemma_line_shape(lp: &InfluxDbLp)
    requires
        forall|i: int|
            0 <= i < lp.tag_set@.len() ==> count_char(#[trigger] lp.tag_set@[i].key@, '=') == 0
                && count_char(lp.tag_set@[i].value@, '=') == 0,
        forall|i: int|
            0 <= i < lp.field_set@.len() ==> count_char(#[trigger] lp.field_set@[i].key@, '=')
                == 0 && count_char(lp.field_set@[i].value@, '=') == 0,
    ensures
        line_text(lp) == lp.table@ + seq![','] + tag_segment(lp) + seq![' '] + field_segment(lp)
            + seq![' '] + int_text(lp.timestamp as int),
        count_char(tag_segment(lp), '=') == lp.tag_set@.len(),
        count_char(field_segment(lp), '=') == lp.field_set@.len(),
{
    let tags = tag_texts(lp.tag_set@);
    assert forall|i: int| 0 <= i < tags.len() implies count_char(#[trigger] tags[i], '=') == 1 by {
        let t = lp.tag_set@[i];
        lemma_count_escape(t.value@);
        lemma_count_concat(t.key@, seq!['='], '=');
        lemma_count_concat(t.key@ + seq!['='], escape_spaces(t.value@), '=');
        lemma_count_single('=', '=');
    }
    lemma_count_join(tags);
    let fields = field_texts(lp.field_set@);
    assert forall|i: int| 0 <= i < fields.len() implies count_char(#[trigger] fields[i], '=')
        == 1 by {
        let f = lp.field_set@[i];
        lemma_count_single('=', '=');
        lemma_count_concat(f.key@, seq!['='], '=');
        if is_i64_text(trim(f.value@)) {
            lemma_count_trim(f.value@, '=');
            lemma_count_concat(f.key@ + seq!['='], trim(f.value@), '=');
            lemma_count_concat(f.key@ + seq!['='] + trim(f.value@), seq!['i'], '=');
            lemma_count_single('i', '=');
        } else {
            assert(f.key@ + seq!['=', '"'] =~= f.key@ + seq!['='] + seq!['"']);
            lemma_count_concat(f.key@ + seq!['='], seq!['"'], '=');
            lemma_count_single('"', '=');
            lemma_count_concat(f.key@ + seq!['=', '"'], f.value@, '=');
            lemma_count_concat(f.key@ + seq!['=', '"'] + f.value@, seq!['"'], '=');
        }
    }
    lemma_count_join(fields);
}

/// Rendering depends on the contents of a measurement alone: two measurements with
/// the same table, tags, fields and timestamp render to the same line.
pub proof fn lemma_line_deterministic(a: &InfluxDbLp, b: &InfluxDbLp)
    requires
        a.table@ == b.table@,
        a.timestamp == b.timestamp,
        a.tag_set@.len() == b.tag_set@.len(),
        a.field_set@.len() == b.field_set@.len(),
        forall|i: int|
            0 <= i < a.tag_set@.len() ==> (#[trigger] a.tag_set@[i]).key@ == b.tag_set@[i].key@
                && a.tag_set@[i].value@ == b.tag_set@[i].value@,
        forall|i: int|
            0 <= i < a.field_set@.len() ==> (#[trigger] a.field_set@[i]).key@
                == b.field_set@[i].key@ && a.field_set@[i].value@ == b.field_set@[i].value@,
    ensures
        line_text(a) == line_text(b),
{
    assert(tag_texts(a.tag_set@) =~= tag_texts(b.tag_set@));
    assert(field_texts(a.field_set@) =~= field_texts(b.field_set@));
}

/// A measurement without tags keeps the comma after its table, directly followed by
/// the space before its fields.
pub proof fn lemma_line_without_tags(lp: &InfluxDbLp)
    requires
        lp.tag_set@.len() == 0,
    ensures
        line_text(lp) == lp.table@ + seq![',', ' '] + field_segment(lp) + seq![' '] + int_text(
            lp.timestamp as int,
        ),
{
    assert(line_text(lp) =~= lp.table@ + seq![',', ' '] + field_segment(lp) + seq![' ']
        + int_text(lp.timestamp as int));
}

} // verus!
