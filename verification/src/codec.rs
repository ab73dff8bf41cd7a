//! Multi-codec serialization of statistics reports.
//!
//! A report is a list of per-language rows. It can be printed through one of
//! three codecs and parsed back; parsing tries the codecs in a fixed declared
//! order (plain structured text first, then the hex-wrapped binary codec, then
//! the indented-text codec) and returns the first structurally valid decode.

use vstd::prelude::*;

use crate::classify::str_eq;

verus! {

/// Per-language statistics: the counts the surrounding tool reports for one
/// language.
#[derive(Clone, Debug, PartialEq, Eq)]
pub struct LangStat {
    pub name: String,
    pub files: u64,
    pub code: u64,
    pub comments: u64,
    pub blanks: u64,
}

/// The plain-value shape of one row.
pub type RowV = (Seq<char>, u64, u64, u64, u64);

type Row = (String, u64, u64, u64, u64);

pub open spec fn stat_view(s: LangStat) -> RowV {
    (s.name@, s.files, s.code, s.comments, s.blanks)
}

pub open spec fn report_view(stats: Seq<LangStat>) -> Seq<RowV> {
    Seq::new(stats.len(), |i: int| stat_view(stats[i]))
}

pub open spec fn rows_view(rows: Seq<Row>) -> Seq<RowV> {
    Seq::new(rows.len(), |i: int| (rows[i].0@, rows[i].1, rows[i].2, rows[i].3, rows[i].4))
}

/// The text the structured-text codec produces for a report.
pub uninterp spec fn json_text_of(rows: Seq<RowV>) -> Seq<char>;

/// The bytes the binary codec produces for a report.
pub uninterp spec fn cbor_bytes_of(rows: Seq<RowV>) -> Seq<u8>;

/// The text the indented-text codec produces for a report.
pub uninterp spec fn yaml_text_of(rows: Seq<RowV>) -> Seq<char>;

/// What the structured-text decoder makes of a text: the decoded rows, or
/// nothing. A function of the text alone.
pub uninterp spec fn json_parse_of(text: Seq<char>) -> Option<Seq<RowV>>;

/// What the binary decoder makes of a byte string. A function of the bytes
/// alone.
pub uninterp spec fn cbor_parse_of(bytes: Seq<u8>) -> Option<Seq<RowV>>;

/// What the indented-text decoder makes of a text. A function of the text
/// alone.
pub uninterp spec fn yaml_parse_of(text: Seq<char>) -> Option<Seq<RowV>>;

/// What the hex decoder makes of a text. A function of the text alone.
pub uninterp spec fn hex_parse_of(text: Seq<char>) -> Option<Seq<u8>>;

/// The lowercase hex digit for `d`.
pub open spec fn hex_digit(d: int) -> char {
    if d == 0 {
        '0'
    } else if d == 1 {
        '1'
    } else if d == 2 {
        '2'
    } else if d == 3 {
        '3'
    } else if d == 4 {
        '4'
    } else if d == 5 {
        '5'
    } else if d == 6 {
        '6'
    } else if d == 7 {
        '7'
    } else if d == 8 {
        '8'
    } else if d == 9 {
        '9'
    } else if d == 10 {
        'a'
    } else if d == 11 {
        'b'
    } else if d == 12 {
        'c'
    } else if d == 13 {
        'd'
    } else if d == 14 {
        'e'
    } else {
        'f'
    }
}

/// Lowercase hex encoding: two digits per byte, high nibble first.
pub open spec fn hex_of(b: Seq<u8>) -> Seq<char>
    decreases b.len(),
{
    if b.len() == 0 {
        Seq::<char>::empty()
    } else {
        hex_of(b.drop_last()) + seq![
            hex_digit(b.last() as int / 16),
            hex_digit(b.last() as int % 16),
        ]
    }
}

/// A character the hex decoder accepts.
pub open spec fn is_hex_char(c: char) -> bool {
    ||| ('0' as int <= c as int && c as int <= '9' as int)
    ||| ('a' as int <= c as int && c as int <= 'f' as int)
    ||| ('A' as int <= c as int && c as int <= 'F' as int)
}

/// A whitespace character the structured-text decoder skips.
pub open spec fn json_ws(c: char) -> bool {
    c == ' ' || c == '\t' || c == '\n' || c == '\r'
}

/// The text opens, after optional whitespace, with the array bracket the
/// structured-text decoder demands for a row list.
pub open spec fn leads_with_bracket(s: Seq<char>) -> bool {
    exists|i: int|
        #![trigger s[i]]
        0 <= i < s.len() && s[i] == '[' && (forall|j: int| 0 <= j < i ==> json_ws(s[j]))
}

pub proof fn lemma_hex_of_len(b: Seq<u8>)
    ensures
        hex_of(b).len() == 2 * b.len(),
    decreases b.len(),
{
    if b.len() > 0 {
        lemma_hex_of_len(b.drop_last());
    }
}

pub proof fn lemma_hex_of_chars(b: Seq<u8>)
    ensures
        forall|k: int| 0 <= k < hex_of(b).len() ==> is_hex_char(#[trigger] hex_of(b)[k]),
    decreases b.len(),
{
    if b.len() > 0 {
        lemma_hex_of_chars(b.drop_last());
        assert forall|d: int| 0 <= d < 16 implies is_hex_char(hex_digit(d)) by {}
        assert forall|k: int| 0 <= k < hex_of(b).len() implies is_hex_char(hex_of(b)[k]) by {
            if k < hex_of(b.drop_last()).len() {
                assert(hex_of(b)[k] == hex_of(b.drop_last())[k]);
            }
        }
    }
}

/// Relies on serde_json::to_string: the output text is a function of the row
/// values alone; serializing a row list cannot fail, and the text is the
/// array form, opening with a bracket.
#[verifier::external_body]
fn json_encode_rows(rows: &Vec<Row>) -> (r: String)
    ensures
        r@ == json_text_of(rows_view(rows@)),
        r@.len() > 0,
        r@[0] == '[',
{
    serde_json::to_string(rows).expect("serializing rows cannot fail")
}

/// Relies on serde_json::from_str: decoding the exact encoder output for a
/// row list yields that row list back; a decode into a row list succeeds only
/// on text that opens, after optional whitespace, with an array bracket; and
/// the result is a function of the text alone.
#[verifier::external_body]
fn json_decode_rows(text: &str) -> (r: Option<Vec<Row>>)
    ensures
        forall|rv: Seq<RowV>|
            text@ == json_text_of(rv) ==> r is Some && rows_view((r->0)@) == rv,
        r is Some ==> leads_with_bracket(text@),
        match r {
            Some(v) => json_parse_of(text@) == Some(rows_view(v@)),
            None => json_parse_of(text@) is None,
        },
{
    serde_json::from_str::<Vec<Row>>(text).ok()
}

/// Relies on serde_cbor::to_vec: the output bytes are a function of the row
/// values alone; serializing a row list cannot fail, and at least the array
/// header byte is always written.
#[verifier::external_body]
fn cbor_encode_rows(rows: &Vec<Row>) -> (r: Vec<u8>)
    ensures
        r@ == cbor_bytes_of(rows_view(rows@)),
        r@.len() > 0,
{
    serde_cbor::to_vec(rows).expect("serializing rows cannot fail")
}

/// Relies on serde_cbor::from_slice: decoding the exact encoder output for a
/// row list yields that row list back, and the result is a function of the
/// bytes alone.
#[verifier::external_body]
fn cbor_decode_rows(bytes: &[u8]) -> (r: Option<Vec<Row>>)
    ensures
        forall|rv: Seq<RowV>|
            bytes@ == cbor_bytes_of(rv) ==> r is Some && rows_view((r->0)@) == rv,
        match r {
            Some(v) => cbor_parse_of(bytes@) == Some(rows_view(v@)),
            None => cbor_parse_of(bytes@) is None,
        },
{
    serde_cbor::from_slice::<Vec<Row>>(bytes).ok()
}

/// Relies on serde_yaml::to_string: the output text is a function of the row
/// values alone; serializing a row list cannot fail (only a value's own
/// Serialize impl can error, and these never do), the text is never empty,
/// and a nonempty list is emitted as a block sequence opening with its dash
/// indicator.
#[verifier::external_body]
fn yaml_encode_rows(rows: &Vec<Row>) -> (r: String)
    ensures
        r@ == yaml_text_of(rows_view(rows@)),
        r@.len() > 0,
        rows@.len() > 0 ==> r@[0] == '-',
{
    serde_yaml::to_string(rows).expect("serializing rows cannot fail")
}

/// Relies on serde_yaml::from_str: decoding the exact encoder output for a
/// row list yields that row list back, and the result is a function of the
/// text alone.
#[verifier::external_body]
fn yaml_decode_rows(text: &str) -> (r: Option<Vec<Row>>)
    ensures
        forall|rv: Seq<RowV>|
            text@ == yaml_text_of(rv) ==> r is Some && rows_view((r->0)@) == rv,
        match r {
            Some(v) => yaml_parse_of(text@) == Some(rows_view(v@)),
            None => yaml_parse_of(text@) is None,
        },
{
    serde_yaml::from_str::<Vec<Row>>(text).ok()
}

/// Relies on hex::encode: two lowercase digits per byte, high nibble first.
#[verifier::external_body]
fn hex_encode_bytes(b: &Vec<u8>) -> (r: String)
    ensures
        r@ == hex_of(b@),
{
    hex::encode(b)
}

/// Relies on hex::decode: the lowercase encoding of any byte string decodes
/// back to those bytes; a decode succeeds only when every character is a hex
/// digit; and the result is a function of the text alone.
#[verifier::external_body]
fn hex_decode_str(s: &str) -> (r: Option<Vec<u8>>)
    ensures
        forall|b: Seq<u8>| s@ == hex_of(b) ==> r is Some && (r->0)@ == b,
        r is Some ==> forall|k: int| 0 <= k < s@.len() ==> is_hex_char(#[trigger] s@[k]),
        match r {
            Some(v) => hex_parse_of(s@) == Some(v@),
            None => hex_parse_of(s@) is None,
        },
{
    hex::decode(s).ok()
}

fn stats_to_rows(stats: &Vec<LangStat>) -> (r: Vec<Row>)
    ensures
        rows_view(r@) == report_view(stats@),
{
    let mut out: Vec<Row> = Vec::new();
    let mut i: usize = 0;
    while i < stats.len()
        invariant
            0 <= i <= stats@.len(),
            out@.len() == i,
            forall|k: int| 0 <= k < i ==> rows_view(out@)[k] == report_view(stats@)[k],
        decreases stats@.len() - i,
    {
        let s = &stats[i];
        out.push((s.name.clone(), s.files, s.code, s.comments, s.blanks));
        i += 1;
    }
    proof {
        assert(rows_view(out@) =~= report_view(stats@));
    }
    out
}

fn rows_to_stats(rows: Vec<Row>) -> (r: Vec<LangStat>)
    ensures
        report_view(r@) == rows_view(rows@),
{
    let mut out: Vec<LangStat> = Vec::new();
    let mut i: usize = 0;
    while i < rows.len()
        invariant
            0 <= i <= rows@.len(),
            out@.len() == i,
            forall|k: int| 0 <= k < i ==> report_view(out@)[k] == rows_view(rows@)[k],
        decreases rows@.len() - i,
    {
        let row = &rows[i];
        out.push(
            LangStat {
                name: row.0.clone(),
                files: row.1,
                code: row.2,
                comments: row.3,
                blanks: row.4,
            },
        );
        i += 1;
    }
    proof {
        assert(report_view(out@) =~= rows_view(rows@));
    }
    out
}

/// Supported serialization formats, in the declared parse-attempt order.
#[derive(Clone, Copy, Debug, PartialEq, Eq, Structural)]
pub enum Format {
    Json,
    Cbor,
    Yaml,
}

/// The message reported for an unknown format name.
pub open spec fn format_err_msg(name: Seq<char>) -> Seq<char> {
    name + " is not a supported serialization format"@
}

/// What the hex-wrapped binary codec makes of a text.
pub open spec fn cbor_parse_path(text: Seq<char>) -> Option<Seq<RowV>> {
    match hex_parse_of(text) {
        Some(bytes) => cbor_parse_of(bytes),
        None => None,
    }
}

/// What parsing makes of a text: nothing for empty input, otherwise the first
/// codec's decode that succeeds, in the declared order — structured text,
/// then the hex-wrapped binary codec, then the indented-text codec.
pub open spec fn parse_spec(text: Seq<char>) -> Option<Seq<RowV>> {
    if text.len() == 0 {
        None
    } else if json_parse_of(text) is Some {
        json_parse_of(text)
    } else if cbor_parse_path(text) is Some {
        cbor_parse_path(text)
    } else {
        yaml_parse_of(text)
    }
}

impl Format {
    /// Resolves a format name; an unknown name is reported, naming it.
    pub fn from_name(name: &str) -> (r: Result<Format, String>)
        ensures
            match r {
                Ok(f) => (name@ == "json"@ && f == Format::Json) || (name@ == "cbor"@ && f
                    == Format::Cbor) || (name@ == "yaml"@ && f == Format::Yaml),
                Err(m) => name@ != "json"@ && name@ != "cbor"@ && name@ != "yaml"@ && m@
                    == format_err_msg(name@),
            },
    {
        if str_eq(name, "json") {
            Ok(Format::Json)
        } else if str_eq(name, "cbor") {
            Ok(Format::Cbor)
        } else if str_eq(name, "yaml") {
            Ok(Format::Yaml)
        } else {
            let mut m = String::from_str(name);
            m.append(" is not a supported serialization format");
            Err(m)
        }
    }

    /// Parses through the hex-wrapped binary codec alone.
    pub fn parse_cbor(input: &str) -> (r: Option<Vec<LangStat>>)
        ensures
            match r {
                Some(v) => cbor_parse_path(input@) == Some(report_view(v@)),
                None => cbor_parse_path(input@) is None,
            },
            r is Some ==> forall|k: int| 0 <= k < input@.len() ==> is_hex_char(#[trigger] input@[k]),
            forall|rv: Seq<RowV>|
                input@ == hex_of(cbor_bytes_of(rv)) ==> r is Some && report_view((r->0)@) == rv,
    {
        match hex_decode_str(input) {
            Some(bytes) => match cbor_decode_rows(bytes.as_slice()) {
                Some(rows) => Some(rows_to_stats(rows)),
                None => None,
            },
            None => None,
        }
    }

    /// Parses through the indented-text codec alone.
    pub fn parse_yaml(input: &str) -> (r: Option<Vec<LangStat>>)
        ensures
            match r {
                Some(v) => yaml_parse_of(input@) == Some(report_view(v@)),
                None => yaml_parse_of(input@) is None,
            },
            forall|rv: Seq<RowV>|
                input@ == yaml_text_of(rv) ==> r is Some && report_view((r->0)@) == rv,
    {
        match yaml_decode_rows(input) {
            Some(rows) => Some(rows_to_stats(rows)),
            None => None,
        }
    }

    /// Parses a report from text: empty input is rejected, otherwise the
    /// codecs are tried in the declared order and the first structurally
    /// valid decode wins. The result is exactly `parse_spec` of the text, so
    /// equal inputs always parse equally; and each codec's exact encoder
    /// output parses back to the encoded report (the indented-text image
    /// provided it opens with its dash indicator, as every nonempty report's
    /// does).
    pub fn parse(input: &str) -> (r: Option<Vec<LangStat>>)
        ensures
            input@.len() == 0 ==> r is None,
            match r {
                Some(v) => parse_spec(input@) == Some(report_view(v@)),
                None => parse_spec(input@) is None,
            },
            forall|rv: Seq<RowV>|
                input@.len() > 0 && input@ == json_text_of(rv) ==> r is Some && report_view(
                    (r->0)@,
                ) == rv,
            forall|rv: Seq<RowV>|
                input@ == hex_of(cbor_bytes_of(rv)) && cbor_bytes_of(rv).len() > 0 ==> r is Some
                    && report_view((r->0)@) == rv,
            forall|rv: Seq<RowV>|
                input@ == yaml_text_of(rv) && input@.len() > 0 && input@[0] == '-' ==> r is Some
                    && report_view((r->0)@) == rv,
    {
        if input.is_empty() {
            return None;
        }
        match json_decode_rows(input) {
            Some(rows) => {
                proof {
                    assert forall|rv: Seq<RowV>|
                        input@ == hex_of(cbor_bytes_of(rv)) && cbor_bytes_of(rv).len()
                            > 0 implies false by {
                        lemma_hex_of_chars(cbor_bytes_of(rv));
                        let i = choose|i: int|
                            0 <= i < input@.len() && input@[i] == '[' && (forall|j: int|
                                0 <= j < i ==> json_ws(input@[j]));
                        assert(is_hex_char(input@[i]));
                    }
                    assert forall|rv: Seq<RowV>|
                        input@ == yaml_text_of(rv) && input@.len() > 0 && input@[0]
                            == '-' implies false by {
                        let i = choose|i: int|
                            0 <= i < input@.len() && input@[i] == '[' && (forall|j: int|
                                0 <= j < i ==> json_ws(input@[j]));
                        if i > 0 {
                            assert(json_ws(input@[0]));
                        }
                    }
                }
                return Some(rows_to_stats(rows));
            },
            None => {},
        }
        match Self::parse_cbor(input) {
            Some(stats) => {
                proof {
                    assert forall|rv: Seq<RowV>|
                        input@ == yaml_text_of(rv) && input@.len() > 0 && input@[0]
                            == '-' implies false by {
                        assert(is_hex_char(input@[0]));
                    }
                }
                return Some(stats);
            },
            None => {},
        }
        match Self::parse_yaml(input) {
            Some(stats) => Some(stats),
            None => None,
        }
    }

    /// Prints a report through this codec: always succeeds, and the produced
    /// text is exactly the codec's encoding of the report. The extra facts —
    /// the text is nonempty, the structured-text form opens with its bracket,
    /// a nonempty report's indented-text form opens with its dash, the binary
    /// form's byte string is nonempty — are what lets a caller feed the text
    /// back through `parse`.
    pub fn print(&self, stats: &Vec<LangStat>) -> (r: Result<String, String>)
        ensures
            r is Ok,
            match r {
                Ok(s) => {
                    &&& s@.len() > 0
                    &&& match *self {
                        Format::Json => s@ == json_text_of(report_view(stats@)) && s@[0] == '[',
                        Format::Cbor => s@ == hex_of(cbor_bytes_of(report_view(stats@)))
                            && cbor_bytes_of(report_view(stats@)).len() > 0,
                        Format::Yaml => s@ == yaml_text_of(report_view(stats@)) && (stats@.len()
                            > 0 ==> s@[0] == '-'),
                    }
                },
                Err(_) => true,
            },
    {
        let rows = stats_to_rows(stats);
        let text = match *self {
            Format::Json => json_encode_rows(&rows),
            Format::Cbor => {
                let bytes = cbor_encode_rows(&rows);
                let hexed = hex_encode_bytes(&bytes);
                proof {
                    lemma_hex_of_len(bytes@);
                }
                hexed
            },
            Format::Yaml => {
                let encoded = yaml_encode_rows(&rows);
                proof {
                    assert(rows_view(rows@).len() == rows@.len());
                    assert(report_view(stats@).len() == stats@.len());
                }
                encoded
            },
        };
        Ok(text)
    }
}

/// The round trip the codec layer guarantees: printing a report and parsing
/// the text back yields the same rows, for every codec. (The indented-text
/// codec needs a nonempty report: an empty one prints as a flow sequence,
/// which the structured-text codec may claim first.)
pub fn round_trip(fmt: &Format, stats: &Vec<LangStat>) -> (r: Option<Vec<LangStat>>)
    requires
        *fmt == Format::Yaml ==> stats@.len() > 0,
    ensures
        r is Some,
        report_view((r->0)@) == report_view(stats@),
{
    let text = match fmt.print(stats) {
        Ok(text) => text,
        Err(_) => {
            proof {
                assert(false);
            }
            String::new()
        },
    };
    Format::parse(text.as_str())
}

/// Saturating addition: merged counts cap at the maximum instead of wrapping.
pub open spec fn sat_add(a: u64, b: u64) -> u64 {
    if a + b > u64::MAX {
        u64::MAX
    } else {
        (a + b) as u64
    }
}

/// Two same-language rows combined: the first row's name, the counts added.
pub open spec fn sum_rows(a: RowV, b: RowV) -> RowV {
    (a.0, sat_add(a.1, b.1), sat_add(a.2, b.2), sat_add(a.3, b.3), sat_add(a.4, b.4))
}

/// First row with the given language name, or `-1`.
pub open spec fn row_name_find(rows: Seq<RowV>, name: Seq<char>) -> int
    decreases rows.len(),
{
    if rows.len() == 0 {
        -1
    } else if rows[0].0 == name {
        0
    } else if row_name_find(rows.drop_first(), name) == -1 {
        -1
    } else {
        row_name_find(rows.drop_first(), name) + 1
    }
}

pub proof fn lemma_row_name_find_props(rows: Seq<RowV>, name: Seq<char>)
    ensures
        -1 <= row_name_find(rows, name) < rows.len(),
        row_name_find(rows, name) >= 0 ==> rows[row_name_find(rows, name)].0 == name,
        forall|j: int| 0 <= j < row_name_find(rows, name) ==> (#[trigger] rows[j]).0 != name,
        row_name_find(rows, name) == -1 ==> forall|j: int|
            0 <= j < rows.len() ==> (#[trigger] rows[j]).0 != name,
    decreases rows.len(),
{
    if rows.len() > 0 && rows[0].0 != name {
        lemma_row_name_find_props(rows.drop_first(), name);
        assert forall|j: int| 1 <= j < rows.len() implies rows.drop_first()[j - 1] == rows[j] by {}
    }
}

/// One parsed row folded into an accumulated report: added into the first
/// row with the same language name, appended otherwise.
pub open spec fn add_row(acc: Seq<RowV>, row: RowV) -> Seq<RowV> {
    let j = row_name_find(acc, row.0);
    if j >= 0 {
        acc.update(j, sum_rows(acc[j], row))
    } else {
        acc.push(row)
    }
}

/// Every row of `extra` folded into `acc`, in order.
pub open spec fn merged_rows(acc: Seq<RowV>, extra: Seq<RowV>) -> Seq<RowV>
    decreases extra.len(),
{
    if extra.len() == 0 {
        acc
    } else {
        merged_rows(add_row(acc, extra[0]), extra.drop_first())
    }
}

proof fn lemma_merged_rows_push(acc: Seq<RowV>, s: Seq<RowV>, x: RowV)
    ensures
        merged_rows(acc, s.push(x)) == add_row(merged_rows(acc, s), x),
    decreases s.len(),
{
    let e = s.push(x).drop_first();
    if s.len() == 0 {
        assert(s.push(x)[0] == x);
        assert(merged_rows(acc, s.push(x)) == merged_rows(add_row(acc, x), e));
        assert(e =~= Seq::<RowV>::empty());
        assert(merged_rows(add_row(acc, x), e) == add_row(acc, x));
        assert(merged_rows(acc, s) == acc);
    } else {
        assert(s.push(x)[0] == s[0]);
        assert(merged_rows(acc, s.push(x)) == merged_rows(add_row(acc, s[0]), e));
        assert(e =~= s.drop_first().push(x));
        assert(merged_rows(acc, s) == merged_rows(add_row(acc, s[0]), s.drop_first()));
        lemma_merged_rows_push(add_row(acc, s[0]), s.drop_first(), x);
    }
}

/// First report row carrying this language name.
fn find_name(report: &Vec<LangStat>, name: &str) -> (r: Option<usize>)
    ensures
        match r {
            Some(j) => j == row_name_find(report_view(report@), name@) && j < report@.len(),
            None => row_name_find(report_view(report@), name@) == -1,
        },
{
    let ghost rv = report_view(report@);
    let mut j: usize = 0;
    while j < report.len()
        invariant
            rv == report_view(report@),
            rv.len() == report@.len(),
            0 <= j <= report@.len(),
            forall|k: int| 0 <= k < j ==> (#[trigger] rv[k]).0 != name@,
        decreases report@.len() - j,
    {
        if str_eq(report[j].name.as_str(), name) {
            proof {
                lemma_row_name_find_props(rv, name@);
                assert(rv[j as int].0 == name@);
            }
            return Some(j);
        }
        j += 1;
    }
    proof {
        lemma_row_name_find_props(rv, name@);
        if row_name_find(rv, name@) >= 0 {
            assert(rv[row_name_find(rv, name@)].0 == name@);
            assert(false);
        }
    }
    None
}

/// Folds a parsed report into the accumulated one: counts of an already
/// known language are added (saturating), new languages are appended in
/// order.
pub fn merge_reports(report: &mut Vec<LangStat>, extra: &Vec<LangStat>)
    ensures
        report_view(final(report)@) == merged_rows(
            report_view(old(report)@),
            report_view(extra@),
        ),
{
    let ghost orig = report_view(old(report)@);
    let ghost ev = report_view(extra@);
    let mut i: usize = 0;
    while i < extra.len()
        invariant
            ev == report_view(extra@),
            ev.len() == extra@.len(),
            0 <= i <= extra@.len(),
            report_view(report@) == merged_rows(orig, ev.subrange(0, i as int)),
        decreases extra@.len() - i,
    {
        let ghost pre = ev.subrange(0, i as int);
        let ghost pre1 = ev.subrange(0, i + 1);
        let ghost cur = report_view(report@);
        proof {
            assert(pre1 =~= pre.push(ev[i as int]));
            lemma_merged_rows_push(orig, pre, ev[i as int]);
        }
        let row = &extra[i];
        proof {
            assert(stat_view(extra@[i as int]) == ev[i as int]);
        }
        match find_name(report, row.name.as_str()) {
            Some(j) => {
                let summed = LangStat {
                    name: report[j].name.clone(),
                    files: report[j].files.saturating_add(row.files),
                    code: report[j].code.saturating_add(row.code),
                    comments: report[j].comments.saturating_add(row.comments),
                    blanks: report[j].blanks.saturating_add(row.blanks),
                };
                proof {
                    assert(stat_view(summed) == sum_rows(cur[j as int], ev[i as int]));
                }
                report.set(j, summed);
                proof {
                    assert(report_view(report@) =~= cur.update(
                        j as int,
                        sum_rows(cur[j as int], ev[i as int]),
                    ));
                    assert(report_view(report@) == add_row(cur, ev[i as int]));
                    assert(report_view(report@) == merged_rows(orig, pre1));
                }
            },
            None => {
                let appended = LangStat {
                    name: row.name.clone(),
                    files: row.files,
                    code: row.code,
                    comments: row.comments,
                    blanks: row.blanks,
                };
                report.push(appended);
                proof {
                    assert(report_view(report@) =~= cur.push(ev[i as int]));
                    assert(report_view(report@) == add_row(cur, ev[i as int]));
                    assert(report_view(report@) == merged_rows(orig, pre1));
                }
            },
        }
        i += 1;
    }
    proof {
        assert(ev.subrange(0, ev.len() as int) =~= ev);
    }
}

} // verus!
