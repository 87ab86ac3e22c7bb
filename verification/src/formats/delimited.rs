//! Entries as CSV: a header line, then one line per entry with the key, the
//! value and the display hint. Key and value are written as text, malformed
//! UTF-8 replaced. Import takes the first two fields of each row below the
//! header line and passes over a row that has fewer. `csv` writes each line
//! and splits a text into its rows.

use crate::formats::plan::{lemma_run_stops, run, Step};
use crate::query::pairs_view;
use crate::sled_manager::{entries_view, Entry, KeyValue};
use crate::text::{show, shown};
use vstd::prelude::*;
use vstd::utf8::encode_utf8;

verus! {

#[verifier::external_type_specification]
#[verifier::external_body]
pub struct ExCsvError(csv::Error);

/// The line that a `csv::Writer` that writes into memory writes for a
/// record with the given fields, its end of line included, or `None` where
/// it fails on them.
pub uninterp spec fn csv_line_text(fields: Seq<Seq<char>>) -> Option<Seq<char>>;

/// The rows that a `csv::Reader` finds in a text below its header line, each
/// with its fields, or `None` for a row that it rejects. The reader is a
/// flexible one: it takes rows of any number of fields, whatever the header
/// has.
pub uninterp spec fn csv_rows(text: Seq<char>) -> Seq<Option<Seq<Seq<char>>>>;

/// Writes one record with a `csv::Writer` of its own, by `write_record`, and
/// takes the bytes written by `into_inner`, as text. The contract names the
/// line that comes back, and claims that the call fails exactly where the
/// fields have none: the writer writes into memory, so that nothing but the
/// fields decides.
#[verifier::external_body]
fn csv_line(fields: &Vec<String>) -> (r: Result<String, csv::Error>)
    ensures
        match r {
            Ok(line) => csv_line_text(fields.deep_view()) == Some(line@),
            Err(_) => csv_line_text(fields.deep_view()) is None,
        },
{
    let mut writer = csv::Writer::from_writer(Vec::new());
    writer.write_record(fields)?;
    let bytes = writer.into_inner().map_err(|e| e.into_error())?;
    Ok(String::from_utf8_lossy(&bytes).into_owned())
}

/// The rows as values of the model: the fields of each row that was read,
/// and `None` for each failure.
pub open spec fn rows_view(rows: Seq<Result<Vec<String>, csv::Error>>) -> Seq<
    Option<Seq<Seq<char>>>,
> {
    rows.map_values(
        |row: Result<Vec<String>, csv::Error>|
            match row {
                Ok(fields) => Some(fields.deep_view()),
                Err(_) => None,
            },
    )
}

/// Reads a text with a `csv::Reader` built by `ReaderBuilder` with
/// `flexible(true)`, and collects what `records` hands out, each record as
/// its fields. The contract names the rows that come back.
#[verifier::external_body]
fn csv_records(text: &str) -> (rows: Vec<Result<Vec<String>, csv::Error>>)
    ensures
        rows_view(rows@) == csv_rows(text@),
{
    csv::ReaderBuilder::new().flexible(true).from_reader(text.as_bytes()).records().map(
        |row| row.map(|record| record.iter().map(String::from).collect()),
    ).collect()
}

/// The fields of the header line.
pub open spec fn header() -> Seq<Seq<char>> {
    seq![
        crate::formats::json::key_field(),
        crate::formats::json::value_field(),
        crate::formats::json::type_field(),
    ]
}

/// The fields of the line of an entry.
pub open spec fn fields_of(entry: Entry) -> Seq<Seq<char>> {
    seq![shown(entry.key), shown(entry.value), entry.value_type.label()]
}

/// The lines of the entries, one after the other, or `None` where the
/// writer fails on one of them.
pub open spec fn lines_of(entries: Seq<Entry>) -> Option<Seq<char>>
    decreases entries.len(),
{
    if entries.len() == 0 {
        Some(Seq::empty())
    } else {
        match (lines_of(entries.drop_last()), csv_line_text(fields_of(entries.last()))) {
            (Some(before), Some(line)) => Some(before + line),
            _ => None,
        }
    }
}

/// The CSV text for the entries: the header line, then their lines; or
/// `None` where the writer fails on one of these.
pub open spec fn encoded(entries: Seq<Entry>) -> Option<Seq<char>> {
    match (csv_line_text(header()), lines_of(entries)) {
        (Some(head), Some(lines)) => Some(head + lines),
        _ => None,
    }
}

/// Where the writer fails on one of the first entries, it fails on them all.
proof fn lemma_lines_fail(entries: Seq<Entry>, upto: int)
    requires
        0 <= upto <= entries.len(),
        lines_of(entries.take(upto)) is None,
    ensures
        lines_of(entries) is None,
    decreases entries.len() - upto,
{
    if upto < entries.len() {
        assert(entries.take(upto + 1).drop_last() =~= entries.take(upto));
        lemma_lines_fail(entries, upto + 1);
    } else {
        assert(entries.take(upto) =~= entries);
    }
}

/// What a row asks for: nothing where it has fewer than two fields, else
/// its first field as the key and its second as the value, each as UTF-8;
/// a row that the reader rejects ends the import.
pub open spec fn row_step(row: Option<Seq<Seq<char>>>) -> Step {
    match row {
        None => Step::Stop,
        Some(fields) => if fields.len() >= 2 {
            Step::Put(encode_utf8(fields[0]), encode_utf8(fields[1]))
        } else {
            Step::Skip
        },
    }
}

/// What rows give to import: the pairs of the rows before the first one
/// that the reader rejects, and whether no row was rejected.
pub open spec fn plan_of(rows: Seq<Option<Seq<Seq<char>>>>) -> (Seq<(Seq<u8>, Seq<u8>)>, bool) {
    run(rows.map_values(|row: Option<Seq<Seq<char>>>| row_step(row)))
}

/// What a CSV text gives to import.
pub open spec fn decoded(text: Seq<char>) -> (Seq<(Seq<u8>, Seq<u8>)>, bool) {
    plan_of(csv_rows(text))
}

/// Writes the entries out as a CSV text. Fails exactly where the writer
/// fails on the header or on the line of an entry.
pub fn encode(entries: &Vec<KeyValue>) -> (r: Result<String, csv::Error>)
    ensures
        match r {
            Ok(text) => encoded(entries_view(entries@)) == Some(text@),
            Err(_) => encoded(entries_view(entries@)) is None,
        },
{
    let mut names: Vec<String> = Vec::new();
    names.push("key".to_owned());
    names.push("value".to_owned());
    names.push("value_type".to_owned());
    proof {
        reveal_strlit("key");
        reveal_strlit("value");
        reveal_strlit("value_type");
        assert("key"@ =~= crate::formats::json::key_field());
        assert("value"@ =~= crate::formats::json::value_field());
        assert("value_type"@ =~= crate::formats::json::type_field());
        assert(names.deep_view() =~= header());
    }
    let mut text = match csv_line(&names) {
        Ok(line) => line,
        Err(e) => {
            return Err(e);
        },
    };
    let ghost head = text@;
    let ghost mut body: Seq<char> = Seq::empty();
    let mut i: usize = 0;
    assert(entries_view(entries@).take(0) =~= Seq::empty());
    assert(head + body =~= head);
    while i < entries.len()
        invariant
            i <= entries.len(),
            csv_line_text(header()) == Some(head),
            lines_of(entries_view(entries@).take(i as int)) == Some(body),
            text@ == head + body,
        decreases entries.len() - i,
    {
        let mut fields: Vec<String> = Vec::new();
        fields.push(show(entries[i].key.as_slice()));
        fields.push(show(entries[i].value.as_slice()));
        fields.push(entries[i].value_type.name().to_owned());
        proof {
            let done = entries_view(entries@).take(i as int);
            let next = entries_view(entries@).take(i + 1);
            assert(fields.deep_view() =~= fields_of(entries[i as int]@));
            assert(next.drop_last() =~= done);
            assert(next.last() == entries[i as int]@);
        }
        match csv_line(&fields) {
            Ok(line) => {
                proof {
                    assert(text@ + line@ =~= head + (body + line@));
                    body = body + line@;
                }
                text = text.concat(line.as_str());
            },
            Err(e) => {
                proof {
                    lemma_lines_fail(entries_view(entries@), i + 1);
                }
                return Err(e);
            },
        }
        i += 1;
    }
    assert(entries_view(entries@).take(i as int) =~= entries_view(entries@));
    Ok(text)
}

/// Takes from the rows what they give to import: the pairs, and the
/// description of the failure that ended the reading, if one did.
pub fn import_rows(rows: &Vec<Result<Vec<String>, csv::Error>>) -> (r: (
    Vec<(Vec<u8>, Vec<u8>)>,
    Option<String>,
))
    ensures
        pairs_view(r.0@) == plan_of(rows_view(rows@)).0,
        r.1 is None <==> plan_of(rows_view(rows@)).1,
{
    let ghost named = rows_view(rows@);
    let ghost steps = named.map_values(|row: Option<Seq<Seq<char>>>| row_step(row));
    let mut pairs: Vec<(Vec<u8>, Vec<u8>)> = Vec::new();
    let mut done: usize = 0;
    assert(steps.take(0) =~= Seq::empty());
    while done < rows.len()
        invariant
            done <= rows.len(),
            named == rows_view(rows@),
            steps == named.map_values(|row: Option<Seq<Seq<char>>>| row_step(row)),
            pairs_view(pairs@) == run(steps.take(done as int)).0,
            run(steps.take(done as int)).1,
        decreases rows.len() - done,
    {
        let ghost seen = steps.take(done as int);
        let ghost next = steps.take(done + 1);
        proof {
            assert(next.drop_last() =~= seen);
            assert(next.last() == row_step(named[done as int]));
        }
        match &rows[done] {
            Ok(fields) => {
                if fields.len() >= 2 {
                    let key = fields[0].as_str().as_bytes_vec();
                    let held = fields[1].as_str().as_bytes_vec();
                    let ghost earlier = pairs@;
                    pairs.push((key, held));
                    proof {
                        assert(fields.deep_view()[0] == fields[0]@);
                        assert(fields.deep_view()[1] == fields[1]@);
                        assert(pairs_view(pairs@) =~= pairs_view(earlier).push(
                            (encode_utf8(fields[0]@), encode_utf8(fields[1]@)),
                        ));
                    }
                }
            },
            Err(e) => {
                proof {
                    lemma_run_stops(steps, done as int);
                }
                return (pairs, Some(e.to_string()));
            },
        }
        done += 1;
    }
    assert(steps.take(done as int) =~= steps);
    (pairs, None)
}

/// Reads what a CSV text gives to import: the pairs, and the description of
/// the failure that ended the reading, if one did.
pub fn decode(text: &str) -> (r: (Vec<(Vec<u8>, Vec<u8>)>, Option<String>))
    ensures
        pairs_view(r.0@) == decoded(text@).0,
        r.1 is None <==> decoded(text@).1,
{
    let rows = csv_records(text);
    import_rows(&rows)
}

} // verus!
