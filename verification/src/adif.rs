//! The ADIF codec: contact records to text and back.
//!
//! A record is written as a run of fields, each `<name:length>value`, and
//! closed by `<eor>`. The length counts the characters of the value, and
//! reading goes by that count alone: a value may hold any character.
//!
//! The first half of this module says what the format means, over plain
//! sequences of characters. The second half is the code, proved to compute
//! exactly that.

use crate::calendar::{Date, DateView, Time, TimeView};
use crate::decimal::{
    all_digits, decimal_text, decimal_value, is_decimal, parse_decimal, push_decimal,
};
use crate::error::{ErrorView, QrzLogbookError, QrzLogbookResult};
use crate::fields::{lookup, put, without, FieldTable};
use crate::frequency::{is_float_text, Frequency};
use crate::models::{opt_str, option_str, QsoRecord, QsoRecordView};
use crate::text::{
    lowercase, push_text, string_of, text_of, to_chars, to_lowercase, trim, trim_bounds,
};
use vstd::prelude::*;
use vstd::string::*;

verus! {

/// The ADIF reader and writer.
pub struct AdifParser;

/// A field as it stands in the text: its name as written and its value.
pub type Token = (Seq<char>, Seq<char>);

/// The result of reading: what was read, or why reading failed.
pub type Parsed<T> = Result<T, Seq<char>>;

/// The text of a parse error; empty for an error of another kind.
pub open spec fn failure_text(e: ErrorView) -> Seq<char> {
    match e {
        ErrorView::AdifParse(msg) => msg,
        _ => Seq::empty(),
    }
}

// ---------------------------------------------------------------------------
// Dates and times
// ---------------------------------------------------------------------------

/// The date that eight characters `YYYYMMDD` stand for.
pub open spec fn date_of_text(t: Seq<char>) -> Parsed<DateView> {
    if t.len() != 8 {
        Err("Date must be 8 characters (YYYYMMDD)"@)
    } else if !all_digits(t.subrange(0, 4)) {
        Err("Invalid year in date"@)
    } else if !all_digits(t.subrange(4, 6)) {
        Err("Invalid month in date"@)
    } else if !all_digits(t.subrange(6, 8)) {
        Err("Invalid day in date"@)
    } else {
        let date = DateView {
            year: decimal_value(t.subrange(0, 4)) as int,
            month: decimal_value(t.subrange(4, 6)) as int,
            day: decimal_value(t.subrange(6, 8)) as int,
        };
        if date.is_valid() {
            Ok(date)
        } else {
            Err("Invalid date"@)
        }
    }
}

/// A time of four characters with the seconds `00` added; any other text
/// as it is.
pub open spec fn with_seconds(t: Seq<char>) -> Seq<char> {
    if t.len() == 4 {
        t + seq!['0', '0']
    } else {
        t
    }
}

/// The time that `HHMM` or `HHMMSS` stands for.
pub open spec fn time_of_text(t: Seq<char>) -> Parsed<TimeView> {
    let full = with_seconds(t);
    if full.len() != 6 {
        Err("Time must be 4 or 6 characters (HHMM or HHMMSS)"@)
    } else if !all_digits(full.subrange(0, 2)) {
        Err("Invalid hour in time"@)
    } else if !all_digits(full.subrange(2, 4)) {
        Err("Invalid minute in time"@)
    } else if !all_digits(full.subrange(4, 6)) {
        Err("Invalid second in time"@)
    } else {
        let time = TimeView {
            hour: decimal_value(full.subrange(0, 2)) as int,
            minute: decimal_value(full.subrange(2, 4)) as int,
            second: decimal_value(full.subrange(4, 6)) as int,
        };
        if time.is_valid() {
            Ok(time)
        } else {
            Err("Invalid time"@)
        }
    }
}

/// The time of an optional field: none where the field is absent.
pub open spec fn optional_time_of(o: Option<Seq<char>>) -> Parsed<Option<TimeView>> {
    match o {
        None => Ok(None),
        Some(t) => match time_of_text(t) {
            Ok(time) => Ok(Some(time)),
            Err(msg) => Err(msg),
        },
    }
}

// ---------------------------------------------------------------------------
// Fields to record
// ---------------------------------------------------------------------------

/// The place of an attribute in the order of writing; thirteen for the name
/// of any other field.
pub open spec fn attribute_rank(name: Seq<char>) -> int {
    if name == "call"@ {
        0
    } else if name == "station_callsign"@ {
        1
    } else if name == "qso_date"@ {
        2
    } else if name == "time_on"@ {
        3
    } else if name == "band"@ {
        4
    } else if name == "mode"@ {
        5
    } else if name == "time_off"@ {
        6
    } else if name == "freq"@ {
        7
    } else if name == "rst_sent"@ {
        8
    } else if name == "rst_rcvd"@ {
        9
    } else if name == "qth"@ {
        10
    } else if name == "name"@ {
        11
    } else if name == "comment"@ {
        12
    } else {
        13
    }
}

/// The thirteen attribute names are thirteen different texts.
pub proof fn lemma_attribute_names()
    ensures
        attribute_rank("call"@) == 0,
        attribute_rank("station_callsign"@) == 1,
        attribute_rank("qso_date"@) == 2,
        attribute_rank("time_on"@) == 3,
        attribute_rank("band"@) == 4,
        attribute_rank("mode"@) == 5,
        attribute_rank("time_off"@) == 6,
        attribute_rank("freq"@) == 7,
        attribute_rank("rst_sent"@) == 8,
        attribute_rank("rst_rcvd"@) == 9,
        attribute_rank("qth"@) == 10,
        attribute_rank("name"@) == 11,
        attribute_rank("comment"@) == 12,
{
    reveal_strlit("call");
    reveal_strlit("station_callsign");
    reveal_strlit("band");
    reveal_strlit("mode");
    reveal_strlit("qso_date");
    reveal_strlit("time_on");
    reveal_strlit("time_off");
    reveal_strlit("freq");
    reveal_strlit("rst_sent");
    reveal_strlit("rst_rcvd");
    reveal_strlit("qth");
    reveal_strlit("name");
    reveal_strlit("comment");
    assert("call"@.len() == 4 && "call"@[0] == 'c');
    assert("station_callsign"@.len() == 16 && "station_callsign"@[0] == 's');
    assert("band"@.len() == 4 && "band"@[0] == 'b');
    assert("mode"@.len() == 4 && "mode"@[0] == 'm');
    assert("qso_date"@.len() == 8 && "qso_date"@[0] == 'q');
    assert("time_on"@.len() == 7 && "time_on"@[0] == 't');
    assert("time_off"@.len() == 8 && "time_off"@[0] == 't');
    assert("freq"@.len() == 4 && "freq"@[0] == 'f');
    assert("rst_sent"@.len() == 8 && "rst_sent"@[0] == 'r');
    assert("rst_rcvd"@.len() == 8 && "rst_rcvd"@[0] == 'r');
    assert("qth"@.len() == 3 && "qth"@[0] == 'q');
    assert("name"@.len() == 4 && "name"@[0] == 'n');
    assert("comment"@.len() == 7 && "comment"@[0] == 'c');
    assert("rst_sent"@[4] == 's' && "rst_rcvd"@[4] == 'r');
}

/// The fields of `es` that a record has no attribute for, in their order.
pub open spec fn unknown_fields(es: Seq<Token>) -> Seq<Token>
    decreases es.len(),
{
    if es.len() == 0 {
        Seq::empty()
    } else if attribute_rank(es.last().0) == 13 {
        unknown_fields(es.drop_last()).push(es.last())
    } else {
        unknown_fields(es.drop_last())
    }
}

/// A table that holds none of the thirteen attributes has only unknown
/// fields.
pub proof fn lemma_unknown_all(es: Seq<Token>)
    requires
        forall|i: int| 0 <= i < es.len() ==> attribute_rank(#[trigger] es[i].0) == 13,
    ensures
        unknown_fields(es) == es,
    decreases es.len(),
{
    if es.len() > 0 {
        let init = es.drop_last();
        assert forall|i: int| 0 <= i < init.len() implies attribute_rank(#[trigger] init[i].0)
            == 13 by {
            assert(init[i] == es[i]);
        }
        lemma_unknown_all(init);
        assert(init.push(es.last()) == es);
    }
}

/// Taking an attribute out of a table leaves its unknown fields as they
/// are.
pub proof fn lemma_unknown_remove(es: Seq<Token>, p: int)
    requires
        0 <= p < es.len(),
        attribute_rank(es[p].0) < 13,
    ensures
        unknown_fields(es.remove(p)) == unknown_fields(es),
    decreases es.len(),
{
    let init = es.drop_last();
    if p == es.len() - 1 {
        assert(es.remove(p) == init);
    } else {
        lemma_unknown_remove(init, p);
        assert(es.remove(p).drop_last() == init.remove(p));
        assert(es.remove(p).last() == es.last());
    }
}

/// The same, said of a name.
pub proof fn lemma_unknown_without(es: Seq<Token>, name: Seq<char>)
    requires
        attribute_rank(name) < 13,
    ensures
        unknown_fields(without(es, name)) == unknown_fields(es),
{
    crate::fields::lemma_position(es, name);
    if crate::fields::position(es, name) < es.len() {
        lemma_unknown_remove(es, crate::fields::position(es, name));
    }
}

/// The record that a table of fields stands for, or the first thing that is
/// wrong with the table.
pub open spec fn record_of_fields(es: Seq<Token>) -> Parsed<QsoRecordView> {
    if lookup(es, "call"@) is None {
        Err("Missing call field"@)
    } else if lookup(es, "station_callsign"@) is None {
        Err("Missing station_callsign field"@)
    } else if lookup(es, "band"@) is None {
        Err("Missing band field"@)
    } else if lookup(es, "mode"@) is None {
        Err("Missing mode field"@)
    } else if lookup(es, "qso_date"@) is None {
        Err("Missing qso_date field"@)
    } else {
        match date_of_text(lookup(es, "qso_date"@)->0) {
            Err(msg) => Err(msg),
            Ok(qso_date) => if lookup(es, "time_on"@) is None {
                Err("Missing time_on field"@)
            } else {
                match time_of_text(lookup(es, "time_on"@)->0) {
                    Err(msg) => Err(msg),
                    Ok(time_on) => match optional_time_of(lookup(es, "time_off"@)) {
                        Err(msg) => Err(msg),
                        Ok(time_off) => if lookup(es, "freq"@) matches Some(f) && !is_float_text(
                            f,
                        ) {
                            Err("Invalid frequency format"@)
                        } else {
                            Ok(
                                QsoRecordView {
                                    call: lookup(es, "call"@)->0,
                                    station_callsign: lookup(es, "station_callsign"@)->0,
                                    qso_date,
                                    time_on,
                                    time_off,
                                    band: lookup(es, "band"@)->0,
                                    mode: lookup(es, "mode"@)->0,
                                    freq: lookup(es, "freq"@),
                                    rst_sent: lookup(es, "rst_sent"@),
                                    rst_rcvd: lookup(es, "rst_rcvd"@),
                                    qth: lookup(es, "qth"@),
                                    name: lookup(es, "name"@),
                                    comment: lookup(es, "comment"@),
                                    additional_fields: unknown_fields(es),
                                },
                            )
                        },
                    },
                }
            },
        }
    }
}

// ---------------------------------------------------------------------------
// Text to fields
// ---------------------------------------------------------------------------

/// The end of a tag's name: the first `:` or `>` at or after `from`, or the
/// end of the text.
pub open spec fn name_end(s: Seq<char>, from: int) -> int
    decreases s.len() - from,
{
    if 0 <= from < s.len() && s[from] != ':' && s[from] != '>' {
        name_end(s, from + 1)
    } else {
        from
    }
}

/// The end of a tag: the first `>` at or after `from`, or the end of the
/// text.
pub open spec fn tag_end(s: Seq<char>, from: int) -> int
    decreases s.len() - from,
{
    if 0 <= from < s.len() && s[from] != '>' {
        tag_end(s, from + 1)
    } else {
        from
    }
}

/// `tokens` with `first` in front, where the rest was read without error.
pub open spec fn after(first: Seq<Token>, rest: Parsed<Seq<Token>>) -> Parsed<Seq<Token>> {
    match rest {
        Ok(tokens) => Ok(first + tokens),
        Err(msg) => Err(msg),
    }
}

/// The fields that stand in `s`, in order, or the first fault.
///
/// Characters outside a tag are passed over. A tag without a length, such
/// as a stray marker, is passed over too. A tag that the text ends in the
/// middle of ends the reading without a fault.
pub open spec fn tokens_of(s: Seq<char>) -> Parsed<Seq<Token>>
    decreases s.len(),
{
    if s.len() == 0 {
        Ok(Seq::empty())
    } else if s[0] != '<' {
        tokens_of(s.skip(1))
    } else {
        let colon = name_end(s, 1);
        if !(1 <= colon < s.len()) {
            Ok(Seq::empty())
        } else if s[colon] == '>' {
            tokens_of(s.skip(colon + 1))
        } else {
            let close = tag_end(s, colon + 1);
            if !(colon < close < s.len()) {
                Ok(Seq::empty())
            } else {
                let digits = s.subrange(colon + 1, close);
                if !is_decimal(digits) {
                    Err("Invalid length: "@ + digits)
                } else if close + 1 + decimal_value(digits) > s.len() {
                    Err("Field value extends beyond record"@)
                } else {
                    let stop = close + 1 + decimal_value(digits);
                    after(
                        seq![(s.subrange(1, colon), s.subrange(close + 1, stop))],
                        tokens_of(s.skip(stop)),
                    )
                }
            }
        }
    }
}

/// The table that a run of fields fills: names in lowercase, and of two
/// fields of one name the later value in the place of the earlier.
pub open spec fn table_of(tokens: Seq<Token>) -> Seq<Token>
    decreases tokens.len(),
{
    if tokens.len() == 0 {
        Seq::empty()
    } else {
        put(table_of(tokens.drop_last()), lowercase(tokens.last().0), tokens.last().1)
    }
}

/// The record that one trimmed stretch of text between two markers holds.
pub open spec fn record_of_text(s: Seq<char>) -> Parsed<QsoRecordView> {
    match tokens_of(s) {
        Err(msg) => Err(msg),
        Ok(tokens) => record_of_fields(table_of(tokens)),
    }
}

// ---------------------------------------------------------------------------
// Text to records
// ---------------------------------------------------------------------------

/// The end-of-record marker as it is written.
pub open spec fn marker() -> Seq<char> {
    seq!['<', 'e', 'o', 'r', '>']
}

/// An end-of-record marker stands at place `i`, in small or capital letters.
pub open spec fn marker_at(s: Seq<char>, i: int) -> bool {
    &&& 0 <= i
    &&& i + 5 <= s.len()
    &&& s[i] == '<'
    &&& (s[i + 1] == 'e' || s[i + 1] == 'E')
    &&& (s[i + 2] == 'o' || s[i + 2] == 'O')
    &&& (s[i + 3] == 'r' || s[i + 3] == 'R')
    &&& s[i + 4] == '>'
}

/// The place of the first marker at or after `from`, or the length of the
/// text if there is none.
pub open spec fn next_marker(s: Seq<char>, from: int) -> int
    decreases s.len() - from,
{
    if from < 0 || from >= s.len() {
        s.len() as int
    } else if marker_at(s, from) {
        from
    } else {
        next_marker(s, from + 1)
    }
}

/// `next_marker` finds the first marker at or after `from` and no other.
pub proof fn lemma_next_marker(s: Seq<char>, from: int)
    requires
        0 <= from <= s.len(),
    ensures
        from <= next_marker(s, from) <= s.len(),
        next_marker(s, from) < s.len() ==> marker_at(s, next_marker(s, from)),
        forall|i: int| from <= i < next_marker(s, from) ==> !marker_at(s, i),
    decreases s.len() - from,
{
    if from < s.len() && !marker_at(s, from) {
        lemma_next_marker(s, from + 1);
    }
}

/// What one stretch of text between two markers adds to the result: no
/// record where it is blank, else the record it holds.
pub open spec fn stretch_records(part: Seq<char>) -> Parsed<Seq<QsoRecordView>> {
    let body = trim(part);
    if body.len() == 0 {
        Ok(Seq::empty())
    } else {
        match record_of_text(body) {
            Ok(record) => Ok(seq![record]),
            Err(msg) => Err(msg),
        }
    }
}

/// The records of two results one after the other, or the first fault.
pub open spec fn chain(
    first: Parsed<Seq<QsoRecordView>>,
    rest: Parsed<Seq<QsoRecordView>>,
) -> Parsed<Seq<QsoRecordView>> {
    match first {
        Err(msg) => Err(msg),
        Ok(a) => match rest {
            Err(msg) => Err(msg),
            Ok(b) => Ok(a + b),
        },
    }
}

/// What ADIF text means: the records between its markers, in order, or the
/// fault of the first stretch that has one.
pub open spec fn decode(s: Seq<char>) -> Parsed<Seq<QsoRecordView>>
    decreases s.len(),
{
    let cut = next_marker(s, 0);
    if 0 <= cut && cut + 5 <= s.len() {
        chain(stretch_records(s.take(cut)), decode(s.skip(cut + 5)))
    } else {
        stretch_records(s)
    }
}

// ---------------------------------------------------------------------------
// Record to text
// ---------------------------------------------------------------------------

/// One field as it is written: `<name:length>value`.
pub open spec fn field_text(name: Seq<char>, value: Seq<char>) -> Seq<char> {
    seq!['<'] + name + seq![':'] + decimal_text(value.len()) + seq!['>'] + value
}

/// A run of fields as it is written.
pub open spec fn fields_text(fields: Seq<Token>) -> Seq<char>
    decreases fields.len(),
{
    if fields.len() == 0 {
        Seq::empty()
    } else {
        fields_text(fields.drop_last()) + field_text(fields.last().0, fields.last().1)
    }
}

/// An attribute of a record as it may be written: its name, and its text
/// where the record has it.
pub type Slot = (Seq<char>, Option<Seq<char>>);

/// The field of an optional attribute: none where the attribute is absent.
pub open spec fn optional_field(name: Seq<char>, value: Option<Seq<char>>) -> Seq<Token> {
    match value {
        Some(v) => seq![(name, v)],
        None => Seq::empty(),
    }
}

/// The text of an optional time.
pub open spec fn optional_compact(time: Option<TimeView>) -> Option<Seq<char>> {
    match time {
        Some(t) => Some(t.compact()),
        None => None,
    }
}

/// The thirteen attributes of a record in the order of writing: the six
/// mandatory ones, then the optional ones.
pub open spec fn attribute_slots(r: QsoRecordView) -> Seq<Slot> {
    seq![
        ("call"@, Some(r.call)),
        ("station_callsign"@, Some(r.station_callsign)),
        ("qso_date"@, Some(r.qso_date.compact())),
        ("time_on"@, Some(r.time_on.compact())),
        ("band"@, Some(r.band)),
        ("mode"@, Some(r.mode)),
        ("time_off"@, optional_compact(r.time_off)),
        ("freq"@, r.freq),
        ("rst_sent"@, r.rst_sent),
        ("rst_rcvd"@, r.rst_rcvd),
        ("qth"@, r.qth),
        ("name"@, r.name),
        ("comment"@, r.comment),
    ]
}

/// The fields of the attributes that are there, in the order of `slots`.
pub open spec fn present(slots: Seq<Slot>) -> Seq<Token>
    decreases slots.len(),
{
    if slots.len() == 0 {
        Seq::empty()
    } else {
        present(slots.drop_last()) + optional_field(slots.last().0, slots.last().1)
    }
}

/// `fields` with every name in lowercase.
pub open spec fn lowercase_names(fields: Seq<Token>) -> Seq<Token> {
    Seq::new(fields.len(), |i: int| (lowercase(fields[i].0), fields[i].1))
}

/// The fields that a record is written with, in the order of writing: the
/// attributes that are there, then the additional fields in the order of
/// their table.
pub open spec fn emitted_fields(r: QsoRecordView) -> Seq<Token> {
    present(attribute_slots(r)) + lowercase_names(r.additional_fields)
}

/// The text of a record: its fields and the marker.
pub open spec fn encode(r: QsoRecordView) -> Seq<char> {
    fields_text(emitted_fields(r)) + marker()
}

// ---------------------------------------------------------------------------
// The code
// ---------------------------------------------------------------------------

/// The outcome `r` of reading is what `expected` says: the value read, or a
/// parse error with the text of the fault.
pub open spec fn reads_as<T: View>(r: QrzLogbookResult<T>, expected: Parsed<T::V>) -> bool {
    match r {
        Ok(v) => expected == Ok::<T::V, Seq<char>>(v@),
        Err(e) => e@ is AdifParse && expected == Err::<T::V, Seq<char>>(failure_text(e@)),
    }
}

/// Reads a date written as `YYYYMMDD`.
pub fn parse_date(date_str: &str) -> (r: QrzLogbookResult<Date>)
    ensures
        reads_as(r, date_of_text(date_str@)),
{
    let chars = to_chars(date_str);
    if chars.len() != 8 {
        return Err(QrzLogbookError::adif_parse("Date must be 8 characters (YYYYMMDD)"));
    }
    proof {
        crate::decimal::lemma_four_digit_value(chars@.subrange(0, 4));
        crate::decimal::lemma_two_digit_value(chars@.subrange(4, 6));
        crate::decimal::lemma_two_digit_value(chars@.subrange(6, 8));
    }
    let year = match parse_decimal(&chars, 0, 4) {
        Some(v) => v,
        None => {
            return Err(QrzLogbookError::adif_parse("Invalid year in date"));
        },
    };
    let month = match parse_decimal(&chars, 4, 6) {
        Some(v) => v,
        None => {
            return Err(QrzLogbookError::adif_parse("Invalid month in date"));
        },
    };
    let day = match parse_decimal(&chars, 6, 8) {
        Some(v) => v,
        None => {
            return Err(QrzLogbookError::adif_parse("Invalid day in date"));
        },
    };
    match Date::from_ymd_opt(year as i32, month as u32, day as u32) {
        Some(date) => Ok(date),
        None => Err(QrzLogbookError::adif_parse("Invalid date")),
    }
}

/// Reads a time written as `HHMM` or `HHMMSS`.
pub fn parse_time(time_str: &str) -> (r: QrzLogbookResult<Time>)
    ensures
        reads_as(r, time_of_text(time_str@)),
{
    let mut chars = to_chars(time_str);
    if chars.len() == 4 {
        chars.push('0');
        chars.push('0');
        assert(chars@ == time_str@ + seq!['0', '0']);
    }
    assert(chars@ == with_seconds(time_str@));
    if chars.len() != 6 {
        return Err(
            QrzLogbookError::adif_parse("Time must be 4 or 6 characters (HHMM or HHMMSS)"),
        );
    }
    proof {
        crate::decimal::lemma_two_digit_value(chars@.subrange(0, 2));
        crate::decimal::lemma_two_digit_value(chars@.subrange(2, 4));
        crate::decimal::lemma_two_digit_value(chars@.subrange(4, 6));
    }
    let hour = match parse_decimal(&chars, 0, 2) {
        Some(v) => v,
        None => {
            return Err(QrzLogbookError::adif_parse("Invalid hour in time"));
        },
    };
    let minute = match parse_decimal(&chars, 2, 4) {
        Some(v) => v,
        None => {
            return Err(QrzLogbookError::adif_parse("Invalid minute in time"));
        },
    };
    let second = match parse_decimal(&chars, 4, 6) {
        Some(v) => v,
        None => {
            return Err(QrzLogbookError::adif_parse("Invalid second in time"));
        },
    };
    match Time::from_hms_opt(hour as u32, minute as u32, second as u32) {
        Some(time) => Ok(time),
        None => Err(QrzLogbookError::adif_parse("Invalid time")),
    }
}

/// Writes a time as `HHMM`.
pub fn format_time(time: &Time) -> (s: String)
    ensures
        s@ == time@.compact(),
{
    time.compact()
}

/// Takes one field out of a table; the other fields stay as they are.
fn take_field(table: &mut FieldTable, name: &str) -> (r: Option<String>)
    ensures
        final(table)@ == without(old(table)@, name@),
        crate::models::opt_text(r) == lookup(old(table)@, name@),
        lookup(final(table)@, name@) is None,
        attribute_rank(name@) < 13 ==> unknown_fields(final(table)@) == unknown_fields(
            old(table)@,
        ),
        forall|other: Seq<char>|
            other != name@ ==> #[trigger] lookup(final(table)@, other) == lookup(
                old(table)@,
                other,
            ),
{
    let _ = table.len();
    let r = table.remove(name);
    proof {
        crate::fields::lemma_without(old(table)@, name@, name@);
        if attribute_rank(name@) < 13 {
            lemma_unknown_without(old(table)@, name@);
        }
        assert forall|other: Seq<char>| other != name@ implies #[trigger] lookup(
            table@,
            other,
        ) == lookup(old(table)@, other) by {
            crate::fields::lemma_without(old(table)@, name@, other);
        }
    }
    r
}

fn scan_name(chars: &Vec<char>, base: usize, from: usize, to: usize) -> (end: usize)
    requires
        base <= from <= to <= chars.len(),
    ensures
        from <= end <= to,
        end - base == name_end(chars@.subrange(base as int, to as int), from - base),
{
    let ghost s = chars@.subrange(base as int, to as int);
    let mut i: usize = from;
    while i < to && chars[i] != ':' && chars[i] != '>'
        invariant
            base <= from <= i <= to <= chars.len(),
            s == chars@.subrange(base as int, to as int),
            name_end(s, from - base) == name_end(s, i - base),
        decreases to - i,
    {
        assert(s[i - base] == chars@[i as int]);
        i += 1;
    }
    proof {
        if i < to {
            assert(s[i - base] == chars@[i as int]);
        }
    }
    i
}

fn scan_tag(chars: &Vec<char>, base: usize, from: usize, to: usize) -> (end: usize)
    requires
        base <= from <= to <= chars.len(),
    ensures
        from <= end <= to,
        end - base == tag_end(chars@.subrange(base as int, to as int), from - base),
{
    let ghost s = chars@.subrange(base as int, to as int);
    let mut i: usize = from;
    while i < to && chars[i] != '>'
        invariant
            base <= from <= i <= to <= chars.len(),
            s == chars@.subrange(base as int, to as int),
            tag_end(s, from - base) == tag_end(s, i - base),
        decreases to - i,
    {
        assert(s[i - base] == chars@[i as int]);
        i += 1;
    }
    proof {
        if i < to {
            assert(s[i - base] == chars@[i as int]);
        }
    }
    i
}

/// What reading the fields of a stretch came to: the table they fill, or
/// the fault.
pub open spec fn fills(r: QrzLogbookResult<FieldTable>, expected: Parsed<Seq<Token>>) -> bool {
    match r {
        Ok(table) => expected is Ok && table@ == table_of(expected->Ok_0),
        Err(e) => e@ is AdifParse && expected == Err::<Seq<Token>, Seq<char>>(failure_text(e@)),
    }
}

/// Reads the fields of `chars[from..to]` into a table.
pub fn read_fields(chars: &Vec<char>, from: usize, to: usize) -> (r: QrzLogbookResult<FieldTable>)
    requires
        from <= to <= chars.len(),
    ensures
        fills(r, tokens_of(chars@.subrange(from as int, to as int))),
{
    let ghost s = chars@.subrange(from as int, to as int);
    let mut table = FieldTable::new();
    let ghost mut done: Seq<Token> = Seq::empty();
    let mut pos: usize = from;
    while pos < to
        invariant
            from <= pos <= to <= chars.len(),
            s == chars@.subrange(from as int, to as int),
            table@ == table_of(done),
            tokens_of(s) == after(done, tokens_of(chars@.subrange(pos as int, to as int))),
        decreases to - pos,
    {
        let ghost cur = chars@.subrange(pos as int, to as int);
        assert(cur[0] == chars@[pos as int]);
        if chars[pos] != '<' {
            assert(cur.skip(1) == chars@.subrange(pos + 1, to as int));
            pos += 1;
            continue ;
        }
        let colon = scan_name(chars, pos, pos + 1, to);
        if colon >= to {
            assert(chars@.subrange(to as int, to as int).len() == 0);
            pos = to;
            continue ;
        }
        assert(cur[colon - pos] == chars@[colon as int]);
        if chars[colon] == '>' {
            assert(cur.skip(colon - pos + 1) == chars@.subrange(colon + 1, to as int));
            pos = colon + 1;
            continue ;
        }
        let close = scan_tag(chars, pos, colon + 1, to);
        if close >= to {
            assert(chars@.subrange(to as int, to as int).len() == 0);
            pos = to;
            continue ;
        }
        let ghost digits = cur.subrange(colon - pos + 1, close - pos);
        assert(digits == chars@.subrange(colon + 1, close as int));
        if !crate::decimal::numeral(chars, colon + 1, close) {
            let shown = text_of(chars, colon + 1, close);
            let mut msg = "Invalid length: ".to_owned();
            msg.append(shown.as_str());
            return Err(QrzLogbookError::AdifParse(msg));
        }
        let room = to - close - 1;
        let length: usize = match parse_decimal(chars, colon + 1, close) {
            Some(v) => {
                if v > room as u64 {
                    return Err(QrzLogbookError::adif_parse("Field value extends beyond record"));
                }
                v as usize
            },
            None => {
                return Err(QrzLogbookError::adif_parse("Field value extends beyond record"));
            },
        };
        let stop = close + 1 + length;
        let name = text_of(chars, pos + 1, colon);
        let value = text_of(chars, close + 1, stop);
        assert(name@ == cur.subrange(1, colon - pos));
        assert(value@ == cur.subrange(close - pos + 1, stop - pos));
        assert(cur.skip(stop - pos) == chars@.subrange(stop as int, to as int));
        let ghost token = (name@, value@);
        let ghost rest = tokens_of(chars@.subrange(stop as int, to as int));
        assert(tokens_of(cur) == after(seq![token], rest));
        proof {
            assert(done.push(token).drop_last() == done);
            match rest {
                Ok(ts) => {
                    assert(done + (seq![token] + ts) == done.push(token) + ts);
                },
                Err(_) => {},
            }
        }
        let key = to_lowercase(name.as_str());
        let _ = table.insert(key, value);
        proof {
            done = done.push(token);
        }
        pos = stop;
    }
    proof {
        assert(chars@.subrange(to as int, to as int).len() == 0);
        assert(done + Seq::<Token>::empty() == done);
    }
    Ok(table)
}

/// Finds the first marker at or after `base`.
pub(crate) fn find_marker(chars: &Vec<char>, base: usize) -> (cut: usize)
    requires
        base <= chars.len(),
    ensures
        base <= cut <= chars.len(),
        cut - base == next_marker(chars@.skip(base as int), 0),
{
    let ghost s = chars@.skip(base as int);
    let n = chars.len();
    let mut i: usize = base;
    while n - i >= 5
        invariant
            base <= i <= n,
            n == chars.len(),
            s == chars@.skip(base as int),
            next_marker(s, 0) == next_marker(s, i - base),
        decreases n - i,
    {
        proof {
            assert(s[i - base] == chars@[i as int]);
            assert(s[i - base + 1] == chars@[i + 1]);
            assert(s[i - base + 2] == chars@[i + 2]);
            assert(s[i - base + 3] == chars@[i + 3]);
            assert(s[i - base + 4] == chars@[i + 4]);
        }
        if chars[i] == '<' && (chars[i + 1] == 'e' || chars[i + 1] == 'E') && (chars[i + 2] == 'o'
            || chars[i + 2] == 'O') && (chars[i + 3] == 'r' || chars[i + 3] == 'R') && chars[i
            + 4] == '>' {
            return i;
        }
        i += 1;
    }
    proof {
        lemma_next_marker(s, i - base);
    }
    n
}

/// The views of a list of records.
pub open spec fn record_views(qsos: Seq<QsoRecord>) -> Seq<QsoRecordView> {
    Seq::new(qsos.len(), |i: int| qsos[i]@)
}

/// The outcome `r` of reading a whole text is what `expected` says.
pub open spec fn records_read(
    r: QrzLogbookResult<Vec<QsoRecord>>,
    expected: Parsed<Seq<QsoRecordView>>,
) -> bool {
    match r {
        Ok(qsos) => expected == Ok::<Seq<QsoRecordView>, Seq<char>>(record_views(qsos@)),
        Err(e) => e@ is AdifParse && expected == Err::<Seq<QsoRecordView>, Seq<char>>(
            failure_text(e@),
        ),
    }
}

/// Appends one field, `<name:length>value`, to `out`.
pub fn push_field(out: &mut Vec<char>, name: &str, value: &str)
    ensures
        final(out)@ == old(out)@ + field_text(name@, value@),
{
    let mut v = to_chars(value);
    out.push('<');
    push_text(out, name);
    out.push(':');
    push_decimal(out, v.len() as u64);
    out.push('>');
    out.append(&mut v);
    assert(out@ == old(out)@ + field_text(name@, value@));
}

/// Appends one field to the text of the fields `before`.
fn put_field(out: &mut Vec<char>, name: &str, value: &str, Ghost(before): Ghost<Seq<Token>>)
    requires
        old(out)@ == fields_text(before),
    ensures
        final(out)@ == fields_text(before.push((name@, value@))),
{
    push_field(out, name, value);
    assert(before.push((name@, value@)).drop_last() == before);
}

/// Appends the field of the attribute at place `k` of `slots`, if the
/// attribute is there.
fn put_slot(
    out: &mut Vec<char>,
    name: &str,
    value: Option<&str>,
    Ghost(slots): Ghost<Seq<Slot>>,
    Ghost(k): Ghost<int>,
)
    requires
        0 <= k < slots.len(),
        slots[k] == (name@, opt_str(value)),
        old(out)@ == fields_text(present(slots.take(k))),
    ensures
        final(out)@ == fields_text(present(slots.take(k + 1))),
{
    let ghost before = present(slots.take(k));
    proof {
        assert(slots.take(k + 1).drop_last() == slots.take(k));
        assert(slots.take(k + 1).last() == slots[k]);
    }
    match value {
        Some(v) => {
            put_field(out, name, v, Ghost(before));
            assert(before + seq![(name@, v@)] == before.push((name@, v@)));
        },
        None => {
            assert(before + Seq::<Token>::empty() == before);
        },
    }
}

impl AdifParser {
    /// Writes a record as ADIF text.
    pub fn to_adif(qso: &QsoRecord) -> (s: String)
        ensures
            s@ == encode(qso@),
    {
        let ghost slots = attribute_slots(qso@);
        let mut out: Vec<char> = Vec::new();
        assert(present(slots.take(0)) == Seq::<Token>::empty());
        put_slot(&mut out, "call", Some(qso.call.as_str()), Ghost(slots), Ghost(0));
        put_slot(
            &mut out,
            "station_callsign",
            Some(qso.station_callsign.as_str()),
            Ghost(slots),
            Ghost(1),
        );
        let date = qso.qso_date.compact();
        put_slot(&mut out, "qso_date", Some(date.as_str()), Ghost(slots), Ghost(2));
        let time_on = format_time(&qso.time_on);
        put_slot(&mut out, "time_on", Some(time_on.as_str()), Ghost(slots), Ghost(3));
        put_slot(&mut out, "band", Some(qso.band.as_str()), Ghost(slots), Ghost(4));
        put_slot(&mut out, "mode", Some(qso.mode.as_str()), Ghost(slots), Ghost(5));
        let time_off = match &qso.time_off {
            Some(t) => Some(format_time(t)),
            None => None,
        };
        put_slot(&mut out, "time_off", option_str(&time_off), Ghost(slots), Ghost(6));
        let freq = match &qso.freq {
            Some(f) => Some(f.as_str()),
            None => None,
        };
        put_slot(&mut out, "freq", freq, Ghost(slots), Ghost(7));
        put_slot(&mut out, "rst_sent", option_str(&qso.rst_sent), Ghost(slots), Ghost(8));
        put_slot(&mut out, "rst_rcvd", option_str(&qso.rst_rcvd), Ghost(slots), Ghost(9));
        put_slot(&mut out, "qth", option_str(&qso.qth), Ghost(slots), Ghost(10));
        put_slot(&mut out, "name", option_str(&qso.name), Ghost(slots), Ghost(11));
        put_slot(&mut out, "comment", option_str(&qso.comment), Ghost(slots), Ghost(12));
        assert(slots.take(13) == slots);
        let ghost fixed = present(slots);
        let ghost extra = lowercase_names(qso.additional_fields@);
        let count = qso.additional_fields.len();
        let mut i: usize = 0;
        assert(fixed + extra.take(0) == fixed);
        while i < count
            invariant
                i <= count,
                count == qso.additional_fields@.len(),
                extra == lowercase_names(qso.additional_fields@),
                out@ == fields_text(fixed + extra.take(i as int)),
            decreases count - i,
        {
            let key = to_lowercase(qso.additional_fields.name_at(i).as_str());
            let value = qso.additional_fields.value_at(i);
            put_field(&mut out, key.as_str(), value.as_str(), Ghost(fixed + extra.take(i as int)));
            proof {
                assert(extra.take(i + 1) == extra.take(i as int).push(extra[i as int]));
                assert(fixed + extra.take(i + 1) == (fixed + extra.take(i as int)).push(
                    (key@, value@),
                ));
            }
            i += 1;
        }
        assert(extra.take(count as int) == extra);
        push_text(&mut out, "<eor>");
        proof {
            reveal_strlit("<eor>");
            assert("<eor>"@ == marker());
        }
        string_of(&out)
    }

    /// Reads every record of an ADIF text.
    pub fn parse_adif(adif: &str) -> (r: QrzLogbookResult<Vec<QsoRecord>>)
        ensures
            records_read(r, decode(adif@)),
    {
        let chars = to_chars(adif);
        let n = chars.len();
        let mut qsos: Vec<QsoRecord> = Vec::new();
        let mut start: usize = 0;
        assert(chars@.skip(0) == chars@);
        assert(record_views(qsos@) + Seq::<QsoRecordView>::empty() == record_views(qsos@));
        assert(forall|x: Seq<QsoRecordView>| Seq::<QsoRecordView>::empty() + x == x);
        loop
            invariant
                start <= n,
                n == chars.len(),
                chars@ == adif@,
                decode(chars@) == chain(
                    Ok(record_views(qsos@)),
                    decode(chars@.skip(start as int)),
                ),
            decreases n - start,
        {
            let ghost cur = chars@.skip(start as int);
            let ghost before = record_views(qsos@);
            let cut = find_marker(&chars, start);
            let ghost part = chars@.subrange(start as int, cut as int);
            let ends = n - cut < 5;
            proof {
                lemma_next_marker(cur, 0);
                if ends {
                    assert(part == cur);
                } else {
                    assert(part == cur.take(cut - start));
                    assert(cur.skip(cut - start + 5) == chars@.skip(cut + 5));
                }
            }
            let (a, b) = trim_bounds(&chars, start, cut);
            if a < b {
                let read = match read_fields(&chars, a, b) {
                    Ok(fields) => Self::fields_to_qso(fields),
                    Err(e) => Err(e),
                };
                match read {
                    Ok(qso) => {
                        qsos.push(qso);
                        assert(record_views(qsos@) == before + seq![qso@]);
                    },
                    Err(e) => {
                        return Err(e);
                    },
                }
            } else {
                assert(before + Seq::<QsoRecordView>::empty() == before);
            }
            proof {
                let added = stretch_records(part);
                assert(added is Ok);
                assert(record_views(qsos@) == before + added->Ok_0);
                if !ends {
                    let rest = decode(chars@.skip(cut + 5));
                    match rest {
                        Ok(rs) => {
                            assert(before + (added->Ok_0 + rs) == (before + added->Ok_0) + rs);
                        },
                        Err(_) => {},
                    }
                } else {
                    assert(record_views(qsos@) + Seq::<QsoRecordView>::empty() == record_views(
                        qsos@,
                    ));
                }
            }
            if ends {
                return Ok(qsos);
            }
            start = cut + 5;
        }
    }

    /// Reads the one record that `record` holds.
    pub fn parse_single_record(record: &str) -> (r: QrzLogbookResult<QsoRecord>)
        ensures
            reads_as(r, record_of_text(record@)),
    {
        let chars = to_chars(record);
        assert(chars@.subrange(0, chars.len() as int) == record@);
        match read_fields(&chars, 0, chars.len()) {
            Ok(fields) => Self::fields_to_qso(fields),
            Err(e) => Err(e),
        }
    }

    /// Makes a record of a table of fields, names in lowercase.
    pub fn fields_to_qso(fields: FieldTable) -> (r: QrzLogbookResult<QsoRecord>)
        ensures
            reads_as(r, record_of_fields(fields@)),
    {
        proof {
            lemma_attribute_names();
        }
        let ghost es = fields@;
        let mut rest = fields;
        let call = match take_field(&mut rest, "call") {
            Some(v) => v,
            None => {
                return Err(QrzLogbookError::adif_parse("Missing call field"));
            },
        };
        let station_callsign = match take_field(&mut rest, "station_callsign") {
            Some(v) => v,
            None => {
                return Err(QrzLogbookError::adif_parse("Missing station_callsign field"));
            },
        };
        let band = match take_field(&mut rest, "band") {
            Some(v) => v,
            None => {
                return Err(QrzLogbookError::adif_parse("Missing band field"));
            },
        };
        let mode = match take_field(&mut rest, "mode") {
            Some(v) => v,
            None => {
                return Err(QrzLogbookError::adif_parse("Missing mode field"));
            },
        };
        let qso_date_str = match take_field(&mut rest, "qso_date") {
            Some(v) => v,
            None => {
                return Err(QrzLogbookError::adif_parse("Missing qso_date field"));
            },
        };
        let qso_date = match parse_date(qso_date_str.as_str()) {
            Ok(d) => d,
            Err(e) => {
                return Err(e);
            },
        };
        let time_on_str = match take_field(&mut rest, "time_on") {
            Some(v) => v,
            None => {
                return Err(QrzLogbookError::adif_parse("Missing time_on field"));
            },
        };
        let time_on = match parse_time(time_on_str.as_str()) {
            Ok(t) => t,
            Err(e) => {
                return Err(e);
            },
        };
        let time_off = match take_field(&mut rest, "time_off") {
            Some(s) => match parse_time(s.as_str()) {
                Ok(t) => Some(t),
                Err(e) => {
                    return Err(e);
                },
            },
            None => None,
        };
        let freq = match take_field(&mut rest, "freq") {
            Some(s) => match Frequency::parse(s.as_str()) {
                Some(f) => Some(f),
                None => {
                    return Err(QrzLogbookError::adif_parse("Invalid frequency format"));
                },
            },
            None => None,
        };
        let rst_sent = take_field(&mut rest, "rst_sent");
        let rst_rcvd = take_field(&mut rest, "rst_rcvd");
        let qth = take_field(&mut rest, "qth");
        let name = take_field(&mut rest, "name");
        let comment = take_field(&mut rest, "comment");
        proof {
            assert forall|i: int| 0 <= i < rest@.len() implies attribute_rank(
                #[trigger] rest@[i].0,
            ) == 13 by {
                let name = rest@[i].0;
                crate::fields::lemma_position(rest@, name);
                assert(lookup(rest@, name) is Some);
            }
            lemma_unknown_all(rest@);
        }
        Ok(
            QsoRecord {
                call,
                station_callsign,
                qso_date,
                time_on,
                time_off,
                band,
                mode,
                freq,
                rst_sent,
                rst_rcvd,
                qth,
                name,
                comment,
                additional_fields: rest,
            },
        )
    }
}

} // verus!
