//! What holds of the codec as a whole: what is written reads back.

use crate::adif::{
    after, attribute_rank, attribute_slots, chain, date_of_text, decode, emitted_fields, encode,
    field_text, fields_text, lemma_attribute_names, lemma_next_marker, lowercase_names, marker,
    marker_at, name_end, next_marker, optional_field, present, record_of_fields,
    record_of_text, stretch_records, table_of, tag_end, time_of_text, tokens_of,
    unknown_fields, Slot, Token,
};
use crate::calendar::{DateView, TimeView};
use crate::decimal::{
    all_digits, decimal_text, decimal_value, digit_char, is_decimal, is_digit,
    lemma_decimal_text, lemma_digit_char, lemma_four_digit_value, lemma_two_digit_value,
};
use crate::fields::{distinct_names, lemma_position, lemma_position_is, lookup, position};
use crate::models::{QsoRecord, QsoRecordView};
use crate::text::{
    is_blank, is_white_space, lowercase, str_eq, to_chars, to_lowercase, trim, white_space,
};
use vstd::prelude::*;

verus! {

/// A name that can stand in a tag: it holds neither `:` nor `>`.
pub open spec fn tag_safe(name: Seq<char>) -> bool {
    forall|i: int| 0 <= i < name.len() ==> #[trigger] name[i] != ':' && name[i] != '>'
}

proof fn lemma_name_end_is(s: Seq<char>, from: int, end: int)
    requires
        0 <= from <= end <= s.len(),
        forall|i: int| from <= i < end ==> s[i] != ':' && s[i] != '>',
        end < s.len() ==> s[end] == ':' || s[end] == '>',
    ensures
        name_end(s, from) == end,
    decreases end - from,
{
    if from < end {
        lemma_name_end_is(s, from + 1, end);
    }
}

proof fn lemma_tag_end_is(s: Seq<char>, from: int, end: int)
    requires
        0 <= from <= end <= s.len(),
        forall|i: int| from <= i < end ==> s[i] != '>',
        end < s.len() ==> s[end] == '>',
    ensures
        tag_end(s, from) == end,
    decreases end - from,
{
    if from < end {
        lemma_tag_end_is(s, from + 1, end);
    }
}

/// Length fidelity: a field that was written with its true length reads
/// back as exactly its name and its value, whatever the value holds and
/// whatever follows it.
pub proof fn law_field_reads_back(name: Seq<char>, value: Seq<char>, rest: Seq<char>)
    requires
        tag_safe(name),
    ensures
        tokens_of(field_text(name, value) + rest) == after(seq![(name, value)], tokens_of(rest)),
{
    let digits = decimal_text(value.len());
    lemma_decimal_text(value.len());
    let s = field_text(name, value) + rest;
    let n = name.len() as int;
    let d = digits.len() as int;
    let v = value.len() as int;
    let colon = 1 + n;
    let close = colon + 1 + d;
    let stop = close + 1 + v;
    assert(s.len() == stop + rest.len());
    assert(s[0] == '<');
    assert forall|i: int| 1 <= i < colon implies s[i] == name[i - 1] by {}
    assert(s[colon] == ':');
    assert forall|i: int| colon + 1 <= i < close implies s[i] == digits[i - colon - 1] by {}
    assert(s[close] == '>');
    assert forall|i: int| close + 1 <= i < stop implies s[i] == value[i - close - 1] by {}
    assert forall|i: int| 1 <= i < colon implies s[i] != ':' && s[i] != '>' by {
        assert(name[i - 1] != ':' && name[i - 1] != '>');
    }
    lemma_name_end_is(s, 1, colon);
    assert forall|i: int| colon + 1 <= i < close implies s[i] != '>' by {
        assert(is_digit(digits[i - colon - 1]));
    }
    lemma_tag_end_is(s, colon + 1, close);
    assert(s.subrange(colon + 1, close) == digits);
    assert(s.subrange(1, colon) == name);
    assert(s.subrange(close + 1, stop) == value);
    assert(s.skip(stop) == rest);
}

/// A field that declares more characters than the text has left is a
/// fault: nothing is read past the end, and nothing is cut short to fit.
pub proof fn law_overlong_length_fails(name: Seq<char>, length: nat, rest: Seq<char>)
    requires
        tag_safe(name),
        length > rest.len(),
    ensures
        tokens_of(seq!['<'] + name + seq![':'] + decimal_text(length) + seq!['>'] + rest) == Err::<
            Seq<Token>,
            Seq<char>,
        >("Field value extends beyond record"@),
{
    let digits = decimal_text(length);
    lemma_decimal_text(length);
    let s = seq!['<'] + name + seq![':'] + digits + seq!['>'] + rest;
    let colon = 1 + name.len() as int;
    let close = colon + 1 + digits.len() as int;
    assert(s.len() == close + 1 + rest.len());
    assert(s[0] == '<');
    assert forall|i: int| 1 <= i < colon implies s[i] != ':' && s[i] != '>' by {
        assert(s[i] == name[i - 1]);
    }
    assert(s[colon] == ':');
    lemma_name_end_is(s, 1, colon);
    assert forall|i: int| colon + 1 <= i < close implies s[i] != '>' by {
        assert(s[i] == digits[i - colon - 1]);
        assert(is_digit(digits[i - colon - 1]));
    }
    assert(s[close] == '>');
    lemma_tag_end_is(s, colon + 1, close);
    assert(s.subrange(colon + 1, close) == digits);
}

/// A field whose length is not written in digits is a fault that names
/// what was written.
pub proof fn law_bad_length_fails(name: Seq<char>, written: Seq<char>, rest: Seq<char>)
    requires
        tag_safe(name),
        !is_decimal(written),
        forall|i: int| 0 <= i < written.len() ==> written[i] != '>',
    ensures
        tokens_of(seq!['<'] + name + seq![':'] + written + seq!['>'] + rest) == Err::<
            Seq<Token>,
            Seq<char>,
        >("Invalid length: "@ + written),
{
    let s = seq!['<'] + name + seq![':'] + written + seq!['>'] + rest;
    let colon = 1 + name.len() as int;
    let close = colon + 1 + written.len() as int;
    assert(s.len() == close + 1 + rest.len());
    assert(s[0] == '<');
    assert forall|i: int| 1 <= i < colon implies s[i] != ':' && s[i] != '>' by {
        assert(s[i] == name[i - 1]);
    }
    assert(s[colon] == ':');
    lemma_name_end_is(s, 1, colon);
    assert forall|i: int| colon + 1 <= i < close implies s[i] != '>' by {
        assert(s[i] == written[i - colon - 1]);
    }
    assert(s[close] == '>');
    lemma_tag_end_is(s, colon + 1, close);
    assert(s.subrange(colon + 1, close) == written);
}

/// A run of fields that were written with their true lengths reads back
/// as exactly those fields.
pub proof fn law_fields_read_back(fields: Seq<Token>, rest: Seq<char>)
    requires
        forall|i: int| 0 <= i < fields.len() ==> tag_safe(#[trigger] fields[i].0),
    ensures
        tokens_of(fields_text(fields) + rest) == after(fields, tokens_of(rest)),
    decreases fields.len(),
{
    if fields.len() == 0 {
        assert(fields_text(fields) + rest == rest);
        match tokens_of(rest) {
            Ok(ts) => {
                assert(fields + ts == ts);
            },
            Err(_) => {},
        }
    } else {
        let init = fields.drop_last();
        let last = fields.last();
        let tail = field_text(last.0, last.1) + rest;
        assert(fields_text(fields) + rest == fields_text(init) + tail);
        assert forall|i: int| 0 <= i < init.len() implies tag_safe(#[trigger] init[i].0) by {
            assert(init[i] == fields[i]);
        }
        law_fields_read_back(init, tail);
        law_field_reads_back(last.0, last.1, rest);
        match tokens_of(rest) {
            Ok(ts) => {
                assert(init + (seq![last] + ts) == fields + ts);
            },
            Err(_) => {},
        }
    }
}

/// Fields with lowercase names that are all different fill a table with
/// themselves.
proof fn lemma_table_of_fresh(fields: Seq<Token>)
    requires
        distinct_names(fields),
        forall|i: int| 0 <= i < fields.len() ==> lowercase(#[trigger] fields[i].0) == fields[i].0,
    ensures
        table_of(fields) == fields,
    decreases fields.len(),
{
    if fields.len() > 0 {
        let init = fields.drop_last();
        let last = fields.last();
        assert forall|i: int| 0 <= i < init.len() implies lowercase(#[trigger] init[i].0)
            == init[i].0 by {
            assert(init[i] == fields[i]);
        }
        assert(distinct_names(init)) by {
            assert forall|i: int, j: int| 0 <= i < j < init.len() implies (#[trigger] init[i]).0
                != (#[trigger] init[j]).0 by {
                assert(init[i] == fields[i] && init[j] == fields[j]);
            }
        }
        lemma_table_of_fresh(init);
        assert forall|i: int| 0 <= i < init.len() implies (#[trigger] init[i]).0 != last.0 by {
            assert(init[i] == fields[i]);
            assert(fields[fields.len() - 1] == last);
        }
        lemma_position_is(init, last.0, init.len() as int);
        assert(init.push(last) == fields);
    }
}

/// Where the first field of a name stands in two runs laid end to end.
proof fn lemma_position_concat(a: Seq<Token>, b: Seq<Token>, key: Seq<char>)
    ensures
        position(a + b, key) == if position(a, key) < a.len() {
            position(a, key)
        } else {
            a.len() + position(b, key)
        },
        lookup(a + b, key) == if lookup(a, key) is Some {
            lookup(a, key)
        } else {
            lookup(b, key)
        },
{
    lemma_position(a, key);
    lemma_position(b, key);
    let p = if position(a, key) < a.len() {
        position(a, key)
    } else {
        a.len() + position(b, key)
    };
    assert forall|i: int| 0 <= i < p implies (#[trigger] (a + b)[i]).0 != key by {
        if i < a.len() {
            assert((a + b)[i] == a[i]);
        } else {
            assert((a + b)[i] == b[i - a.len()]);
        }
    }
    if p < (a + b).len() {
        if p < a.len() {
            assert((a + b)[p] == a[p]);
        } else {
            assert((a + b)[p] == b[p - a.len()]);
        }
    }
    lemma_position_is(a + b, key, p);
}

/// Two runs of different names, no name of the one in the other, make a
/// run of different names.
proof fn lemma_distinct_concat(a: Seq<Token>, b: Seq<Token>)
    requires
        distinct_names(a),
        distinct_names(b),
        forall|i: int, j: int|
            0 <= i < a.len() && 0 <= j < b.len() ==> (#[trigger] a[i]).0 != (#[trigger] b[j]).0,
    ensures
        distinct_names(a + b),
{
    assert forall|i: int, j: int| 0 <= i < j < (a + b).len() implies (#[trigger] (a + b)[i]).0 != (
    #[trigger] (a + b)[j]).0 by {
        if j < a.len() {
            assert((a + b)[i] == a[i] && (a + b)[j] == a[j]);
        } else if i < a.len() {
            assert((a + b)[i] == a[i] && (a + b)[j] == b[j - a.len()]);
        } else {
            assert((a + b)[i] == b[i - a.len()] && (a + b)[j] == b[j - a.len()]);
        }
    }
}

/// No two attributes of `slots` have one name.
pub open spec fn distinct_slots(slots: Seq<Slot>) -> bool {
    forall|i: int, j: int|
        0 <= i < j < slots.len() ==> (#[trigger] slots[i]).0 != (#[trigger] slots[j]).0
}

/// What holds of the name of every attribute holds of the name of every
/// field that is written for them.
proof fn lemma_present_names(slots: Seq<Slot>, holds: spec_fn(Seq<char>) -> bool)
    requires
        forall|j: int| 0 <= j < slots.len() ==> holds(#[trigger] slots[j].0),
    ensures
        forall|i: int| 0 <= i < present(slots).len() ==> holds(#[trigger] present(slots)[i].0),
    decreases slots.len(),
{
    if slots.len() > 0 {
        let init = slots.drop_last();
        let last = slots.last();
        assert forall|j: int| 0 <= j < init.len() implies holds(#[trigger] init[j].0) by {
            assert(init[j] == slots[j]);
        }
        lemma_present_names(init, holds);
        let a = present(init);
        let b = optional_field(last.0, last.1);
        assert(holds(slots[slots.len() - 1].0));
        assert forall|i: int| 0 <= i < present(slots).len() implies holds(
            #[trigger] present(slots)[i].0,
        ) by {
            if i < a.len() {
                assert((a + b)[i] == a[i]);
            } else {
                assert((a + b)[i] == b[i - a.len()]);
            }
        }
    }
}

proof fn lemma_init_slots(slots: Seq<Slot>)
    requires
        distinct_slots(slots),
        slots.len() > 0,
    ensures
        distinct_slots(slots.drop_last()),
        forall|j: int|
            0 <= j < slots.len() - 1 ==> (#[trigger] slots.drop_last()[j]).0 != slots.last().0,
{
    let init = slots.drop_last();
    assert forall|i: int, j: int| 0 <= i < j < init.len() implies (#[trigger] init[i]).0 != (
    #[trigger] init[j]).0 by {
        assert(init[i] == slots[i] && init[j] == slots[j]);
    }
    assert forall|j: int| 0 <= j < slots.len() - 1 implies (#[trigger] init[j]).0
        != slots.last().0 by {
        assert(init[j] == slots[j]);
        assert(slots[slots.len() - 1] == slots.last());
    }
}

/// The fields written for attributes of different names have different
/// names.
proof fn lemma_present_distinct(slots: Seq<Slot>)
    requires
        distinct_slots(slots),
    ensures
        distinct_names(present(slots)),
    decreases slots.len(),
{
    if slots.len() > 0 {
        let init = slots.drop_last();
        let last = slots.last();
        lemma_init_slots(slots);
        lemma_present_distinct(init);
        lemma_present_names(init, |n: Seq<char>| n != last.0);
        let a = present(init);
        let b = optional_field(last.0, last.1);
        lemma_distinct_concat(a, b);
    }
}

/// Among the fields written for attributes of different names, the name of
/// an attribute leads to its text where it has one, and nowhere where it
/// has none.
proof fn lemma_lookup_present(slots: Seq<Slot>, j: int)
    requires
        distinct_slots(slots),
        0 <= j < slots.len(),
    ensures
        lookup(present(slots), slots[j].0) == slots[j].1,
    decreases slots.len(),
{
    let init = slots.drop_last();
    let last = slots.last();
    let key = slots[j].0;
    let a = present(init);
    let b = optional_field(last.0, last.1);
    lemma_init_slots(slots);
    lemma_position_concat(a, b, key);
    lemma_position(b, key);
    if j == slots.len() - 1 {
        lemma_present_names(init, |n: Seq<char>| n != last.0);
        lemma_position_is(a, key, a.len() as int);
    } else {
        assert(init[j] == slots[j]);
        lemma_lookup_present(init, j);
        assert(init[j].0 != last.0);
    }
}

/// Unknown fields are picked one by one: those of two runs laid end to end
/// are those of the first and then those of the second.
proof fn lemma_unknown_concat(a: Seq<Token>, b: Seq<Token>)
    ensures
        unknown_fields(a + b) == unknown_fields(a) + unknown_fields(b),
    decreases b.len(),
{
    if b.len() == 0 {
        assert(a + b == a);
        assert(unknown_fields(a) + unknown_fields(b) == unknown_fields(a));
    } else {
        lemma_unknown_concat(a, b.drop_last());
        assert((a + b).drop_last() == a + b.drop_last());
        assert((a + b).last() == b.last());
        if attribute_rank(b.last().0) == 13 {
            assert((unknown_fields(a) + unknown_fields(b.drop_last())).push(b.last())
                == unknown_fields(a) + unknown_fields(b.drop_last()).push(b.last()));
        }
    }
}

/// A run that holds attributes only has no unknown field.
proof fn lemma_unknown_none(a: Seq<Token>)
    requires
        forall|i: int| 0 <= i < a.len() ==> attribute_rank(#[trigger] a[i].0) < 13,
    ensures
        unknown_fields(a) == Seq::<Token>::empty(),
    decreases a.len(),
{
    if a.len() > 0 {
        let init = a.drop_last();
        assert forall|i: int| 0 <= i < init.len() implies attribute_rank(#[trigger] init[i].0)
            < 13 by {
            assert(init[i] == a[i]);
        }
        lemma_unknown_none(init);
        assert(attribute_rank(a[a.len() - 1].0) < 13);
    }
}

proof fn lemma_two_digits(n: int)
    requires
        0 <= n <= 99,
    ensures
        crate::calendar::two_digits(n).len() == 2,
        all_digits(crate::calendar::two_digits(n)),
        decimal_value(crate::calendar::two_digits(n)) == n,
{
    let s = crate::calendar::two_digits(n);
    lemma_digit_char((n / 10) as nat);
    lemma_digit_char((n % 10) as nat);
    lemma_two_digit_value(s);
}

proof fn lemma_split_four(n: int)
    requires
        0 <= n <= 9999,
    ensures
        0 <= n / 1000 < 10,
        n == (n / 1000) * 1000 + (n / 100 % 10) * 100 + (n / 10 % 10) * 10 + n % 10,
{
    let a = n / 1000;
    let b = n / 100;
    let c = n / 10;
    assert(n == c * 10 + n % 10);
    assert(c == (c / 10) * 10 + c % 10);
    assert(b == c / 10);
    assert(b == (b / 10) * 10 + b % 10);
    assert(a == b / 10);
}

proof fn lemma_four_digits(n: int)
    requires
        0 <= n <= 9999,
    ensures
        crate::calendar::four_digits(n).len() == 4,
        all_digits(crate::calendar::four_digits(n)),
        decimal_value(crate::calendar::four_digits(n)) == n,
{
    let s = crate::calendar::four_digits(n);
    lemma_split_four(n);
    let d0 = (n / 1000) as nat;
    let d1 = (n / 100 % 10) as nat;
    let d2 = (n / 10 % 10) as nat;
    let d3 = (n % 10) as nat;
    assert(s[0] == digit_char(d0) && s[1] == digit_char(d1) && s[2] == digit_char(d2) && s[3]
        == digit_char(d3));
    lemma_digit_char((n / 1000) as nat);
    lemma_digit_char((n / 100 % 10) as nat);
    lemma_digit_char((n / 10 % 10) as nat);
    lemma_digit_char((n % 10) as nat);
    lemma_four_digit_value(s);
}

/// A date that was written as `YYYYMMDD` reads back as itself.
pub proof fn law_date_reads_back(date: DateView)
    requires
        date.is_valid(),
    ensures
        date_of_text(date.compact()) == Ok::<DateView, Seq<char>>(date),
{
    let t = date.compact();
    lemma_four_digits(date.year);
    lemma_two_digits(date.month);
    lemma_two_digits(date.day);
    assert(t.subrange(0, 4) == crate::calendar::four_digits(date.year));
    assert(t.subrange(4, 6) == crate::calendar::two_digits(date.month));
    assert(t.subrange(6, 8) == crate::calendar::two_digits(date.day));
}

/// A time that was written as `HHMM` reads back as that hour and minute,
/// with no seconds.
pub proof fn law_time_reads_back(time: TimeView)
    requires
        time.is_valid(),
    ensures
        time_of_text(time.compact()) == Ok::<TimeView, Seq<char>>(
            TimeView { hour: time.hour, minute: time.minute, second: 0 },
        ),
{
    let t = time.compact();
    let full = t + seq!['0', '0'];
    lemma_two_digits(time.hour);
    lemma_two_digits(time.minute);
    lemma_two_digits(0);
    assert(full.subrange(0, 2) == crate::calendar::two_digits(time.hour));
    assert(full.subrange(2, 4) == crate::calendar::two_digits(time.minute));
    assert(full.subrange(4, 6) == crate::calendar::two_digits(0));
}

/// Time tolerance: a time of four characters means what it means with the
/// seconds `00` written out.
pub proof fn law_time_without_seconds(t: Seq<char>)
    requires
        t.len() == 4,
    ensures
        time_of_text(t) == time_of_text(t + seq!['0', '0']),
{
}

/// A date that was read exists in the calendar, and a time that was read
/// is one that a clock can show.
pub proof fn law_read_values_are_valid(t: Seq<char>)
    ensures
        date_of_text(t) matches Ok(date) ==> date.is_valid(),
        time_of_text(t) matches Ok(time) ==> time.is_valid(),
{
}

/// The names of the thirteen attributes can stand in a tag and are in
/// lowercase.
proof fn lemma_attribute_names_plain()
    ensures
        tag_safe("call"@) && lowercase("call"@) == "call"@,
        tag_safe("station_callsign"@) && lowercase("station_callsign"@) == "station_callsign"@,
        tag_safe("qso_date"@) && lowercase("qso_date"@) == "qso_date"@,
        tag_safe("time_on"@) && lowercase("time_on"@) == "time_on"@,
        tag_safe("band"@) && lowercase("band"@) == "band"@,
        tag_safe("mode"@) && lowercase("mode"@) == "mode"@,
        tag_safe("time_off"@) && lowercase("time_off"@) == "time_off"@,
        tag_safe("freq"@) && lowercase("freq"@) == "freq"@,
        tag_safe("rst_sent"@) && lowercase("rst_sent"@) == "rst_sent"@,
        tag_safe("rst_rcvd"@) && lowercase("rst_rcvd"@) == "rst_rcvd"@,
        tag_safe("qth"@) && lowercase("qth"@) == "qth"@,
        tag_safe("name"@) && lowercase("name"@) == "name"@,
        tag_safe("comment"@) && lowercase("comment"@) == "comment"@,
{
    reveal_strlit("call");
    assert(tag_safe("call"@));
    crate::text::lemma_lowercase_fixed("call"@);
    reveal_strlit("station_callsign");
    assert(tag_safe("station_callsign"@));
    crate::text::lemma_lowercase_fixed("station_callsign"@);
    reveal_strlit("qso_date");
    assert(tag_safe("qso_date"@));
    crate::text::lemma_lowercase_fixed("qso_date"@);
    reveal_strlit("time_on");
    assert(tag_safe("time_on"@));
    crate::text::lemma_lowercase_fixed("time_on"@);
    reveal_strlit("band");
    assert(tag_safe("band"@));
    crate::text::lemma_lowercase_fixed("band"@);
    reveal_strlit("mode");
    assert(tag_safe("mode"@));
    crate::text::lemma_lowercase_fixed("mode"@);
    reveal_strlit("time_off");
    assert(tag_safe("time_off"@));
    crate::text::lemma_lowercase_fixed("time_off"@);
    reveal_strlit("freq");
    assert(tag_safe("freq"@));
    crate::text::lemma_lowercase_fixed("freq"@);
    reveal_strlit("rst_sent");
    assert(tag_safe("rst_sent"@));
    crate::text::lemma_lowercase_fixed("rst_sent"@);
    reveal_strlit("rst_rcvd");
    assert(tag_safe("rst_rcvd"@));
    crate::text::lemma_lowercase_fixed("rst_rcvd"@);
    reveal_strlit("qth");
    assert(tag_safe("qth"@));
    crate::text::lemma_lowercase_fixed("qth"@);
    reveal_strlit("name");
    assert(tag_safe("name"@));
    crate::text::lemma_lowercase_fixed("name"@);
    reveal_strlit("comment");
    assert(tag_safe("comment"@));
    crate::text::lemma_lowercase_fixed("comment"@);
}

/// The name of a field that can be written as an additional field and be
/// found again: it can stand in a tag, it is in lowercase, and it is not
/// the name of an attribute.
pub open spec fn plain_name(name: Seq<char>) -> bool {
    tag_safe(name) && lowercase(name) == name && attribute_rank(name) == 13
}

/// A record that loses nothing in writing: it is valid, its times have no
/// seconds, and its additional fields have plain names.
pub open spec fn writable(r: QsoRecordView) -> bool {
    &&& r.is_valid()
    &&& r.time_on.second == 0
    &&& (r.time_off matches Some(t) ==> t.second == 0)
    &&& forall|i: int|
        0 <= i < r.additional_fields.len() ==> plain_name(#[trigger] r.additional_fields[i].0)
}

proof fn lemma_attribute_slots(r: QsoRecordView)
    ensures
        attribute_slots(r).len() == 13,
        distinct_slots(attribute_slots(r)),
        forall|j: int|
            0 <= j < 13 ==> attribute_rank(#[trigger] attribute_slots(r)[j].0) == j && tag_safe(
                attribute_slots(r)[j].0,
            ) && lowercase(attribute_slots(r)[j].0) == attribute_slots(r)[j].0,
{
    lemma_attribute_names();
    lemma_attribute_names_plain();
    let slots = attribute_slots(r);
    assert(slots[0].0 == "call"@);
    assert(slots[1].0 == "station_callsign"@);
    assert(slots[2].0 == "qso_date"@);
    assert(slots[3].0 == "time_on"@);
    assert(slots[4].0 == "band"@);
    assert(slots[5].0 == "mode"@);
    assert(slots[6].0 == "time_off"@);
    assert(slots[7].0 == "freq"@);
    assert(slots[8].0 == "rst_sent"@);
    assert(slots[9].0 == "rst_rcvd"@);
    assert(slots[10].0 == "qth"@);
    assert(slots[11].0 == "name"@);
    assert(slots[12].0 == "comment"@);
    assert forall|j: int| 0 <= j < 13 implies attribute_rank(#[trigger] slots[j].0) == j
        && tag_safe(slots[j].0) && lowercase(slots[j].0) == slots[j].0 by {
        if j == 0 {
        } else if j == 1 {
        } else if j == 2 {
        } else if j == 3 {
        } else if j == 4 {
        } else if j == 5 {
        } else if j == 6 {
        } else if j == 7 {
        } else if j == 8 {
        } else if j == 9 {
        } else if j == 10 {
        } else if j == 11 {
        } else {
        }
    }
    assert forall|i: int, j: int| 0 <= i < j < slots.len() implies (#[trigger] slots[i]).0 != (
    #[trigger] slots[j]).0 by {
        assert(attribute_rank(slots[i].0) == i);
        assert(attribute_rank(slots[j].0) == j);
    }
}

/// The fields that a writable record is written with: their names can
/// stand in tags, are in lowercase and are all different.
proof fn lemma_emitted_fields(r: QsoRecordView)
    requires
        writable(r),
    ensures
        lowercase_names(r.additional_fields) == r.additional_fields,
        distinct_names(emitted_fields(r)),
        forall|i: int|
            0 <= i < emitted_fields(r).len() ==> tag_safe(#[trigger] emitted_fields(r)[i].0)
                && lowercase(emitted_fields(r)[i].0) == emitted_fields(r)[i].0,
        unknown_fields(emitted_fields(r)) == r.additional_fields,
{
    let slots = attribute_slots(r);
    let fixed = present(slots);
    let extra = r.additional_fields;
    lemma_attribute_slots(r);
    assert(lowercase_names(extra) == extra);
    lemma_present_names(slots, |n: Seq<char>| attribute_rank(n) < 13);
    lemma_present_names(slots, |n: Seq<char>| tag_safe(n) && lowercase(n) == n);
    lemma_present_distinct(slots);
    lemma_distinct_concat(fixed, extra);
    let all = emitted_fields(r);
    assert forall|i: int| 0 <= i < all.len() implies tag_safe(#[trigger] all[i].0) && lowercase(
        all[i].0,
    ) == all[i].0 by {
        if i < fixed.len() {
            assert(all[i] == fixed[i]);
        } else {
            assert(all[i] == extra[i - fixed.len()]);
        }
    }
    lemma_unknown_concat(fixed, extra);
    lemma_unknown_none(fixed);
    crate::adif::lemma_unknown_all(extra);
    assert(Seq::<Token>::empty() + extra == extra);
}

/// Among the fields that a writable record is written with, the name of an
/// attribute leads to its text where the record has it, and nowhere where
/// it has not.
proof fn lemma_lookup_emitted(r: QsoRecordView, j: int)
    requires
        writable(r),
        0 <= j < 13,
    ensures
        lookup(emitted_fields(r), attribute_slots(r)[j].0) == attribute_slots(r)[j].1,
{
    let slots = attribute_slots(r);
    let fixed = present(slots);
    let extra = r.additional_fields;
    let key = slots[j].0;
    lemma_attribute_slots(r);
    assert(lowercase_names(extra) == extra);
    lemma_lookup_present(slots, j);
    lemma_position_concat(fixed, extra, key);
    assert forall|i: int| 0 <= i < extra.len() implies (#[trigger] extra[i]).0 != key by {
        assert(plain_name(extra[i].0));
    }
    lemma_position_is(extra, key, extra.len() as int);
}

/// What a writable record is written with reads back as the record.
proof fn lemma_record_reads_back(r: QsoRecordView)
    requires
        writable(r),
    ensures
        record_of_text(fields_text(emitted_fields(r))) == Ok::<QsoRecordView, Seq<char>>(r),
{
    let all = emitted_fields(r);
    let slots = attribute_slots(r);
    lemma_emitted_fields(r);
    law_fields_read_back(all, Seq::empty());
    assert(fields_text(all) + Seq::<char>::empty() == fields_text(all));
    assert(all + Seq::<Token>::empty() == all);
    assert(tokens_of(fields_text(all)) == Ok::<Seq<Token>, Seq<char>>(all));
    lemma_table_of_fresh(all);
    lemma_lookup_emitted(r, 0);
    lemma_lookup_emitted(r, 1);
    lemma_lookup_emitted(r, 2);
    lemma_lookup_emitted(r, 3);
    lemma_lookup_emitted(r, 4);
    lemma_lookup_emitted(r, 5);
    lemma_lookup_emitted(r, 6);
    lemma_lookup_emitted(r, 7);
    lemma_lookup_emitted(r, 8);
    lemma_lookup_emitted(r, 9);
    lemma_lookup_emitted(r, 10);
    lemma_lookup_emitted(r, 11);
    lemma_lookup_emitted(r, 12);
    assert(lookup(all, "call"@) == Some(r.call)) by {
        assert(slots[0] == ("call"@, Some(r.call)));
    }
    assert(lookup(all, "station_callsign"@) == Some(r.station_callsign)) by {
        assert(slots[1] == ("station_callsign"@, Some(r.station_callsign)));
    }
    assert(lookup(all, "qso_date"@) == Some(r.qso_date.compact())) by {
        assert(slots[2] == ("qso_date"@, Some(r.qso_date.compact())));
    }
    assert(lookup(all, "time_on"@) == Some(r.time_on.compact())) by {
        assert(slots[3] == ("time_on"@, Some(r.time_on.compact())));
    }
    assert(lookup(all, "band"@) == Some(r.band)) by {
        assert(slots[4] == ("band"@, Some(r.band)));
    }
    assert(lookup(all, "mode"@) == Some(r.mode)) by {
        assert(slots[5] == ("mode"@, Some(r.mode)));
    }
    assert(lookup(all, "time_off"@) == crate::adif::optional_compact(r.time_off)) by {
        assert(slots[6] == ("time_off"@, crate::adif::optional_compact(r.time_off)));
    }
    assert(lookup(all, "freq"@) == r.freq) by {
        assert(slots[7] == ("freq"@, r.freq));
    }
    assert(lookup(all, "rst_sent"@) == r.rst_sent) by {
        assert(slots[8] == ("rst_sent"@, r.rst_sent));
    }
    assert(lookup(all, "rst_rcvd"@) == r.rst_rcvd) by {
        assert(slots[9] == ("rst_rcvd"@, r.rst_rcvd));
    }
    assert(lookup(all, "qth"@) == r.qth) by {
        assert(slots[10] == ("qth"@, r.qth));
    }
    assert(lookup(all, "name"@) == r.name) by {
        assert(slots[11] == ("name"@, r.name));
    }
    assert(lookup(all, "comment"@) == r.comment) by {
        assert(slots[12] == ("comment"@, r.comment));
    }
    law_date_reads_back(r.qso_date);
    law_time_reads_back(r.time_on);
    match r.time_off {
        Some(t) => {
            law_time_reads_back(t);
        },
        None => {},
    }
    let read = record_of_fields(all);
    assert(read is Ok);
    let got = read->Ok_0;
    assert(got.qso_date == r.qso_date);
    assert(got.time_on == r.time_on);
    assert(got.time_off == r.time_off);
    assert(got.additional_fields == r.additional_fields);
    assert(got == r);
}

proof fn lemma_next_marker_is(s: Seq<char>, from: int, at: int)
    requires
        0 <= from <= at <= s.len(),
        forall|i: int| from <= i < at ==> !marker_at(s, i),
        at < s.len() ==> marker_at(s, at),
    ensures
        next_marker(s, from) == at,
    decreases at - from,
{
    if from < at {
        lemma_next_marker_is(s, from + 1, at);
    }
}

/// The text of one field or more starts with `<`.
proof fn lemma_fields_text_starts(fields: Seq<Token>)
    requires
        fields.len() > 0,
    ensures
        fields_text(fields).len() > 0,
        fields_text(fields)[0] == '<',
    decreases fields.len(),
{
    let init = fields.drop_last();
    let last = fields.last();
    let written = field_text(last.0, last.1);
    assert(written[0] == '<');
    if init.len() == 0 {
        assert(fields_text(init).len() == 0);
        assert(fields_text(fields) == written);
    } else {
        lemma_fields_text_starts(init);
    }
}

/// The text of a record holds the marker at its end and nowhere before,
/// and the character in front of the marker is not white space.
///
/// A record whose text is not so sealed does not read back: a marker
/// inside a value cuts the record in two, and white space at the end of the
/// last value is trimmed away before the value is counted out.
pub open spec fn sealed(r: QsoRecordView) -> bool {
    let text = encode(r);
    &&& next_marker(text, 0) + 5 == text.len()
    &&& text.len() >= 6
    &&& !is_white_space(text[text.len() - 6])
}

/// In front of whatever follows, the text of a record adds that record to
/// what the rest of the text reads as; the white space in front of it adds
/// nothing.
proof fn lemma_decode_step(gap: Seq<char>, r: QsoRecordView, rest: Seq<char>)
    requires
        is_blank(gap),
        writable(r),
        sealed(r),
    ensures
        decode(gap + encode(r) + rest) == chain(
            Ok::<Seq<QsoRecordView>, Seq<char>>(seq![r]),
            decode(rest),
        ),
{
    let body = fields_text(emitted_fields(r));
    let text = encode(r);
    let s = gap + text + rest;
    let g = gap.len() as int;
    let b = body.len() as int;
    let cut = g + b;
    assert(text.len() == b + 5);
    lemma_next_marker(text, 0);
    assert forall|i: int| 0 <= i < cut implies !marker_at(s, i) by {
        if i < g {
            assert(s[i] == gap[i]);
            assert(is_white_space(gap[i]));
        } else {
            assert(!marker_at(text, i - g));
            assert(s[i] == text[i - g]);
            assert(s[i + 1] == text[i - g + 1]);
            assert(s[i + 2] == text[i - g + 2]);
            assert(s[i + 3] == text[i - g + 3]);
            assert(s[i + 4] == text[i - g + 4]);
        }
    }
    assert(marker_at(s, cut)) by {
        assert(s[cut] == marker()[0]);
        assert(s[cut + 1] == marker()[1]);
        assert(s[cut + 2] == marker()[2]);
        assert(s[cut + 3] == marker()[3]);
        assert(s[cut + 4] == marker()[4]);
    }
    lemma_next_marker_is(s, 0, cut);
    assert(s.take(cut) == gap + body);
    assert(s.skip(cut + 5) == rest);
    lemma_lookup_emitted(r, 0);
    lemma_position(emitted_fields(r), "call"@);
    assert(attribute_slots(r)[0] == ("call"@, Some(r.call)));
    lemma_fields_text_starts(emitted_fields(r));
    assert(body.last() == text[text.len() - 6]);
    crate::text::lemma_trim_start_gap(gap, body);
    crate::text::lemma_trim_end_kept(body);
    lemma_record_reads_back(r);
    assert(stretch_records(gap + body) == Ok::<Seq<QsoRecordView>, Seq<char>>(seq![r]));
}

/// Text without a `<` holds no marker; if it is blank, it holds no record.
proof fn lemma_decode_blank(gap: Seq<char>)
    requires
        is_blank(gap),
    ensures
        decode(gap) == Ok::<Seq<QsoRecordView>, Seq<char>>(Seq::empty()),
{
    assert forall|i: int| 0 <= i < gap.len() implies !marker_at(gap, i) by {
        assert(is_white_space(gap[i]));
    }
    lemma_next_marker_is(gap, 0, gap.len() as int);
    crate::text::lemma_trim_blank(gap);
}

/// Round trip: a record that is written and read again comes back as the
/// one record it was, attribute by attribute and additional field by
/// additional field.
///
/// This holds of every record that is writable and sealed; of a record
/// that is not, it does not hold.
pub proof fn law_round_trip(r: QsoRecordView)
    requires
        writable(r),
        sealed(r),
    ensures
        decode(encode(r)) == Ok::<Seq<QsoRecordView>, Seq<char>>(seq![r]),
{
    let none = Seq::<char>::empty();
    lemma_decode_step(none, r, none);
    lemma_decode_blank(none);
    assert(none + encode(r) + none == encode(r));
    assert(seq![r] + Seq::<QsoRecordView>::empty() == seq![r]);
}

/// The text of a log: the records one after the other, each with its
/// marker, with `gaps[i]` in front of record `i` and the last gap at the
/// end.
pub open spec fn log_text(gaps: Seq<Seq<char>>, records: Seq<QsoRecordView>) -> Seq<char>
    decreases records.len(),
{
    if records.len() == 0 || gaps.len() == 0 {
        if gaps.len() == 0 {
            Seq::empty()
        } else {
            gaps[0]
        }
    } else {
        gaps[0] + encode(records[0]) + log_text(gaps.skip(1), records.skip(1))
    }
}

/// One record more in front of a log that reads back makes a log that reads
/// back.
proof fn lemma_log_step(gaps: Seq<Seq<char>>, records: Seq<QsoRecordView>)
    requires
        records.len() > 0,
        gaps.len() == records.len() + 1,
        is_blank(gaps[0]),
        writable(records[0]),
        sealed(records[0]),
        decode(log_text(gaps.skip(1), records.skip(1))) == Ok::<Seq<QsoRecordView>, Seq<char>>(
            records.skip(1),
        ),
    ensures
        decode(log_text(gaps, records)) == Ok::<Seq<QsoRecordView>, Seq<char>>(records),
{
    let rest = log_text(gaps.skip(1), records.skip(1));
    lemma_decode_step(gaps[0], records[0], rest);
    assert(log_text(gaps, records) == gaps[0] + encode(records[0]) + rest);
    assert(seq![records[0]] + records.skip(1) == records);
}

/// Multiplicity: the text of any number of records, with any white space
/// before, between and after them, reads back as exactly those records in
/// their order.
pub proof fn law_log_reads_back(gaps: Seq<Seq<char>>, records: Seq<QsoRecordView>)
    requires
        gaps.len() == records.len() + 1,
        forall|i: int| 0 <= i < gaps.len() ==> is_blank(#[trigger] gaps[i]),
        forall|i: int| 0 <= i < records.len() ==> writable(#[trigger] records[i]),
        forall|i: int| 0 <= i < records.len() ==> sealed(#[trigger] records[i]),
    ensures
        decode(log_text(gaps, records)) == Ok::<Seq<QsoRecordView>, Seq<char>>(records),
    decreases records.len(),
{
    if records.len() == 0 {
        lemma_decode_blank(gaps[0]);
        assert(records == Seq::<QsoRecordView>::empty());
    } else {
        let later_gaps = gaps.skip(1);
        let later = records.skip(1);
        assert forall|i: int| 0 <= i < later_gaps.len() implies is_blank(
            #[trigger] later_gaps[i],
        ) by {
            assert(later_gaps[i] == gaps[i + 1]);
        }
        assert forall|i: int| 0 <= i < later.len() implies writable(#[trigger] later[i]) by {
            assert(later[i] == records[i + 1]);
        }
        assert forall|i: int| 0 <= i < later.len() implies sealed(#[trigger] later[i]) by {
            assert(later[i] == records[i + 1]);
        }
        law_log_reads_back(later_gaps, later);
        lemma_log_step(gaps, records);
    }
}

/// One of the six fields that every record must have.
pub open spec fn is_mandatory(name: Seq<char>) -> bool {
    ||| name == "call"@
    ||| name == "station_callsign"@
    ||| name == "qso_date"@
    ||| name == "time_on"@
    ||| name == "band"@
    ||| name == "mode"@
}

/// Missing mandatory field: a table that lacks one of the six mandatory
/// fields is not a record.
pub proof fn law_missing_field(fields: Seq<Token>, name: Seq<char>)
    requires
        is_mandatory(name),
        lookup(fields, name) is None,
    ensures
        record_of_fields(fields) is Err,
{
}

/// A fault in one stretch of a text is the fault of the whole text, unless
/// an earlier stretch has one: what stands before the first marker is read
/// first, and its fault ends the reading.
pub proof fn law_first_fault_ends_reading(part: Seq<char>, rest: Seq<char>)
    requires
        next_marker(part + marker(), 0) == part.len(),
        stretch_records(part) is Err,
    ensures
        decode(part + marker() + rest) == stretch_records(part),
{
    let s = part + marker() + rest;
    let text = part + marker();
    let cut = part.len() as int;
    lemma_next_marker(text, 0);
    assert forall|i: int| 0 <= i < cut implies !marker_at(s, i) by {
        assert(!marker_at(text, i));
        assert(s[i] == text[i]);
        assert(s[i + 1] == text[i + 1]);
        assert(s[i + 2] == text[i + 2]);
        assert(s[i + 3] == text[i + 3]);
        assert(s[i + 4] == text[i + 4]);
    }
    assert(marker_at(s, cut)) by {
        assert(s[cut] == marker()[0]);
        assert(s[cut + 1] == marker()[1]);
        assert(s[cut + 2] == marker()[2]);
        assert(s[cut + 3] == marker()[3]);
        assert(s[cut + 4] == marker()[4]);
    }
    lemma_next_marker_is(s, 0, cut);
    assert(s.take(cut) == part);
}

/// A stretch of text that lacks a mandatory field fails the text it
/// stands at the head of.
pub proof fn law_missing_field_fails(part: Seq<char>, rest: Seq<char>, name: Seq<char>)
    requires
        next_marker(part + marker(), 0) == part.len(),
        trim(part).len() > 0,
        is_mandatory(name),
        tokens_of(trim(part)) matches Ok(tokens) ==> lookup(table_of(tokens), name) is None,
    ensures
        decode(part + marker() + rest) is Err,
{
    match tokens_of(trim(part)) {
        Ok(tokens) => {
            law_missing_field(table_of(tokens), name);
        },
        Err(_) => {},
    }
    law_first_fault_ends_reading(part, rest);
}

/// Whether `name` is a plain name.
pub fn plain(name: &str) -> (b: bool)
    ensures
        b == plain_name(name@),
{
    let chars = to_chars(name);
    let mut i: usize = 0;
    while i < chars.len()
        invariant
            i <= chars.len(),
            chars@ == name@,
            forall|k: int| 0 <= k < i ==> chars@[k] != ':' && chars@[k] != '>',
        decreases chars.len() - i,
    {
        if chars[i] == ':' || chars[i] == '>' {
            return false;
        }
        i += 1;
    }
    let lower = to_lowercase(name);
    if !str_eq(lower.as_str(), name) {
        return false;
    }
    !(str_eq(name, "call") || str_eq(name, "station_callsign") || str_eq(name, "qso_date")
        || str_eq(name, "time_on") || str_eq(name, "band") || str_eq(name, "mode") || str_eq(
        name,
        "time_off",
    ) || str_eq(name, "freq") || str_eq(name, "rst_sent") || str_eq(name, "rst_rcvd") || str_eq(
        name,
        "qth",
    ) || str_eq(name, "name") || str_eq(name, "comment"))
}

/// Whether `qso` is writable and sealed, that is, whether writing it and
/// reading the text again is sure to give it back.
pub fn reads_back(qso: &QsoRecord) -> (b: bool)
    ensures
        b == (writable(qso@) && sealed(qso@)),
        b ==> decode(encode(qso@)) == Ok::<Seq<QsoRecordView>, Seq<char>>(seq![qso@]),
{
    qso.validity();
    if qso.time_on.second() != 0 {
        return false;
    }
    match &qso.time_off {
        Some(t) => {
            if t.second() != 0 {
                return false;
            }
        },
        None => {},
    }
    let count = qso.additional_fields.len();
    let mut i: usize = 0;
    while i < count
        invariant
            i <= count,
            count == qso.additional_fields@.len(),
            forall|k: int| 0 <= k < i ==> plain_name(#[trigger] qso.additional_fields@[k].0),
        decreases count - i,
    {
        if !plain(qso.additional_fields.name_at(i).as_str()) {
            return false;
        }
        i += 1;
    }
    assert(writable(qso@));
    let text = crate::adif::AdifParser::to_adif(qso);
    let chars = to_chars(text.as_str());
    let n = chars.len();
    assert(chars@.skip(0) == chars@);
    if n < 6 {
        return false;
    }
    let cut = crate::adif::find_marker(&chars, 0);
    let b = cut == n - 5 && !white_space(chars[n - 6]);
    proof {
        if b {
            law_round_trip(qso@);
        }
    }
    b
}

} // verus!
