//! The records of a logbook and the values that the service exchanges.

use crate::calendar::{Date, DateView, Time, TimeView};
use crate::decimal::{decimal_text, push_decimal};
use crate::fields::{distinct_names, FieldTable};
use crate::frequency::{is_float_text, Frequency};
use crate::text::{join, push_text, string_of};
use vstd::prelude::*;
use vstd::string::*;

verus! {

/// The text of an optional string.
pub open spec fn opt_text(o: Option<String>) -> Option<Seq<char>> {
    match o {
        Some(s) => Some(s@),
        None => None,
    }
}

/// What an optional time of day is.
pub open spec fn opt_time(o: Option<Time>) -> Option<TimeView> {
    match o {
        Some(t) => Some(t@),
        None => None,
    }
}

/// What an optional date is.
pub open spec fn opt_date(o: Option<Date>) -> Option<DateView> {
    match o {
        Some(d) => Some(d@),
        None => None,
    }
}

/// The text of an optional frequency.
pub open spec fn opt_freq(o: Option<Frequency>) -> Option<Seq<char>> {
    match o {
        Some(f) => Some(f@),
        None => None,
    }
}

/// The text of an optional string slice.
pub open spec fn opt_str(o: Option<&str>) -> Option<Seq<char>> {
    match o {
        Some(s) => Some(s@),
        None => None,
    }
}

/// A copy of an optional string.
pub fn clone_opt(o: &Option<String>) -> (r: Option<String>)
    ensures
        opt_text(r) == opt_text(*o),
{
    match o {
        Some(s) => Some(s.clone()),
        None => None,
    }
}

/// One radio contact.
#[derive(Debug)]
pub struct QsoRecord {
    /// The station that was contacted.
    pub call: String,
    /// The station that keeps the log.
    pub station_callsign: String,
    /// The day of the contact.
    pub qso_date: Date,
    /// When the contact began.
    pub time_on: Time,
    /// When the contact ended.
    pub time_off: Option<Time>,
    /// The band, such as `20m`.
    pub band: String,
    /// The mode, such as `SSB`.
    pub mode: String,
    /// The frequency in MHz.
    pub freq: Option<Frequency>,
    /// The signal report that was sent.
    pub rst_sent: Option<String>,
    /// The signal report that was received.
    pub rst_rcvd: Option<String>,
    /// The place of the contacted station.
    pub qth: Option<String>,
    /// The operator's name.
    pub name: Option<String>,
    /// A free remark.
    pub comment: Option<String>,
    /// Every other ADIF field, by its lowercase name.
    pub additional_fields: FieldTable,
}

/// What a contact record is.
pub struct QsoRecordView {
    pub call: Seq<char>,
    pub station_callsign: Seq<char>,
    pub qso_date: DateView,
    pub time_on: TimeView,
    pub time_off: Option<TimeView>,
    pub band: Seq<char>,
    pub mode: Seq<char>,
    pub freq: Option<Seq<char>>,
    pub rst_sent: Option<Seq<char>>,
    pub rst_rcvd: Option<Seq<char>>,
    pub qth: Option<Seq<char>>,
    pub name: Option<Seq<char>>,
    pub comment: Option<Seq<char>>,
    pub additional_fields: Seq<(Seq<char>, Seq<char>)>,
}

impl QsoRecordView {
    /// What every record that the library hands out satisfies: its date
    /// exists, its times are times, its frequency reads as a number, and no
    /// additional field occurs twice.
    pub open spec fn is_valid(self) -> bool {
        &&& self.qso_date.is_valid()
        &&& self.time_on.is_valid()
        &&& (self.time_off matches Some(t) ==> t.is_valid())
        &&& (self.freq matches Some(f) ==> is_float_text(f))
        &&& distinct_names(self.additional_fields)
    }
}

impl View for QsoRecord {
    type V = QsoRecordView;

    open spec fn view(&self) -> QsoRecordView {
        QsoRecordView {
            call: self.call@,
            station_callsign: self.station_callsign@,
            qso_date: self.qso_date@,
            time_on: self.time_on@,
            time_off: opt_time(self.time_off),
            band: self.band@,
            mode: self.mode@,
            freq: opt_freq(self.freq),
            rst_sent: opt_text(self.rst_sent),
            rst_rcvd: opt_text(self.rst_rcvd),
            qth: opt_text(self.qth),
            name: opt_text(self.name),
            comment: opt_text(self.comment),
            additional_fields: self.additional_fields@,
        }
    }
}

impl Clone for QsoRecord {
    fn clone(&self) -> (r: Self)
        ensures
            r@ == self@,
    {
        QsoRecord {
            call: self.call.clone(),
            station_callsign: self.station_callsign.clone(),
            qso_date: self.qso_date,
            time_on: self.time_on,
            time_off: self.time_off,
            band: self.band.clone(),
            mode: self.mode.clone(),
            freq: match &self.freq {
                Some(f) => Some(f.clone()),
                None => None,
            },
            rst_sent: clone_opt(&self.rst_sent),
            rst_rcvd: clone_opt(&self.rst_rcvd),
            qth: clone_opt(&self.qth),
            name: clone_opt(&self.name),
            comment: clone_opt(&self.comment),
            additional_fields: self.additional_fields.clone(),
        }
    }
}

impl QsoRecord {
    /// A builder with nothing set.
    pub fn builder() -> (b: QsoRecordBuilder)
        ensures
            b@ == QsoRecordBuilderView::empty(),
    {
        QsoRecordBuilder::new()
    }

    /// Tells what holds of every record.
    pub fn validity(&self)
        ensures
            self@.is_valid(),
    {
        let _ = self.qso_date.year();
        let _ = self.time_on.hour();
        match &self.time_off {
            Some(t) => {
                let _ = t.hour();
            },
            None => {},
        }
        match &self.freq {
            Some(f) => {
                let _ = f.as_str();
            },
            None => {},
        }
        let _ = self.additional_fields.len();
    }
}

/// Collects the fields of a record one by one.
#[derive(Debug)]
pub struct QsoRecordBuilder {
    call: Option<String>,
    station_callsign: Option<String>,
    qso_date: Option<Date>,
    time_on: Option<Time>,
    time_off: Option<Time>,
    band: Option<String>,
    mode: Option<String>,
    freq: Option<Frequency>,
    rst_sent: Option<String>,
    rst_rcvd: Option<String>,
    qth: Option<String>,
    name: Option<String>,
    comment: Option<String>,
    additional_fields: FieldTable,
}

/// What a builder holds: each field that was set.
pub struct QsoRecordBuilderView {
    pub call: Option<Seq<char>>,
    pub station_callsign: Option<Seq<char>>,
    pub qso_date: Option<DateView>,
    pub time_on: Option<TimeView>,
    pub time_off: Option<TimeView>,
    pub band: Option<Seq<char>>,
    pub mode: Option<Seq<char>>,
    pub freq: Option<Seq<char>>,
    pub rst_sent: Option<Seq<char>>,
    pub rst_rcvd: Option<Seq<char>>,
    pub qth: Option<Seq<char>>,
    pub name: Option<Seq<char>>,
    pub comment: Option<Seq<char>>,
    pub additional_fields: Seq<(Seq<char>, Seq<char>)>,
}

/// `o`, or the empty text where nothing was set.
pub open spec fn text_or_empty(o: Option<Seq<char>>) -> Seq<char> {
    match o {
        Some(s) => s,
        None => Seq::empty(),
    }
}

impl QsoRecordBuilderView {
    /// The builder in which nothing was set.
    pub open spec fn empty() -> QsoRecordBuilderView {
        QsoRecordBuilderView {
            call: None,
            station_callsign: None,
            qso_date: None,
            time_on: None,
            time_off: None,
            band: None,
            mode: None,
            freq: None,
            rst_sent: None,
            rst_rcvd: None,
            qth: None,
            name: None,
            comment: None,
            additional_fields: Seq::empty(),
        }
    }

    /// The record that the builder stands for. A mandatory text that was not
    /// set is empty, a date that was not set is 1 January 1900, and a start
    /// time that was not set is midnight.
    pub open spec fn built(self) -> QsoRecordView {
        QsoRecordView {
            call: text_or_empty(self.call),
            station_callsign: text_or_empty(self.station_callsign),
            qso_date: match self.qso_date {
                Some(d) => d,
                None => DateView { year: 1900, month: 1, day: 1 },
            },
            time_on: match self.time_on {
                Some(t) => t,
                None => TimeView { hour: 0, minute: 0, second: 0 },
            },
            time_off: self.time_off,
            band: text_or_empty(self.band),
            mode: text_or_empty(self.mode),
            freq: self.freq,
            rst_sent: self.rst_sent,
            rst_rcvd: self.rst_rcvd,
            qth: self.qth,
            name: self.name,
            comment: self.comment,
            additional_fields: self.additional_fields,
        }
    }
}

impl View for QsoRecordBuilder {
    type V = QsoRecordBuilderView;

    closed spec fn view(&self) -> QsoRecordBuilderView {
        QsoRecordBuilderView {
            call: opt_text(self.call),
            station_callsign: opt_text(self.station_callsign),
            qso_date: opt_date(self.qso_date),
            time_on: opt_time(self.time_on),
            time_off: opt_time(self.time_off),
            band: opt_text(self.band),
            mode: opt_text(self.mode),
            freq: opt_freq(self.freq),
            rst_sent: opt_text(self.rst_sent),
            rst_rcvd: opt_text(self.rst_rcvd),
            qth: opt_text(self.qth),
            name: opt_text(self.name),
            comment: opt_text(self.comment),
            additional_fields: self.additional_fields@,
        }
    }
}

fn owned_or_empty(o: Option<String>) -> (s: String)
    ensures
        s@ == text_or_empty(opt_text(o)),
{
    match o {
        Some(s) => s,
        None => String::new(),
    }
}

impl Default for QsoRecordBuilder {
    fn default() -> (b: Self)
        ensures
            b@ == QsoRecordBuilderView::empty(),
    {
        QsoRecordBuilder {
            call: None,
            station_callsign: None,
            qso_date: None,
            time_on: None,
            time_off: None,
            band: None,
            mode: None,
            freq: None,
            rst_sent: None,
            rst_rcvd: None,
            qth: None,
            name: None,
            comment: None,
            additional_fields: FieldTable::new(),
        }
    }
}

impl QsoRecordBuilder {
    /// A builder with nothing set.
    pub fn new() -> (b: Self)
        ensures
            b@ == QsoRecordBuilderView::empty(),
    {
        QsoRecordBuilder::default()
    }

    pub fn call(self, call: &str) -> (b: Self)
        ensures
            b@ == (QsoRecordBuilderView { call: Some(call@), ..self@ }),
    {
        let mut this = self;
        this.call = Some(call.to_owned());
        this
    }

    pub fn station_callsign(self, callsign: &str) -> (b: Self)
        ensures
            b@ == (QsoRecordBuilderView { station_callsign: Some(callsign@), ..self@ }),
    {
        let mut this = self;
        this.station_callsign = Some(callsign.to_owned());
        this
    }

    pub fn date(self, date: Date) -> (b: Self)
        ensures
            b@ == (QsoRecordBuilderView { qso_date: Some(date@), ..self@ }),
    {
        let mut this = self;
        this.qso_date = Some(date);
        this
    }

    pub fn time_on(self, time: Time) -> (b: Self)
        ensures
            b@ == (QsoRecordBuilderView { time_on: Some(time@), ..self@ }),
    {
        let mut this = self;
        this.time_on = Some(time);
        this
    }

    pub fn time_off(self, time: Time) -> (b: Self)
        ensures
            b@ == (QsoRecordBuilderView { time_off: Some(time@), ..self@ }),
    {
        let mut this = self;
        this.time_off = Some(time);
        this
    }

    pub fn band(self, band: &str) -> (b: Self)
        ensures
            b@ == (QsoRecordBuilderView { band: Some(band@), ..self@ }),
    {
        let mut this = self;
        this.band = Some(band.to_owned());
        this
    }

    pub fn mode(self, mode: &str) -> (b: Self)
        ensures
            b@ == (QsoRecordBuilderView { mode: Some(mode@), ..self@ }),
    {
        let mut this = self;
        this.mode = Some(mode.to_owned());
        this
    }

    pub fn freq(self, freq: Frequency) -> (b: Self)
        ensures
            b@ == (QsoRecordBuilderView { freq: Some(freq@), ..self@ }),
    {
        let mut this = self;
        this.freq = Some(freq);
        this
    }

    pub fn rst_sent(self, rst: &str) -> (b: Self)
        ensures
            b@ == (QsoRecordBuilderView { rst_sent: Some(rst@), ..self@ }),
    {
        let mut this = self;
        this.rst_sent = Some(rst.to_owned());
        this
    }

    pub fn rst_rcvd(self, rst: &str) -> (b: Self)
        ensures
            b@ == (QsoRecordBuilderView { rst_rcvd: Some(rst@), ..self@ }),
    {
        let mut this = self;
        this.rst_rcvd = Some(rst.to_owned());
        this
    }

    pub fn qth(self, qth: &str) -> (b: Self)
        ensures
            b@ == (QsoRecordBuilderView { qth: Some(qth@), ..self@ }),
    {
        let mut this = self;
        this.qth = Some(qth.to_owned());
        this
    }

    pub fn name(self, name: &str) -> (b: Self)
        ensures
            b@ == (QsoRecordBuilderView { name: Some(name@), ..self@ }),
    {
        let mut this = self;
        this.name = Some(name.to_owned());
        this
    }

    pub fn comment(self, comment: &str) -> (b: Self)
        ensures
            b@ == (QsoRecordBuilderView { comment: Some(comment@), ..self@ }),
    {
        let mut this = self;
        this.comment = Some(comment.to_owned());
        this
    }

    /// Sets a field that the record has no attribute for. A value set
    /// earlier under the same name is replaced.
    pub fn additional_field(self, key: &str, value: &str) -> (b: Self)
        ensures
            b@ == (QsoRecordBuilderView {
                additional_fields: crate::fields::put(self@.additional_fields, key@, value@),
                ..self@
            }),
    {
        let mut this = self;
        let _ = this.additional_fields.insert(key.to_owned(), value.to_owned());
        this
    }

    /// The record of what was set.
    pub fn build(self) -> (r: QsoRecord)
        ensures
            r@ == self@.built(),
    {
        let qso_date = match self.qso_date {
            Some(d) => d,
            None => Date::from_ymd_opt(1900, 1, 1).unwrap(),
        };
        let time_on = match self.time_on {
            Some(t) => t,
            None => Time::from_hms_opt(0, 0, 0).unwrap(),
        };
        QsoRecord {
            call: owned_or_empty(self.call),
            station_callsign: owned_or_empty(self.station_callsign),
            qso_date,
            time_on,
            time_off: self.time_off,
            band: owned_or_empty(self.band),
            mode: owned_or_empty(self.mode),
            freq: self.freq,
            rst_sent: self.rst_sent,
            rst_rcvd: self.rst_rcvd,
            qth: self.qth,
            name: self.name,
            comment: self.comment,
            additional_fields: self.additional_fields,
        }
    }
}

/// What the service answers to an insertion.
#[derive(Debug, Clone)]
pub struct InsertResponse {
    /// The identifier that the service gave the record.
    pub logid: u64,
    /// The number of records that were inserted.
    pub count: u32,
}

/// What the service answers to a deletion.
#[derive(Debug, Clone)]
pub struct DeleteResponse {
    /// The number of records that were deleted.
    pub deleted_count: u32,
    /// The identifiers that the service did not find.
    pub not_found_logids: Vec<u64>,
}

/// What the service answers to a question about the logbook.
#[derive(Debug, Clone)]
pub struct StatusResponse {
    /// The facts about the logbook, by name.
    pub data: FieldTable,
}

/// What the service answers to a query.
#[derive(Debug, Clone)]
pub struct FetchResponse {
    /// The number of records that the service counted.
    pub count: u32,
    /// The identifiers of the records.
    pub logids: Vec<u64>,
    /// The records.
    pub qsos: Vec<QsoRecord>,
}

/// Which records to ask the service for.
#[derive(Debug)]
pub struct FetchOptions {
    /// Every record.
    pub all: bool,
    /// Records of this band.
    pub band: Option<String>,
    /// Records of this mode.
    pub mode: Option<String>,
    /// Records of this station.
    pub call: Option<String>,
    /// No more records than this.
    pub max: Option<u32>,
    /// Records after this identifier.
    pub after_logid: Option<u64>,
    /// Records from this day on.
    pub date_from: Option<Date>,
    /// Records up to this day.
    pub date_to: Option<Date>,
}

/// What a query is.
pub struct FetchOptionsView {
    pub all: bool,
    pub band: Option<Seq<char>>,
    pub mode: Option<Seq<char>>,
    pub call: Option<Seq<char>>,
    pub max: Option<u32>,
    pub after_logid: Option<u64>,
    pub date_from: Option<DateView>,
    pub date_to: Option<DateView>,
}

/// One part of an option string: the label and the value where there is a
/// value, nothing where there is none.
pub open spec fn labelled(label: Seq<char>, value: Option<Seq<char>>) -> Seq<Seq<char>> {
    match value {
        Some(v) => seq![label + v],
        None => Seq::empty(),
    }
}

/// The numeral of an optional number.
pub open spec fn opt_decimal(n: Option<int>) -> Option<Seq<char>> {
    match n {
        Some(v) => Some(decimal_text(v as nat)),
        None => None,
    }
}

/// An optional date as `YYYYMMDD`.
pub open spec fn opt_compact(d: Option<DateView>) -> Option<Seq<char>> {
    match d {
        Some(v) => Some(v.compact()),
        None => None,
    }
}

impl FetchOptionsView {
    /// The query that asks for nothing in particular.
    pub open spec fn empty() -> FetchOptionsView {
        FetchOptionsView {
            all: false,
            band: None,
            mode: None,
            call: None,
            max: None,
            after_logid: None,
            date_from: None,
            date_to: None,
        }
    }

    /// The parts of the option string, in their order.
    pub open spec fn parts(self) -> Seq<Seq<char>> {
        labelled(
            "ALL"@,
            if self.all {
                Some(Seq::empty())
            } else {
                None
            },
        ) + labelled("BAND:"@, self.band) + labelled("MODE:"@, self.mode) + labelled(
            "CALL:"@,
            self.call,
        ) + labelled(
            "MAX:"@,
            opt_decimal(
                match self.max {
                    Some(v) => Some(v as int),
                    None => None,
                },
            ),
        ) + labelled(
            "AFTERLOGID:"@,
            opt_decimal(
                match self.after_logid {
                    Some(v) => Some(v as int),
                    None => None,
                },
            ),
        ) + labelled("DATEFROM:"@, opt_compact(self.date_from)) + labelled(
            "DATETO:"@,
            opt_compact(self.date_to),
        )
    }

    /// The option string: the parts with commas between them.
    pub open spec fn option_string(self) -> Seq<char> {
        join(self.parts(), seq![','])
    }
}

impl View for FetchOptions {
    type V = FetchOptionsView;

    open spec fn view(&self) -> FetchOptionsView {
        FetchOptionsView {
            all: self.all,
            band: opt_text(self.band),
            mode: opt_text(self.mode),
            call: opt_text(self.call),
            max: self.max,
            after_logid: self.after_logid,
            date_from: opt_date(self.date_from),
            date_to: opt_date(self.date_to),
        }
    }
}

impl Clone for FetchOptions {
    fn clone(&self) -> (r: Self)
        ensures
            r@ == self@,
    {
        FetchOptions {
            all: self.all,
            band: clone_opt(&self.band),
            mode: clone_opt(&self.mode),
            call: clone_opt(&self.call),
            max: self.max,
            after_logid: self.after_logid,
            date_from: self.date_from,
            date_to: self.date_to,
        }
    }
}

impl Default for FetchOptions {
    fn default() -> (r: Self)
        ensures
            r@ == FetchOptionsView::empty(),
    {
        FetchOptions {
            all: false,
            band: None,
            mode: None,
            call: None,
            max: None,
            after_logid: None,
            date_from: None,
            date_to: None,
        }
    }
}

/// Appends one part to an option string that holds `parts` so far.
fn add_part(
    out: &mut Vec<char>,
    label: &str,
    value: Option<&str>,
    Ghost(parts): Ghost<Seq<Seq<char>>>,
)
    requires
        old(out)@ == join(parts, seq![',']),
        old(out)@.len() == 0 ==> parts.len() == 0,
        label@.len() > 0,
    ensures
        final(out)@ == join(parts + labelled(label@, opt_str(value)), seq![',']),
        final(out)@.len() == 0 ==> (parts + labelled(label@, opt_str(value))).len()
            == 0,
{
    match value {
        Some(v) => {
            let ghost part = label@ + v@;
            let ghost grown = parts.push(part);
            assert(parts + seq![part] == grown);
            assert(grown.drop_last() == parts);
            if out.len() > 0 {
                out.push(',');
                assert(parts.len() > 0) by {
                    if parts.len() == 0 {
                        assert(join(parts, seq![',']).len() == 0);
                    }
                }
                assert(old(out)@.push(',') == old(out)@ + seq![',']);
            } else {
                assert(Seq::<char>::empty() + part == part);
                assert(out@ + part == part);
            }
            push_text(out, label);
            push_text(out, v);
            assert(out@ == join(grown, seq![',']));
        },
        None => {
            assert(parts + Seq::<Seq<char>>::empty() == parts);
        },
    }
}

impl FetchOptions {
    /// The query that asks for nothing in particular.
    pub fn new() -> (r: Self)
        ensures
            r@ == FetchOptionsView::empty(),
    {
        FetchOptions::default()
    }

    /// The query for every record.
    pub fn all() -> (r: Self)
        ensures
            r@ == (FetchOptionsView { all: true, ..FetchOptionsView::empty() }),
    {
        let mut r = FetchOptions::default();
        r.all = true;
        r
    }

    pub fn band(self, band: &str) -> (r: Self)
        ensures
            r@ == (FetchOptionsView { band: Some(band@), ..self@ }),
    {
        let mut this = self;
        this.band = Some(band.to_owned());
        this
    }

    pub fn mode(self, mode: &str) -> (r: Self)
        ensures
            r@ == (FetchOptionsView { mode: Some(mode@), ..self@ }),
    {
        let mut this = self;
        this.mode = Some(mode.to_owned());
        this
    }

    pub fn call(self, call: &str) -> (r: Self)
        ensures
            r@ == (FetchOptionsView { call: Some(call@), ..self@ }),
    {
        let mut this = self;
        this.call = Some(call.to_owned());
        this
    }

    pub fn max(self, max: u32) -> (r: Self)
        ensures
            r@ == (FetchOptionsView { max: Some(max), ..self@ }),
    {
        let mut this = self;
        this.max = Some(max);
        this
    }

    pub fn after_logid(self, logid: u64) -> (r: Self)
        ensures
            r@ == (FetchOptionsView { after_logid: Some(logid), ..self@ }),
    {
        let mut this = self;
        this.after_logid = Some(logid);
        this
    }

    pub fn date_range(self, from: Date, to: Date) -> (r: Self)
        ensures
            r@ == (FetchOptionsView { date_from: Some(from@), date_to: Some(to@), ..self@ }),
    {
        let mut this = self;
        this.date_from = Some(from);
        this.date_to = Some(to);
        this
    }

    /// The option string that the service reads.
    pub fn to_option_string(&self) -> (s: String)
        ensures
            s@ == self@.option_string(),
    {
        proof {
            reveal_strlit("ALL");
            reveal_strlit("BAND:");
            reveal_strlit("MODE:");
            reveal_strlit("CALL:");
            reveal_strlit("MAX:");
            reveal_strlit("AFTERLOGID:");
            reveal_strlit("DATEFROM:");
            reveal_strlit("DATETO:");
        }
        let mut out: Vec<char> = Vec::new();
        let ghost so_far_0 = Seq::<Seq<char>>::empty();
        let all = if self.all {
            Some("")
        } else {
            None
        };
        proof {
            reveal_strlit("");
            assert(""@ == Seq::<char>::empty());
        }
        add_part(&mut out, "ALL", all, Ghost(so_far_0));
        let ghost so_far_1 = so_far_0 + labelled(
            "ALL"@,
            if self.all {
                Some(Seq::empty())
            } else {
                None
            },
        );
        add_part(&mut out, "BAND:", option_str(&self.band), Ghost(so_far_1));
        let ghost so_far_2 = so_far_1 + labelled("BAND:"@, self@.band);
        add_part(&mut out, "MODE:", option_str(&self.mode), Ghost(so_far_2));
        let ghost so_far_3 = so_far_2 + labelled("MODE:"@, self@.mode);
        add_part(&mut out, "CALL:", option_str(&self.call), Ghost(so_far_3));
        let ghost so_far_4 = so_far_3 + labelled("CALL:"@, self@.call);
        let max = match self.max {
            Some(v) => Some(numeral_string(v as u64)),
            None => None,
        };
        add_part(&mut out, "MAX:", option_str(&max), Ghost(so_far_4));
        let ghost so_far_5 = so_far_4 + labelled("MAX:"@, opt_text(max));
        let after = match self.after_logid {
            Some(v) => Some(numeral_string(v)),
            None => None,
        };
        add_part(&mut out, "AFTERLOGID:", option_str(&after), Ghost(so_far_5));
        let ghost so_far_6 = so_far_5 + labelled("AFTERLOGID:"@, opt_text(after));
        let from = match &self.date_from {
            Some(d) => Some(d.compact()),
            None => None,
        };
        add_part(&mut out, "DATEFROM:", option_str(&from), Ghost(so_far_6));
        let ghost so_far_7 = so_far_6 + labelled("DATEFROM:"@, opt_text(from));
        let to = match &self.date_to {
            Some(d) => Some(d.compact()),
            None => None,
        };
        add_part(&mut out, "DATETO:", option_str(&to), Ghost(so_far_7));
        assert(so_far_0 + labelled(
            "ALL"@,
            if self.all {
                Some(Seq::<char>::empty())
            } else {
                None
            },
        ) == labelled(
            "ALL"@,
            if self.all {
                Some(Seq::<char>::empty())
            } else {
                None
            },
        ));
        string_of(&out)
    }
}

/// The numeral of `n` as a string.
pub fn numeral_string(n: u64) -> (s: String)
    ensures
        s@ == decimal_text(n as nat),
{
    let mut out: Vec<char> = Vec::new();
    push_decimal(&mut out, n);
    assert(Seq::<char>::empty() + decimal_text(n as nat) == decimal_text(n as nat));
    string_of(&out)
}

/// An optional string as an optional slice.
pub fn option_str(o: &Option<String>) -> (r: Option<&str>)
    ensures
        opt_str(r) == opt_text(*o),
{
    match o {
        Some(s) => Some(s.as_str()),
        None => None,
    }
}

} // verus!
