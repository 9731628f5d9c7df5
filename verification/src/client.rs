//! The rules of the QRZ logbook service: who may ask, what a request holds,
//! and what an answer means.
//!
//! Nothing here talks to the network. A request is a list of form fields to
//! send, and an answer is the text that came back.

use crate::adif::{decode, encode, record_views, AdifParser, Token};
use crate::decimal::{decimal_text, parse_unsigned, unsigned_u64};
use crate::error::{ErrorView, QrzLogbookError, QrzLogbookResult};
use crate::fields::{lookup, pairs_of, put, FieldTable};
use crate::models::{
    numeral_string, opt_text, DeleteResponse, FetchOptions, FetchOptionsView, FetchResponse,
    InsertResponse, QsoRecord, QsoRecordView, StatusResponse,
};
use crate::text::{
    contains, contains_text, copy_range, find_char, first_index, join, lowercase, push_text,
    split, split_on, str_eq, string_of, texts_of, to_chars, to_lowercase, trim, trim_bounds,
};
use vstd::prelude::*;
use vstd::string::*;
use vstd::utf8::encode_utf8;

verus! {

/// The number of records that one page of a long query asks for.
pub const PAGE_SIZE: u32 = 250;

// ---------------------------------------------------------------------------
// Who may ask
// ---------------------------------------------------------------------------

/// A user agent, in lowercase, that names a generic tool and nobody in
/// particular.
pub open spec fn is_generic_agent(agent: Seq<char>) -> bool {
    ||| contains(agent, "python-requests"@)
    ||| contains(agent, "node-fetch"@)
    ||| agent == "curl"@
    ||| agent == "wget"@
}

/// What is wrong with a key and a user agent, if anything: a key of fewer
/// than ten bytes, or a user agent that is empty, longer than 128 bytes or
/// generic.
pub open spec fn credentials_fault(key: Seq<char>, agent: Seq<char>) -> Option<ErrorView> {
    if encode_utf8(key).len() < 10 {
        Some(ErrorView::InvalidKey)
    } else if agent.len() == 0 || encode_utf8(agent).len() > 128 || is_generic_agent(
        lowercase(agent),
    ) {
        Some(ErrorView::InvalidUserAgent)
    } else {
        None
    }
}

/// A key and a user agent that the service accepts requests under.
#[derive(Debug)]
pub struct QrzLogbookClient {
    api_key: String,
    user_agent: String,
}

impl QrzLogbookClient {
    /// The key of the client.
    pub closed spec fn key(&self) -> Seq<char> {
        self.api_key@
    }

    /// The user agent of the client.
    pub closed spec fn agent(&self) -> Seq<char> {
        self.user_agent@
    }

    #[verifier::type_invariant]
    closed spec fn accepted(self) -> bool {
        credentials_fault(self.api_key@, self.user_agent@) is None
    }

    /// A client for the given key and user agent, if both are acceptable.
    pub fn new(api_key: &str, user_agent: &str) -> (r: QrzLogbookResult<QrzLogbookClient>)
        ensures
            match r {
                Ok(client) => credentials_fault(api_key@, user_agent@) is None && client.key()
                    == api_key@ && client.agent() == user_agent@,
                Err(e) => credentials_fault(api_key@, user_agent@) == Some(e@),
            },
    {
        if api_key.as_bytes().len() < 10 {
            return Err(QrzLogbookError::InvalidKey);
        }
        if user_agent.is_empty() || user_agent.as_bytes().len() > 128 {
            return Err(QrzLogbookError::InvalidUserAgent);
        }
        let lower = to_lowercase(user_agent);
        let lower_chars = to_chars(lower.as_str());
        let requests = to_chars("python-requests");
        let fetch = to_chars("node-fetch");
        if contains_text(&lower_chars, &requests) || contains_text(&lower_chars, &fetch) || str_eq(
            lower.as_str(),
            "curl",
        ) || str_eq(lower.as_str(), "wget") {
            return Err(QrzLogbookError::InvalidUserAgent);
        }
        Ok(QrzLogbookClient { api_key: api_key.to_owned(), user_agent: user_agent.to_owned() })
    }

    pub fn api_key(&self) -> (s: &str)
        ensures
            s@ == self.key(),
            credentials_fault(self.key(), self.agent()) is None,
    {
        proof {
            use_type_invariant(self);
        }
        self.api_key.as_str()
    }

    pub fn user_agent(&self) -> (s: &str)
        ensures
            s@ == self.agent(),
            credentials_fault(self.key(), self.agent()) is None,
    {
        proof {
            use_type_invariant(self);
        }
        self.user_agent.as_str()
    }
}

// ---------------------------------------------------------------------------
// What a request holds
// ---------------------------------------------------------------------------

/// The form fields of an insertion.
pub open spec fn insert_params(key: Seq<char>, adif: Seq<char>, replace: bool) -> Seq<Token> {
    seq![("KEY"@, key), ("ACTION"@, "INSERT"@), ("ADIF"@, adif)] + if replace {
        seq![("OPTION"@, "REPLACE"@)]
    } else {
        Seq::empty()
    }
}

/// The numerals of a list of numbers.
pub open spec fn numerals(ids: Seq<u64>) -> Seq<Seq<char>> {
    Seq::new(ids.len(), |i: int| decimal_text(ids[i] as nat))
}

/// The form fields of a deletion.
pub open spec fn delete_params(key: Seq<char>, logids: Seq<u64>) -> Seq<Token> {
    seq![("KEY"@, key), ("ACTION"@, "DELETE"@), ("LOGIDS"@, join(numerals(logids), seq![',']))]
}

/// The form fields of a question about the logbook.
pub open spec fn status_params(key: Seq<char>) -> Seq<Token> {
    seq![("KEY"@, key), ("ACTION"@, "STATUS"@)]
}

/// The form fields of a query: the option string is left out where it is
/// empty.
pub open spec fn fetch_params(key: Seq<char>, options: FetchOptionsView) -> Seq<Token> {
    seq![("KEY"@, key), ("ACTION"@, "FETCH"@)] + if options.option_string().len() > 0 {
        seq![("OPTION"@, options.option_string())]
    } else {
        Seq::empty()
    }
}

fn field(name: &str, value: &str) -> (r: (String, String))
    ensures
        r.0@ == name@,
        r.1@ == value@,
{
    (name.to_owned(), value.to_owned())
}

/// The numerals of `ids` with commas between them.
pub fn join_numbers(ids: &Vec<u64>) -> (s: String)
    ensures
        s@ == join(numerals(ids@), seq![',']),
{
    let ghost parts = numerals(ids@);
    let mut out: Vec<char> = Vec::new();
    let mut i: usize = 0;
    assert(parts.take(0).len() == 0);
    while i < ids.len()
        invariant
            i <= ids.len(),
            parts == numerals(ids@),
            out@ == join(parts.take(i as int), seq![',']),
        decreases ids.len() - i,
    {
        let ghost before = out@;
        if i > 0 {
            out.push(',');
        }
        let numeral = numeral_string(ids[i]);
        push_text(&mut out, numeral.as_str());
        proof {
            let grown = parts.take(i + 1);
            assert(grown.drop_last() == parts.take(i as int));
            assert(grown.last() == numeral@);
            if i == 0 {
                assert(before.len() == 0);
                assert(out@ == numeral@);
            } else {
                assert(before.push(',') == before + seq![',']);
            }
        }
        i += 1;
    }
    assert(parts.take(ids.len() as int) == parts);
    string_of(&out)
}

impl QrzLogbookClient {
    /// The form fields that ask the service to insert a record.
    pub fn insert_request(&self, qso: &QsoRecord, replace: bool) -> (params: Vec<(String, String)>)
        ensures
            pairs_of(params@) == insert_params(self.key(), encode(qso@), replace),
    {
        let adif = AdifParser::to_adif(qso);
        let mut params: Vec<(String, String)> = Vec::new();
        params.push(field("KEY", self.api_key.as_str()));
        params.push(field("ACTION", "INSERT"));
        params.push(field("ADIF", adif.as_str()));
        if replace {
            params.push(field("OPTION", "REPLACE"));
        }
        assert(pairs_of(params@) =~= insert_params(self.key(), encode(qso@), replace));
        params
    }

    /// The form fields that ask the service to delete records. At least one
    /// identifier is needed.
    pub fn delete_request(&self, logids: &Vec<u64>) -> (r: QrzLogbookResult<Vec<(String, String)>>)
        ensures
            match r {
                Ok(params) => logids@.len() > 0 && pairs_of(params@) == delete_params(
                    self.key(),
                    logids@,
                ),
                Err(e) => logids@.len() == 0 && e@ == ErrorView::InvalidParams(
                    "No logids provided"@,
                ),
            },
    {
        if logids.len() == 0 {
            return Err(QrzLogbookError::invalid_params("No logids provided"));
        }
        let joined = join_numbers(logids);
        let mut params: Vec<(String, String)> = Vec::new();
        params.push(field("KEY", self.api_key.as_str()));
        params.push(field("ACTION", "DELETE"));
        params.push(field("LOGIDS", joined.as_str()));
        assert(pairs_of(params@) =~= delete_params(self.key(), logids@));
        Ok(params)
    }

    /// The form fields that ask the service about the logbook.
    pub fn status_request(&self) -> (params: Vec<(String, String)>)
        ensures
            pairs_of(params@) == status_params(self.key()),
    {
        let mut params: Vec<(String, String)> = Vec::new();
        params.push(field("KEY", self.api_key.as_str()));
        params.push(field("ACTION", "STATUS"));
        assert(pairs_of(params@) =~= status_params(self.key()));
        params
    }

    /// The form fields that ask the service for records.
    pub fn fetch_request(&self, options: &FetchOptions) -> (params: Vec<(String, String)>)
        ensures
            pairs_of(params@) == fetch_params(self.key(), options@),
    {
        let option_string = options.to_option_string();
        let mut params: Vec<(String, String)> = Vec::new();
        params.push(field("KEY", self.api_key.as_str()));
        params.push(field("ACTION", "FETCH"));
        if !option_string.as_str().is_empty() {
            params.push(field("OPTION", option_string.as_str()));
        }
        assert(pairs_of(params@) =~= fetch_params(self.key(), options@));
        params
    }
}

// ---------------------------------------------------------------------------
// Long queries, page by page
// ---------------------------------------------------------------------------

/// The largest of a list of numbers; zero for the empty list.
pub open spec fn largest(ids: Seq<u64>) -> u64
    decreases ids.len(),
{
    if ids.len() == 0 {
        0
    } else if ids.last() >= largest(ids.drop_last()) {
        ids.last()
    } else {
        largest(ids.drop_last())
    }
}

/// What to do after a page.
#[derive(Debug, Clone, Copy, PartialEq, Eq)]
pub enum PageStep {
    /// The query is answered.
    Done,
    /// Ask for the next page, after this identifier.
    Next { after_logid: u64 },
}

/// What to do after a page that came with the identifiers `ids` and `count`
/// records, when it was asked for after `after_logid`.
///
/// An empty page ends the query, and so does a page that is not full. The
/// next page starts after the largest identifier of this one; where that
/// is the largest number there is, no record can follow.
pub open spec fn page_step(after_logid: u64, ids: Seq<u64>, count: nat) -> PageStep {
    if count == 0 || count < PAGE_SIZE {
        PageStep::Done
    } else if ids.len() == 0 {
        PageStep::Next { after_logid }
    } else if largest(ids) == u64::MAX {
        PageStep::Done
    } else {
        PageStep::Next { after_logid: (largest(ids) + 1) as u64 }
    }
}

/// The options of one page of a long query: those of the query, for one
/// page of records after `after_logid`.
pub fn page_options(options: &FetchOptions, after_logid: u64) -> (r: FetchOptions)
    ensures
        r@ == (FetchOptionsView {
            max: Some(PAGE_SIZE),
            after_logid: if after_logid > 0 {
                Some(after_logid)
            } else {
                None
            },
            ..options@
        }),
{
    let mut page = options.clone();
    page.max = Some(PAGE_SIZE);
    page.after_logid = if after_logid > 0 {
        Some(after_logid)
    } else {
        None
    };
    page
}

fn largest_of(ids: &Vec<u64>) -> (m: u64)
    ensures
        m == largest(ids@),
{
    let mut m: u64 = 0;
    let mut i: usize = 0;
    assert(ids@.take(0).len() == 0);
    while i < ids.len()
        invariant
            i <= ids.len(),
            m == largest(ids@.take(i as int)),
        decreases ids.len() - i,
    {
        proof {
            assert(ids@.take(i + 1).drop_last() == ids@.take(i as int));
            assert(ids@.take(i + 1).last() == ids@[i as int]);
        }
        if ids[i] >= m {
            m = ids[i];
        }
        i += 1;
    }
    assert(ids@.take(ids.len() as int) == ids@);
    m
}

/// Adds the records of a page to `all` and says what to do next.
pub fn absorb_page(all: &mut Vec<QsoRecord>, after_logid: u64, response: FetchResponse) -> (step:
    PageStep)
    ensures
        record_views(final(all)@) == record_views(old(all)@) + record_views(response.qsos@),
        step == page_step(after_logid, response.logids@, response.qsos@.len()),
{
    let count = response.qsos.len();
    let top = largest_of(&response.logids);
    let has_ids = response.logids.len() > 0;
    let mut page = response.qsos;
    all.append(&mut page);
    assert(record_views(all@) =~= record_views(old(all)@) + record_views(response.qsos@));
    if count == 0 || count < PAGE_SIZE as usize {
        PageStep::Done
    } else if !has_ids {
        PageStep::Next { after_logid }
    } else if top == u64::MAX {
        PageStep::Done
    } else {
        PageStep::Next { after_logid: top + 1 }
    }
}

// ---------------------------------------------------------------------------
// What an answer means
// ---------------------------------------------------------------------------

/// What a percent-encoded text stands for, or nothing where what it stands
/// for is not valid UTF-8; the library does not spell the decoding out.
pub uninterp spec fn percent_decoded(s: Seq<char>) -> Option<Seq<char>>;

/// Decodes a percent-encoded text.
///
/// Trusted: `urlencoding::decode` returns a value that depends on the
/// characters of its argument alone: a text, or an error. The contract
/// gives that value a name and claims nothing else of it.
#[verifier::external_body]
fn url_decode(s: &str) -> (r: Option<String>)
    ensures
        opt_text(r) == percent_decoded(s@),
{
    match urlencoding::decode(s) {
        Ok(text) => Some(text.into_owned()),
        Err(_) => None,
    }
}

/// The two sides of the first `=` of a piece, if it has one.
pub open spec fn pair_of(piece: Seq<char>) -> Option<Token> {
    let cut = first_index(piece, '=', 0);
    if 0 <= cut < piece.len() {
        Some((piece.take(cut), piece.skip(cut + 1)))
    } else {
        None
    }
}

/// The table of the pieces that are pairs, each side decoded, a later pair
/// of one name in the place of an earlier; nothing where a side does not
/// decode.
pub open spec fn decoded_params(pieces: Seq<Seq<char>>) -> Option<Seq<Token>>
    decreases pieces.len(),
{
    if pieces.len() == 0 {
        Some(Seq::empty())
    } else {
        match decoded_params(pieces.drop_last()) {
            None => None,
            Some(table) => match pair_of(pieces.last()) {
                None => Some(table),
                Some((name, value)) => match (percent_decoded(name), percent_decoded(value)) {
                    (Some(n), Some(v)) => Some(put(table, n, v)),
                    _ => None,
                },
            },
        }
    }
}

/// The table of the pieces that are pairs, as they stand.
pub open spec fn plain_params(pieces: Seq<Seq<char>>) -> Seq<Token>
    decreases pieces.len(),
{
    if pieces.len() == 0 {
        Seq::empty()
    } else {
        match pair_of(pieces.last()) {
            None => plain_params(pieces.drop_last()),
            Some((name, value)) => put(plain_params(pieces.drop_last()), name, value),
        }
    }
}

/// The parameters of an answer: its pieces between `&`, decoded.
pub open spec fn response_params(s: Seq<char>) -> Option<Seq<Token>> {
    decoded_params(split_on(s, '&'))
}

/// The parameters of the data of a status answer: its pieces between `&`.
pub open spec fn data_params(s: Seq<char>) -> Seq<Token> {
    plain_params(split_on(s, '&'))
}

/// The error of an answer that cannot be decoded.
pub open spec fn encoding_fault() -> ErrorView {
    ErrorView::Api { reason: "Invalid URL encoding in response"@ }
}

/// Splits a piece at its first `=`.
fn split_pair(piece: &Vec<char>) -> (r: Option<(String, String)>)
    ensures
        match r {
            Some(pair) => pair_of(piece@) == Some((pair.0@, pair.1@)),
            None => pair_of(piece@) is None,
        },
{
    assert(piece@.skip(0) == piece@);
    let cut = find_char(piece, '=', 0);
    if cut < piece.len() {
        let name = crate::text::text_of(piece, 0, cut);
        let value = crate::text::text_of(piece, cut + 1, piece.len());
        assert(piece@.subrange(0, cut as int) == piece@.take(cut as int));
        assert(piece@.subrange(cut + 1, piece.len() as int) == piece@.skip(cut + 1));
        Some((name, value))
    } else {
        None
    }
}

impl QrzLogbookClient {
    /// Reads the parameters of an answer.
    pub fn parse_response_params(&self, response: &str) -> (r: QrzLogbookResult<FieldTable>)
        ensures
            match r {
                Ok(params) => response_params(response@) == Some(params@),
                Err(e) => response_params(response@) is None && e@ == encoding_fault(),
            },
    {
        let chars = to_chars(response);
        let pieces = split(&chars, '&');
        let ghost all = split_on(response@, '&');
        let mut params = FieldTable::new();
        let mut i: usize = 0;
        assert(all.take(0).len() == 0);
        while i < pieces.len()
            invariant
                i <= pieces.len(),
                texts_of(pieces@) == all,
                all == split_on(response@, '&'),
                decoded_params(all.take(i as int)) == Some(params@),
            decreases pieces.len() - i,
        {
            proof {
                assert(all.take(i + 1).drop_last() == all.take(i as int));
                assert(all.take(i + 1).last() == pieces@[i as int]@);
            }
            match split_pair(&pieces[i]) {
                Some((name, value)) => {
                    let n = match url_decode(name.as_str()) {
                        Some(n) => n,
                        None => {
                            proof {
                                lemma_decoding_fault_stays(all, i + 1);
                            }
                            return Err(
                                QrzLogbookError::api_error("Invalid URL encoding in response"),
                            );
                        },
                    };
                    let v = match url_decode(value.as_str()) {
                        Some(v) => v,
                        None => {
                            proof {
                                lemma_decoding_fault_stays(all, i + 1);
                            }
                            return Err(
                                QrzLogbookError::api_error("Invalid URL encoding in response"),
                            );
                        },
                    };
                    let _ = params.insert(n, v);
                },
                None => {},
            }
            i += 1;
        }
        assert(all.take(pieces.len() as int) == all);
        Ok(params)
    }

    /// Reads the parameters of the data of a status answer.
    pub fn parse_data_params(&self, data: &str) -> (r: QrzLogbookResult<FieldTable>)
        ensures
            r matches Ok(params) && params@ == data_params(data@),
    {
        Ok(read_data(data))
    }
}

/// The table of the data of a status answer.
fn read_data(data: &str) -> (params: FieldTable)
    ensures
        params@ == data_params(data@),
{
    let chars = to_chars(data);
    let pieces = split(&chars, '&');
    let ghost all = split_on(data@, '&');
    let mut params = FieldTable::new();
    let mut i: usize = 0;
    assert(all.take(0).len() == 0);
    while i < pieces.len()
        invariant
            i <= pieces.len(),
            texts_of(pieces@) == all,
            plain_params(all.take(i as int)) == params@,
        decreases pieces.len() - i,
    {
        proof {
            assert(all.take(i + 1).drop_last() == all.take(i as int));
            assert(all.take(i + 1).last() == pieces@[i as int]@);
        }
        match split_pair(&pieces[i]) {
            Some((name, value)) => {
                let _ = params.insert(name, value);
            },
            None => {},
        }
        i += 1;
    }
    assert(all.take(pieces.len() as int) == all);
    params
}

/// Once a piece fails to decode, no later piece mends it.
proof fn lemma_decoding_fault_stays(pieces: Seq<Seq<char>>, k: int)
    requires
        0 <= k <= pieces.len(),
        decoded_params(pieces.take(k)) is None,
    ensures
        decoded_params(pieces) is None,
    decreases pieces.len() - k,
{
    if k < pieces.len() {
        assert(pieces.take(k + 1).drop_last() == pieces.take(k));
        lemma_decoding_fault_stays(pieces, k + 1);
    } else {
        assert(pieces.take(k) == pieces);
    }
}

/// What an answer that is not a success says: the reason of a failure, a
/// refusal, or nothing that the client understands.
pub open spec fn failure_of(params: Seq<Token>) -> ErrorView {
    if lookup(params, "RESULT"@) == Some("FAIL"@) {
        ErrorView::Api {
            reason: match lookup(params, "REASON"@) {
                Some(reason) => reason,
                None => "Unknown error"@,
            },
        }
    } else if lookup(params, "RESULT"@) == Some("AUTH"@) {
        ErrorView::Auth
    } else {
        ErrorView::Api { reason: "Unexpected response format"@ }
    }
}

/// What a numeral with an optional leading `+` means as a `u32`.
pub open spec fn unsigned_u32(s: Seq<char>) -> Option<u32> {
    match unsigned_u64(s) {
        Some(v) => if v <= u32::MAX {
            Some(v as u32)
        } else {
            None
        },
        None => None,
    }
}

/// The count of an answer: `default` where it gives none, nothing where
/// what it gives is no number.
pub open spec fn count_of(params: Seq<Token>, default: u32) -> Option<u32> {
    match lookup(params, "COUNT"@) {
        None => Some(default),
        Some(text) => unsigned_u32(text),
    }
}

/// The numbers among the pieces, in order: a piece that is no number, white
/// space at its ends aside, is passed over.
pub open spec fn numbers_in(pieces: Seq<Seq<char>>) -> Seq<u64>
    decreases pieces.len(),
{
    if pieces.len() == 0 {
        Seq::empty()
    } else {
        match unsigned_u64(trim(pieces.last())) {
            Some(v) => numbers_in(pieces.drop_last()).push(v),
            None => numbers_in(pieces.drop_last()),
        }
    }
}

/// The identifiers of an answer: the numbers between the commas of its
/// `LOGIDS`, none where it has no `LOGIDS`.
pub open spec fn logids_of(params: Seq<Token>) -> Seq<u64> {
    match lookup(params, "LOGIDS"@) {
        Some(text) => numbers_in(split_on(text, ',')),
        None => Seq::empty(),
    }
}

/// The error of a count that is no number.
pub open spec fn count_fault() -> ErrorView {
    ErrorView::Api { reason: "Invalid COUNT format"@ }
}

/// What the parameters of an answer to an insertion mean: the identifier
/// and the count, or the error.
pub open spec fn insert_outcome(params: Seq<Token>) -> Result<(u64, u32), ErrorView> {
    if lookup(params, "RESULT"@) == Some("OK"@) {
        match lookup(params, "LOGID"@) {
            None => Err(ErrorView::Api { reason: "Missing LOGID in response"@ }),
            Some(text) => match unsigned_u64(text) {
                None => Err(ErrorView::Api { reason: "Invalid LOGID format"@ }),
                Some(logid) => match count_of(params, 1) {
                    None => Err(count_fault()),
                    Some(count) => Ok((logid, count)),
                },
            },
        }
    } else {
        Err(failure_of(params))
    }
}

/// What the parameters of an answer to a deletion mean: the count and the
/// identifiers that were not found, or the error.
pub open spec fn delete_outcome(params: Seq<Token>) -> Result<(u32, Seq<u64>), ErrorView> {
    if lookup(params, "RESULT"@) == Some("OK"@) || lookup(params, "RESULT"@) == Some(
        "PARTIAL"@,
    ) {
        match count_of(params, 0) {
            None => Err(count_fault()),
            Some(count) => Ok((count, logids_of(params))),
        }
    } else {
        Err(failure_of(params))
    }
}

/// What the parameters of an answer to a status question mean: the facts
/// about the logbook, or the error.
pub open spec fn status_outcome(params: Seq<Token>) -> Result<Seq<Token>, ErrorView> {
    if lookup(params, "RESULT"@) == Some("OK"@) {
        match lookup(params, "DATA"@) {
            Some(data) => Ok(data_params(data)),
            None => Ok(Seq::empty()),
        }
    } else {
        Err(failure_of(params))
    }
}

/// What the parameters of an answer to a query mean: the count, the
/// identifiers and the records, or the error.
pub open spec fn fetch_outcome(params: Seq<Token>) -> Result<
    (u32, Seq<u64>, Seq<QsoRecordView>),
    ErrorView,
> {
    if lookup(params, "RESULT"@) == Some("OK"@) {
        match count_of(params, 0) {
            None => Err(count_fault()),
            Some(count) => match lookup(params, "ADIF"@) {
                None => Ok((count, logids_of(params), Seq::empty())),
                Some(adif) => match decode(adif) {
                    Ok(records) => Ok((count, logids_of(params), records)),
                    Err(msg) => Err(ErrorView::AdifParse(msg)),
                },
            },
        }
    } else {
        Err(failure_of(params))
    }
}

fn failure(params: &FieldTable) -> (e: QrzLogbookError)
    ensures
        e@ == failure_of(params@),
{
    match params.get("RESULT") {
        Some(result) => {
            if str_eq(result.as_str(), "FAIL") {
                match params.get("REASON") {
                    Some(reason) => QrzLogbookError::api_error(reason.as_str()),
                    None => QrzLogbookError::api_error("Unknown error"),
                }
            } else if str_eq(result.as_str(), "AUTH") {
                QrzLogbookError::Auth
            } else {
                QrzLogbookError::api_error("Unexpected response format")
            }
        },
        None => QrzLogbookError::api_error("Unexpected response format"),
    }
}

fn result_is(params: &FieldTable, word: &str) -> (r: bool)
    ensures
        r == (lookup(params@, "RESULT"@) == Some(word@)),
{
    match params.get("RESULT") {
        Some(result) => str_eq(result.as_str(), word),
        None => false,
    }
}

fn parse_u32(text: &str) -> (r: Option<u32>)
    ensures
        r == unsigned_u32(text@),
{
    let chars = to_chars(text);
    match parse_unsigned(&chars) {
        Some(v) => if v <= u32::MAX as u64 {
            Some(v as u32)
        } else {
            None
        },
        None => None,
    }
}

fn count(params: &FieldTable, default: u32) -> (r: Option<u32>)
    ensures
        r == count_of(params@, default),
{
    match params.get("COUNT") {
        Some(text) => parse_u32(text.as_str()),
        None => Some(default),
    }
}

fn logids(params: &FieldTable) -> (ids: Vec<u64>)
    ensures
        ids@ == logids_of(params@),
{
    let mut ids: Vec<u64> = Vec::new();
    match params.get("LOGIDS") {
        Some(text) => {
            let chars = to_chars(text.as_str());
            let pieces = split(&chars, ',');
            let ghost all = split_on(text@, ',');
            let mut i: usize = 0;
            assert(all.take(0).len() == 0);
            while i < pieces.len()
                invariant
                    i <= pieces.len(),
                    texts_of(pieces@) == all,
                    ids@ == numbers_in(all.take(i as int)),
                decreases pieces.len() - i,
            {
                proof {
                    assert(all.take(i + 1).drop_last() == all.take(i as int));
                    assert(all.take(i + 1).last() == pieces@[i as int]@);
                }
                let piece = &pieces[i];
                let (a, b) = trim_bounds(piece, 0, piece.len());
                assert(piece@.subrange(0, piece.len() as int) == piece@);
                let trimmed = copy_range(piece, a, b);
                match parse_unsigned(&trimmed) {
                    Some(v) => {
                        ids.push(v);
                    },
                    None => {},
                }
                i += 1;
            }
            assert(all.take(pieces.len() as int) == all);
        },
        None => {},
    }
    ids
}

impl QrzLogbookClient {
    /// What the parameters of an answer to an insertion mean.
    pub fn insert_response(params: &FieldTable) -> (r: QrzLogbookResult<InsertResponse>)
        ensures
            match r {
                Ok(answer) => insert_outcome(params@) == Ok::<(u64, u32), ErrorView>(
                    (answer.logid, answer.count),
                ),
                Err(e) => insert_outcome(params@) == Err::<(u64, u32), ErrorView>(e@),
            },
    {
        if !result_is(params, "OK") {
            return Err(failure(params));
        }
        let logid = match params.get("LOGID") {
            None => {
                return Err(QrzLogbookError::api_error("Missing LOGID in response"));
            },
            Some(text) => {
                let chars = to_chars(text.as_str());
                match parse_unsigned(&chars) {
                    Some(v) => v,
                    None => {
                        return Err(QrzLogbookError::api_error("Invalid LOGID format"));
                    },
                }
            },
        };
        match count(params, 1) {
            Some(count) => Ok(InsertResponse { logid, count }),
            None => Err(QrzLogbookError::api_error("Invalid COUNT format")),
        }
    }

    /// What the parameters of an answer to a deletion mean.
    pub fn delete_response(params: &FieldTable) -> (r: QrzLogbookResult<DeleteResponse>)
        ensures
            match r {
                Ok(answer) => delete_outcome(params@) == Ok::<(u32, Seq<u64>), ErrorView>(
                    (answer.deleted_count, answer.not_found_logids@),
                ),
                Err(e) => delete_outcome(params@) == Err::<(u32, Seq<u64>), ErrorView>(e@),
            },
    {
        if !(result_is(params, "OK") || result_is(params, "PARTIAL")) {
            return Err(failure(params));
        }
        match count(params, 0) {
            Some(deleted_count) => Ok(
                DeleteResponse { deleted_count, not_found_logids: logids(params) },
            ),
            None => Err(QrzLogbookError::api_error("Invalid COUNT format")),
        }
    }

    /// What the parameters of an answer to a status question mean.
    pub fn status_response(params: &FieldTable) -> (r: QrzLogbookResult<StatusResponse>)
        ensures
            match r {
                Ok(answer) => status_outcome(params@) == Ok::<Seq<Token>, ErrorView>(
                    answer.data@,
                ),
                Err(e) => status_outcome(params@) == Err::<Seq<Token>, ErrorView>(e@),
            },
    {
        if !result_is(params, "OK") {
            return Err(failure(params));
        }
        match params.get("DATA") {
            Some(text) => Ok(StatusResponse { data: read_data(text.as_str()) }),
            None => Ok(StatusResponse { data: FieldTable::new() }),
        }
    }

    /// What the parameters of an answer to a query mean.
    pub fn fetch_response(params: &FieldTable) -> (r: QrzLogbookResult<FetchResponse>)
        ensures
            match r {
                Ok(answer) => fetch_outcome(params@) == Ok::<
                    (u32, Seq<u64>, Seq<QsoRecordView>),
                    ErrorView,
                >((answer.count, answer.logids@, record_views(answer.qsos@))),
                Err(e) => fetch_outcome(params@) == Err::<
                    (u32, Seq<u64>, Seq<QsoRecordView>),
                    ErrorView,
                >(e@),
            },
    {
        if !result_is(params, "OK") {
            return Err(failure(params));
        }
        let count = match count(params, 0) {
            Some(count) => count,
            None => {
                return Err(QrzLogbookError::api_error("Invalid COUNT format"));
            },
        };
        let logids = logids(params);
        let qsos = match params.get("ADIF") {
            Some(adif) => match AdifParser::parse_adif(adif.as_str()) {
                Ok(qsos) => qsos,
                Err(e) => {
                    return Err(e);
                },
            },
            None => {
                let none: Vec<QsoRecord> = Vec::new();
                assert(record_views(none@) =~= Seq::<QsoRecordView>::empty());
                none
            },
        };
        Ok(FetchResponse { count, logids, qsos })
    }

    /// Reads the answer to an insertion.
    pub fn parse_insert_response(&self, response: String) -> (r: QrzLogbookResult<InsertResponse>)
        ensures
            match (r, response_params(response@)) {
                (Ok(answer), Some(params)) => insert_outcome(params) == Ok::<
                    (u64, u32),
                    ErrorView,
                >((answer.logid, answer.count)),
                (Err(e), Some(params)) => insert_outcome(params) == Err::<(u64, u32), ErrorView>(
                    e@,
                ),
                (Err(e), None) => e@ == encoding_fault(),
                (Ok(_), None) => false,
            },
    {
        match self.parse_response_params(response.as_str()) {
            Ok(params) => Self::insert_response(&params),
            Err(e) => Err(e),
        }
    }

    /// Reads the answer to a deletion.
    pub fn parse_delete_response(&self, response: String) -> (r: QrzLogbookResult<DeleteResponse>)
        ensures
            match (r, response_params(response@)) {
                (Ok(answer), Some(params)) => delete_outcome(params) == Ok::<
                    (u32, Seq<u64>),
                    ErrorView,
                >((answer.deleted_count, answer.not_found_logids@)),
                (Err(e), Some(params)) => delete_outcome(params) == Err::<
                    (u32, Seq<u64>),
                    ErrorView,
                >(e@),
                (Err(e), None) => e@ == encoding_fault(),
                (Ok(_), None) => false,
            },
    {
        match self.parse_response_params(response.as_str()) {
            Ok(params) => Self::delete_response(&params),
            Err(e) => Err(e),
        }
    }

    /// Reads the answer to a status question.
    pub fn parse_status_response(&self, response: String) -> (r: QrzLogbookResult<StatusResponse>)
        ensures
            match (r, response_params(response@)) {
                (Ok(answer), Some(params)) => status_outcome(params) == Ok::<
                    Seq<Token>,
                    ErrorView,
                >(answer.data@),
                (Err(e), Some(params)) => status_outcome(params) == Err::<Seq<Token>, ErrorView>(
                    e@,
                ),
                (Err(e), None) => e@ == encoding_fault(),
                (Ok(_), None) => false,
            },
    {
        match self.parse_response_params(response.as_str()) {
            Ok(params) => Self::status_response(&params),
            Err(e) => Err(e),
        }
    }

    /// Reads the answer to a query.
    pub fn parse_fetch_response(&self, response: String) -> (r: QrzLogbookResult<FetchResponse>)
        ensures
            match (r, response_params(response@)) {
                (Ok(answer), Some(params)) => fetch_outcome(params) == Ok::<
                    (u32, Seq<u64>, Seq<QsoRecordView>),
                    ErrorView,
                >((answer.count, answer.logids@, record_views(answer.qsos@))),
                (Err(e), Some(params)) => fetch_outcome(params) == Err::<
                    (u32, Seq<u64>, Seq<QsoRecordView>),
                    ErrorView,
                >(e@),
                (Err(e), None) => e@ == encoding_fault(),
                (Ok(_), None) => false,
            },
    {
        match self.parse_response_params(response.as_str()) {
            Ok(params) => Self::fetch_response(&params),
            Err(e) => Err(e),
        }
    }
}

} // verus!
