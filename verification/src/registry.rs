//! The registry client's compute half: turning fetched page text into
//! canonical records, the classifier decision, the retry policy, and the
//! request URLs. The JSON documents are read through the `json` crate.

use vstd::prelude::*;
use vstd::string::StringExecFns;

use crate::database::Crate;
use crate::store::views_of;
use crate::text::{
    append_chars, append_str, chars_of, contains_chars, contains_seq, decimal_of, lower_of,
    lowercase, str_eq, string_of, to_decimal,
};

verus! {

#[verifier::external_type_specification]
#[verifier::external_body]
pub struct ExJsonValue(json::JsonValue);

/// A parsed JSON document, carried beside the text it was parsed from.
/// `json::parse` and the reads below are deterministic, so everything a
/// reader returns is a function of that text; the ghost copy lets the
/// readers' contracts say so. The fields are private and only
/// `json_parse` builds a value, so the value is always what the carried
/// text parses to.
pub struct JsonDoc {
    value: json::JsonValue,
    text: Ghost<Seq<char>>,
}

impl JsonDoc {
    /// The text this document was parsed from.
    pub closed spec fn src(&self) -> Seq<char> {
        self.text@
    }
}

/// Whether `json::parse` accepts the text: the result of the one parse
/// that every read of a page or of a single-lookup response begins with.
pub uninterp spec fn json_wf(s: Seq<char>) -> bool;

/// The three fields printed from slot `i` of the `crates` array of the
/// page this text parses to: `name`, `max_version` and `description`,
/// in that order. A missing member or slot reads as JSON null, which
/// prints as the sentinel text `null`.
pub uninterp spec fn page_slot_of(s: Seq<char>, i: int) -> (Seq<char>, Seq<char>, Seq<char>);

/// The single-lookup probe of this text: the `name`, `max_version` and
/// `description` fields printed from under the document's `crate`
/// member, beside whether each of the three was JSON null.
pub uninterp spec fn single_probe_of(s: Seq<char>) -> (
    (Seq<char>, Seq<char>, Seq<char>),
    (bool, bool, bool),
);

/// Relies on `json::parse`: deterministic in its input, it returns `Ok`
/// exactly on well-formed JSON text — named `json_wf` — and an error,
/// mapped to `None`, on anything else. It never panics on `&str` input.
#[verifier::external_body]
fn json_parse_raw(s: &str) -> (r: Option<json::JsonValue>)
    ensures
        r is Some <==> json_wf(s@),
{
    match json::parse(s) {
        Ok(value) => Some(value),
        Err(_) => None,
    }
}

/// Parses the text and records it beside the parsed value.
fn json_parse(s: &str) -> (r: Option<JsonDoc>)
    ensures
        r is Some <==> json_wf(s@),
        r matches Some(d) ==> d.src() == s@,
{
    match json_parse_raw(s) {
        Some(value) => Some(JsonDoc { value, text: Ghost(s@) }),
        None => None,
    }
}

/// Relies on the `json` crate's `Index<&str>` and `Index<usize>` impls
/// and on `JsonValue`'s `Display` impl: indexing a non-object, a
/// non-array, a missing member or an out-of-range slot yields the JSON
/// null value rather than panicking, a JSON string prints its raw
/// character content without quotes, and null prints `null`. The whole
/// read is a function of the parsed text and the slot alone, named
/// `page_slot_of`.
#[verifier::external_body]
fn read_slot(d: &JsonDoc, i: usize) -> (r: (String, String, String))
    ensures
        (r.0@, r.1@, r.2@) == page_slot_of(d.src(), i as int),
{
    let slot = &d.value["crates"][i];
    (slot["name"].to_string(), slot["max_version"].to_string(), slot["description"].to_string())
}

/// Relies on the same `Index` and `Display` impls and on
/// `JsonValue::is_null`, a plain variant test: reads the three fields
/// under the document's `crate` member and whether each is JSON null —
/// a function of the parsed text alone, named `single_probe_of`.
#[verifier::external_body]
fn read_single_probe(d: &JsonDoc) -> (r: ((String, String, String), (bool, bool, bool)))
    ensures
        ((r.0.0@, r.0.1@, r.0.2@), r.1) == single_probe_of(d.src()),
{
    let member = &d.value["crate"];
    let (n, v, desc) = (&member["name"], &member["max_version"], &member["description"]);
    (
        (n.to_string(), v.to_string(), desc.to_string()),
        (n.is_null(), v.is_null(), desc.is_null()),
    )
}

/// How many records one registry page carries.
pub const PAGE_SIZE: usize = 100;

/// How many pages of the catalog a full refresh walks; pages are
/// 1-indexed, so the refresh covers `1..MAX_PAGE`.
pub const MAX_PAGE: u64 = 300;

/// How many attempts a page fetch is given before the refresh aborts.
pub const MAX_NET_TRY: usize = 10;

/// The retry bound for a page fetch: true once `attempts` failures mean
/// the page — and with it the whole refresh — is abandoned.
pub fn retries_exhausted(attempts: usize) -> (r: bool)
    ensures
        r == (attempts >= MAX_NET_TRY),
{
    attempts >= MAX_NET_TRY
}

/// Builds the canonical record from the fields of one raw registry
/// record: `name` and `description` are lowercased for case-insensitive
/// search, the version is kept as sent. A record whose version is the
/// sentinel text `null` — no published version — is dropped.
pub fn normalize_record(name: &str, version: &str, description: &str) -> (r: Option<Crate>)
    ensures
        version@ == "null"@ ==> r is None,
        version@ != "null"@ ==> (r matches Some(c) && c@ == (
            lower_of(name@),
            version@,
            lower_of(description@),
        )),
{
    if str_eq(version, "null") {
        None
    } else {
        Some(
            Crate {
                name: lowercase(name),
                version: String::from_str(version),
                description: lowercase(description),
            },
        )
    }
}

/// The canonical records of a page text, slot by slot: the first `n`
/// slots read in order, records with the sentinel version dropped, name
/// and description lowercased.
pub open spec fn page_records_spec(s: Seq<char>, n: int) -> Seq<(Seq<char>, Seq<char>, Seq<char>)>
    decreases n,
{
    if n <= 0 {
        Seq::empty()
    } else {
        let prefix = page_records_spec(s, n - 1);
        let slot = page_slot_of(s, n - 1);
        if slot.1 == "null"@ {
            prefix
        } else {
            prefix.push((lower_of(slot.0), slot.1, lower_of(slot.2)))
        }
    }
}

/// Reads one registry page: the `crates` array of the page's JSON
/// document, slot by slot, each record normalized. Records with the
/// sentinel version are dropped, so no record of the result carries it;
/// a missing field reads as JSON null and prints as the sentinel, so such
/// records are dropped too. Exactly the texts that are not valid JSON
/// yield `None`.
pub fn parse_page(text: &str) -> (r: Option<Vec<Crate>>)
    ensures
        r is Some <==> json_wf(text@),
        r matches Some(records) ==> views_of(records@) == page_records_spec(
            text@,
            PAGE_SIZE as int,
        ),
        r matches Some(records) ==> forall|k: int|
            0 <= k < records@.len() ==> (#[trigger] records@[k])@.1 != "null"@,
{
    let doc = match json_parse(text) {
        Some(d) => d,
        None => {
            return None;
        },
    };
    let mut out: Vec<Crate> = Vec::new();
    let mut i: usize = 0;
    assert(views_of(out@) =~= page_records_spec(text@, 0));
    while i < PAGE_SIZE
        invariant
            i <= PAGE_SIZE,
            doc.src() == text@,
            views_of(out@) == page_records_spec(text@, i as int),
            forall|k: int| 0 <= k < out@.len() ==> (#[trigger] out@[k])@.1 != "null"@,
        decreases PAGE_SIZE - i,
    {
        let (name, version, description) = read_slot(&doc, i);
        let ghost out0 = out@;
        let ghost slot = page_slot_of(text@, i as int);
        match normalize_record(name.as_str(), version.as_str(), description.as_str()) {
            Some(c) => {
                let ghost cv = c@;
                out.push(c);
                proof {
                    assert(cv == (lower_of(slot.0), slot.1, lower_of(slot.2)));
                    assert(views_of(out@) =~= views_of(out0).push(cv));
                }
            },
            None => {},
        }
        i += 1;
    }
    Some(out)
}

/// Reads a single-package lookup response: the `name`, `max_version` and
/// `description` fields under the document's `crate` member, exactly as
/// the registry sent them, without lowercasing. Yields `None` exactly
/// for text that is not valid JSON and for a response in which any of
/// the three fields is missing or null.
pub fn parse_single(text: &str) -> (r: Option<(String, String, String)>)
    ensures
        r is Some <==> (json_wf(text@) && !single_probe_of(text@).1.0 && !single_probe_of(
            text@,
        ).1.1 && !single_probe_of(text@).1.2),
        r matches Some(t) ==> (t.0@, t.1@, t.2@) == single_probe_of(text@).0,
{
    let doc = match json_parse(text) {
        Some(d) => d,
        None => {
            return None;
        },
    };
    let (fields, nulls) = read_single_probe(&doc);
    if nulls.0 || nulls.1 || nulls.2 {
        return None;
    }
    Some(fields)
}

/// The classifier decision on a documentation-page fetch outcome: a
/// fetched page classifies as binary exactly when it carries the marker
/// phrase; a failed fetch (`None`) classifies as not binary. The decision
/// is always a plain boolean, never an error, so one bad lookup cannot
/// stall a refresh; an uncertain package is conservatively left out.
pub fn classify_doc_page(body: &Option<String>) -> (r: bool)
    ensures
        r == match body {
            Some(t) => contains_seq(t@, "is not a library"@),
            None => false,
        },
{
    match body {
        Some(t) => {
            let tv = chars_of(t.as_str());
            let marker = chars_of("is not a library");
            contains_chars(&tv, &marker)
        },
        None => false,
    }
}

/// The listing URL for one 1-indexed registry page.
pub fn page_url(page: u64) -> (r: String)
    ensures
        r@ == "https://crates.io/api/v1/crates?per_page=100&page="@ + decimal_of(page as int),
{
    let mut v = chars_of("https://crates.io/api/v1/crates?per_page=100&page=");
    let digits = to_decimal(page);
    append_chars(&mut v, &digits);
    string_of(&v)
}

/// The lookup URL for a single package.
pub fn lookup_url(name: &str) -> (r: String)
    ensures
        r@ == "https://crates.io/api/v1/crates/"@ + name@,
{
    let mut v = chars_of("https://crates.io/api/v1/crates/");
    append_str(&mut v, name);
    string_of(&v)
}

/// The documentation-page URL for an exact package name and version.
pub fn doc_url(name: &str, version: &str) -> (r: String)
    ensures
        r@ == "https://docs.rs/crate/"@ + name@ + seq!['/'] + version@,
{
    let mut v = chars_of("https://docs.rs/crate/");
    append_str(&mut v, name);
    v.push('/');
    append_str(&mut v, version);
    string_of(&v)
}

} // verus!