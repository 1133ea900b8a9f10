//! Text encodings of jets and header lists, produced and read by serde_json.
use vstd::prelude::*;
use crate::model::{Jet, JetView, opt_view, strings_view};

verus! {

/// The fields of a jet in the order a snapshot stores them.
pub type SnapshotFields = (Seq<char>, Option<Seq<char>>, Seq<char>, Seq<char>, Seq<Seq<char>>, Option<Seq<char>>);

/// What serde_json writes for the tuple `(id, name, method, url, headers, body)`.
pub uninterp spec fn snapshot_json(
    id: Seq<char>,
    name: Option<Seq<char>>,
    method: Seq<char>,
    url: Seq<char>,
    headers: Seq<Seq<char>>,
    body: Option<Seq<char>>,
) -> Seq<char>;

/// What serde_json reads from a text as such a tuple, or `None` if it refuses it.
pub uninterp spec fn snapshot_parse(s: Seq<char>) -> Option<SnapshotFields>;

/// What serde_json reads from a text as a list of strings, or `None`.
pub uninterp spec fn headers_parse(s: Seq<char>) -> Option<Seq<Seq<char>>>;

/// The snapshot text of a jet.
pub open spec fn snapshot_of(j: JetView) -> Seq<char> {
    snapshot_json(j.id, j.name, j.method, j.url, j.headers, j.body)
}

/// The jet that snapshot fields describe.
pub open spec fn jet_of_fields(f: SnapshotFields) -> JetView {
    JetView { id: f.0, name: f.1, method: f.2, url: f.3, headers: f.4, body: f.5 }
}

/// The header list stored as `s`: what it parses to, or no headers at all when
/// it does not parse.
pub open spec fn headers_read(s: Seq<char>) -> Seq<Seq<char>> {
    match headers_parse(s) {
        Some(h) => h,
        None => Seq::empty(),
    }
}

/// Relies on serde_json::to_string, which writes the tuple of the jet's fields
/// as a JSON array. Its documentation names two causes of failure, a failing
/// `Serialize` impl and a map with non-string keys, and strings, options and
/// vectors of strings have neither.
#[verifier::external_body]
fn snapshot_text(jet: &Jet) -> (r: String)
    ensures
        r@ == snapshot_json(jet@.id, jet@.name, jet@.method, jet@.url, jet@.headers, jet@.body),
{
    let fields = (&jet.id, &jet.name, &jet.method, &jet.url, &jet.headers, &jet.body);
    serde_json::to_string(&fields).unwrap_or_default()
}

/// Relies on serde_json::from_str reading a six-element JSON array into the
/// tuple of a jet's fields; the result depends on the text alone.
#[verifier::external_body]
fn parse_snapshot(s: &str) -> (r: Option<(String, Option<String>, String, String, Vec<String>, Option<String>)>)
    ensures
        match r {
            Some(t) => snapshot_parse(s@) == Some(
                (t.0@, opt_view(t.1), t.2@, t.3@, strings_view(t.4@), opt_view(t.5)),
            ),
            None => snapshot_parse(s@) is None,
        },
{
    serde_json::from_str(s).ok()
}

/// Relies on serde_json::from_str reading a JSON array of strings; the result
/// depends on the text alone.
#[verifier::external_body]
fn parse_headers(s: &str) -> (r: Option<Vec<String>>)
    ensures
        match r {
            Some(v) => headers_parse(s@) == Some(strings_view(v@)),
            None => headers_parse(s@) is None,
        },
{
    serde_json::from_str(s).ok()
}

/// Relies on uuid::Uuid::new_v4 and its `to_string` text: a random
/// identifier, of which nothing is promised here. `new_v4` panics when the
/// operating system's random source fails, which no argument can rule out.
#[verifier::external_body]
pub(crate) fn new_jet_id() -> (r: String) {
    uuid::Uuid::new_v4().to_string()
}

/// The snapshot text of `jet`.
pub fn encode_snapshot(jet: &Jet) -> (r: String)
    ensures
        r@ == snapshot_of(jet@),
{
    snapshot_text(jet)
}

/// Decodes a snapshot text back into a jet; `None` when the text is not a
/// snapshot.
pub fn decode_snapshot(s: &str) -> (r: Option<Jet>)
    ensures
        match snapshot_parse(s@) {
            Some(f) => r matches Some(j) && j@ == jet_of_fields(f),
            None => r is None,
        },
{
    match parse_snapshot(s) {
        Some(t) => {
            let (id, name, method, url, headers, body) = t;
            Some(Jet { id, name, method, url, headers, body })
        },
        None => None,
    }
}

/// Reads a stored header list leniently: a text that does not parse yields no
/// headers rather than an error.
pub fn read_headers(s: &str) -> (r: Vec<String>)
    ensures
        strings_view(r@) == headers_read(s@),
{
    match parse_headers(s) {
        Some(v) => v,
        None => {
            let v: Vec<String> = Vec::new();
            assert(strings_view(v@) =~= Seq::<Seq<char>>::empty());
            v
        },
    }
}

} // verus!
