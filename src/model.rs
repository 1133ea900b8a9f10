use vstd::prelude::*;

verus! {

/// One request preset: the current state of a stored record.
#[derive(Clone, Debug, PartialEq, Eq)]
pub struct Jet {
    pub id: String,
    pub name: Option<String>,
    pub method: String,
    pub url: String,
    pub headers: Vec<String>,
    pub body: Option<String>,
}

/// The mathematical value of a `Jet`.
pub struct JetView {
    pub id: Seq<char>,
    pub name: Option<Seq<char>>,
    pub method: Seq<char>,
    pub url: Seq<char>,
    pub headers: Seq<Seq<char>>,
    pub body: Option<Seq<char>>,
}

pub open spec fn opt_view(o: Option<String>) -> Option<Seq<char>> {
    match o {
        Some(s) => Some(s@),
        None => None,
    }
}

pub open spec fn strings_view(v: Seq<String>) -> Seq<Seq<char>> {
    v.map_values(|s: String| s@)
}

impl View for Jet {
    type V = JetView;

    open spec fn view(&self) -> JetView {
        JetView {
            id: self.id@,
            name: opt_view(self.name),
            method: self.method@,
            url: self.url@,
            headers: strings_view(self.headers@),
            body: opt_view(self.body),
        }
    }
}

/// One immutable snapshot in the history log. Its position in the log is its
/// sequence number.
#[derive(Clone, Debug, PartialEq, Eq)]
pub struct HistoryEntry {
    pub jet_id: String,
    pub version: u64,
    /// The serialized jet at the time the entry was made.
    pub data: String,
    pub timestamp: String,
}

pub struct EntryView {
    pub jet_id: Seq<char>,
    pub version: nat,
    pub data: Seq<char>,
    pub timestamp: Seq<char>,
}

impl View for HistoryEntry {
    type V = EntryView;

    open spec fn view(&self) -> EntryView {
        EntryView {
            jet_id: self.jet_id@,
            version: self.version as nat,
            data: self.data@,
            timestamp: self.timestamp@,
        }
    }
}

impl HistoryEntry {
    /// A field-by-field copy.
    pub fn copy(&self) -> (r: HistoryEntry)
        ensures
            r@ == self@,
    {
        HistoryEntry {
            jet_id: self.jet_id.clone(),
            version: self.version,
            data: self.data.clone(),
            timestamp: self.timestamp.clone(),
        }
    }
}

/// Why a store operation was refused.
#[derive(Debug, PartialEq, Eq, Structural)]
pub enum StoreError {
    /// No jet, or no history entry, with the requested id (and version).
    NotFound,
    /// A stored snapshot could not be decoded.
    Serialization,
}

} // verus!
