//! The shape of a JSON response that the table is built from: a document that
//! may be an array of records, records that may be objects, and the cells that
//! an object holds under its keys.
use vstd::prelude::*;
use serde_json::Value as Json;

verus! {

/// A value found under a key of a record. Numbers, arrays and objects are kept
/// as the text that `serde_json` prints for them.
pub enum JsonCell {
    Null,
    Bool(bool),
    Number(String),
    Text(String),
    Nested(String),
}

/// One item of the top-level array: an object's entries, or anything else.
pub enum JsonRecord {
    Object(Vec<(String, JsonCell)>),
    Other,
}

/// A parsed response: an array of records, or any other JSON value.
pub enum JsonDocument {
    Array(Vec<JsonRecord>),
    Other,
}

/// The mathematical value of a [`JsonCell`].
pub enum CellModel {
    Null,
    Bool(bool),
    Number(Seq<char>),
    Text(Seq<char>),
    Nested(Seq<char>),
}

/// The mathematical value of a [`JsonRecord`].
pub enum RecordModel {
    Object(Seq<(Seq<char>, CellModel)>),
    Other,
}

/// The mathematical value of a [`JsonDocument`].
pub enum DocumentModel {
    Array(Seq<RecordModel>),
    Other,
}

impl View for JsonCell {
    type V = CellModel;

    open spec fn view(&self) -> CellModel {
        match self {
            JsonCell::Null => CellModel::Null,
            JsonCell::Bool(b) => CellModel::Bool(*b),
            JsonCell::Number(t) => CellModel::Number(t@),
            JsonCell::Text(t) => CellModel::Text(t@),
            JsonCell::Nested(t) => CellModel::Nested(t@),
        }
    }
}

/// The model of one entry of an object.
pub open spec fn entry_model(e: (String, JsonCell)) -> (Seq<char>, CellModel) {
    (e.0@, e.1@)
}

/// The model of an object's entries.
pub open spec fn entries_model(entries: Seq<(String, JsonCell)>) -> Seq<(Seq<char>, CellModel)> {
    entries.map_values(|e| entry_model(e))
}

/// The models of the items of an array.
pub open spec fn records_model(items: Seq<JsonRecord>) -> Seq<RecordModel> {
    items.map_values(|r: JsonRecord| r@)
}

/// The keys of an object's entries, in order.
pub open spec fn entry_keys(entries: Seq<(Seq<char>, CellModel)>) -> Seq<Seq<char>> {
    entries.map_values(|e: (Seq<char>, CellModel)| e.0)
}

impl View for JsonRecord {
    type V = RecordModel;

    open spec fn view(&self) -> RecordModel {
        match self {
            JsonRecord::Object(entries) => RecordModel::Object(entries_model(entries@)),
            JsonRecord::Other => RecordModel::Other,
        }
    }
}

impl View for JsonDocument {
    type V = DocumentModel;

    open spec fn view(&self) -> DocumentModel {
        match self {
            JsonDocument::Array(items) => DocumentModel::Array(records_model(items@)),
            JsonDocument::Other => DocumentModel::Other,
        }
    }
}

/// What `serde_json::from_str::<serde_json::Value>` makes of a text, taken
/// apart into a [`DocumentModel`]; `None` where the text is not JSON.
pub uninterp spec fn json_document(text: Seq<char>) -> Option<DocumentModel>;

/// The message (`Display`) of the error that `serde_json::from_str::<serde_json::Value>`
/// gives for a text that is not JSON.
pub uninterp spec fn json_error_text(text: Seq<char>) -> Seq<char>;

/// No two entries of an object record have the same key.
pub open spec fn record_keys_distinct(record: RecordModel) -> bool {
    match record {
        RecordModel::Object(entries) => forall|p: int, q: int|
            0 <= p < q < entries.len() ==> #[trigger] entries[p].0 != #[trigger] entries[q].0,
        RecordModel::Other => true,
    }
}

/// No record of the document has two entries with the same key.
pub open spec fn document_keys_distinct(doc: DocumentModel) -> bool {
    match doc {
        DocumentModel::Array(items) => forall|i: int|
            0 <= i < items.len() ==> record_keys_distinct(#[trigger] items[i]),
        DocumentModel::Other => true,
    }
}

/// Calls `serde_json::from_str::<serde_json::Value>` and takes the value
/// apart: an array into its items, an object item into its entries, each entry
/// value into a cell, where numbers, arrays and objects become the text that
/// `serde_json`'s `Display` prints; a parse error becomes its `Display` text.
/// Claimed: the result is `json_document` of the text; an error comes exactly
/// where that is `None`, and its message is `json_error_text` of the text; the
/// entries of an object have distinct keys, as those of a `serde_json::Map`.
#[verifier::external_body]
fn parse_json_document(text: &str) -> (r: Result<JsonDocument, String>)
    ensures
        match r {
            Ok(d) => json_document(text@) == Some(d@) && document_keys_distinct(d@),
            Err(m) => json_document(text@) is None && m@ == json_error_text(text@),
        },
{
    let items = match serde_json::from_str::<Json>(text) {
        Ok(Json::Array(items)) => items,
        Err(e) => return Err(e.to_string()),
        _ => return Ok(JsonDocument::Other),
    };
    Ok(JsonDocument::Array(items.into_iter().map(|item| match item {
        Json::Object(m) => JsonRecord::Object(m.into_iter().map(|(k, v)| (k, match v {
            Json::Null => JsonCell::Null,
            Json::Bool(b) => JsonCell::Bool(b),
            Json::Number(n) => JsonCell::Number(n.to_string()),
            Json::String(s) => JsonCell::Text(s),
            nested => JsonCell::Nested(nested.to_string()),
        })).collect()),
        _ => JsonRecord::Other,
    }).collect()))
}

/// Parses a response body: the document, whose objects have distinct keys,
/// or the parser's error message.
pub fn parse_document(text: &str) -> (r: Result<JsonDocument, String>)
    ensures
        r is Ok <==> json_document(text@) is Some,
        r matches Ok(d) ==> json_document(text@) == Some(d@) && document_keys_distinct(d@),
        r matches Err(m) ==> m@ == json_error_text(text@),
{
    parse_json_document(text)
}

/// What a record holds under `key`, searching its entries from position `i`.
pub open spec fn lookup_from(entries: Seq<(Seq<char>, CellModel)>, key: Seq<char>, i: int) -> Option<
    CellModel,
>
    decreases entries.len() - i,
{
    if i < 0 || i >= entries.len() {
        None
    } else if entries[i].0 == key {
        Some(entries[i].1)
    } else {
        lookup_from(entries, key, i + 1)
    }
}

/// What a record holds under `key`: the value of its first entry with that
/// key, or nothing when the record is not an object or has no such entry.
pub open spec fn lookup(record: RecordModel, key: Seq<char>) -> Option<CellModel> {
    match record {
        RecordModel::Object(entries) => lookup_from(entries, key, 0),
        RecordModel::Other => None,
    }
}

/// The text of a cell as the table shows it: strings as they are, `null` as
/// `NULL`, booleans as `true`/`false`, numbers, arrays and objects as JSON
/// text, and nothing at all for a missing value.
pub open spec fn cell_text(cell: Option<CellModel>) -> Seq<char> {
    match cell {
        None => Seq::empty(),
        Some(CellModel::Null) => "NULL"@,
        Some(CellModel::Bool(b)) => if b {
            "true"@
        } else {
            "false"@
        },
        Some(CellModel::Number(t)) => t,
        Some(CellModel::Text(t)) => t,
        Some(CellModel::Nested(t)) => t,
    }
}

/// The text shown for a present cell.
pub fn render_cell(cell: &JsonCell) -> (s: String)
    ensures
        s@ == cell_text(Some(cell@)),
{
    match cell {
        JsonCell::Null => String::from_str("NULL"),
        JsonCell::Bool(b) => if *b {
            String::from_str("true")
        } else {
            String::from_str("false")
        },
        JsonCell::Number(t) => t.clone(),
        JsonCell::Text(t) => t.clone(),
        JsonCell::Nested(t) => t.clone(),
    }
}

/// The text shown for the value that `record` holds under `key`.
pub fn record_cell_text(record: &JsonRecord, key: &String) -> (s: String)
    ensures
        s@ == cell_text(lookup(record@, key@)),
{
    match record {
        JsonRecord::Object(entries) => {
            let ghost model = entries_model(entries@);
            let mut i: usize = 0;
            while i < entries.len()
                invariant
                    i <= entries.len(),
                    model == entries_model(entries@),
                    record@ == RecordModel::Object(model),
                    lookup_from(model, key@, 0) == lookup_from(model, key@, i as int),
                decreases entries.len() - i,
            {
                if entries[i].0 == *key {
                    assert(model[i as int] == entry_model(entries@[i as int]));
                    return render_cell(&entries[i].1);
                }
                assert(model[i as int] == entry_model(entries@[i as int]));
                i = i + 1;
            }
            String::new()
        },
        JsonRecord::Other => String::new(),
    }
}

/// The keys of the first record, in its own order, when it is an object;
/// none otherwise.
pub open spec fn first_keys(items: Seq<RecordModel>) -> Seq<Seq<char>> {
    if items.len() > 0 {
        match items[0] {
            RecordModel::Object(entries) => entry_keys(entries),
            RecordModel::Other => Seq::empty(),
        }
    } else {
        Seq::empty()
    }
}

/// The keys of the first record when it is an object.
pub fn first_record_keys(items: &Vec<JsonRecord>) -> (keys: Vec<String>)
    ensures
        keys.deep_view() == first_keys(records_model(items@)),
{
    let mut keys: Vec<String> = Vec::new();
    if items.len() > 0 {
        match &items[0] {
            JsonRecord::Object(entries) => {
                let mut i: usize = 0;
                while i < entries.len()
                    invariant
                        i <= entries.len(),
                        keys.deep_view() =~= entry_keys(entries_model(entries@)).take(i as int),
                    decreases entries.len() - i,
                {
                    let k = entries[i].0.clone();
                    proof {
                        let m = entries_model(entries@);
                        assert(m[i as int] == entry_model(entries@[i as int]));
                        assert(k@ == m[i as int].0);
                        assert(entry_keys(m)[i as int] == k@);
                    }
                    let ghost before = keys.deep_view();
                    keys.push(k);
                    assert(keys.deep_view() =~= before.push(k@));
                    i = i + 1;
                }
                proof {
                    assert(entry_keys(entries_model(entries@)).take(i as int) =~= entry_keys(entries_model(entries@)));
                }
            },
            JsonRecord::Other => {},
        }
    }
    keys
}

} // verus!
