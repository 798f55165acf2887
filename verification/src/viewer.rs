//! The state of the table viewer and what each of its controls does to it.
use vstd::prelude::*;
use vstd::string::*;
use vstd::utf8::{encode_utf8, is_char_boundary};
use crate::csv::{csv_text, to_csv};
use crate::json::{
    document_keys_distinct, first_keys, first_record_keys, json_document, json_error_text,
    parse_document, records_model, DocumentModel, JsonDocument,
};
use crate::ordering::{arranged_by, is_rearrangement, stably_ordered};
use crate::request::{fetch_request, header_list, table_url, FetchRequest};
use crate::table::{
    arrange_rows, build_rows, has_column, row_before, row_order, sort_texts, table_cells,
    texts_sorted, NumericKey,
};
use crate::text::{decimal, decimal_string, push_decimal, push_text};

verus! {

broadcast use vstd::string::group_string_axioms;

/// A saved connection: a name, the service address, its key and a table.
pub struct Bookmark {
    pub name: String,
    pub url: String,
    pub anon_key: String,
    pub table: String,
}

/// The mathematical value of a [`Bookmark`].
pub struct BookmarkModel {
    pub name: Seq<char>,
    pub url: Seq<char>,
    pub anon_key: Seq<char>,
    pub table: Seq<char>,
}

impl View for Bookmark {
    type V = BookmarkModel;

    open spec fn view(&self) -> BookmarkModel {
        BookmarkModel { name: self.name@, url: self.url@, anon_key: self.anon_key@, table: self.table@ }
    }
}

impl Bookmark {
    /// A copy of the bookmark.
    pub fn duplicate(&self) -> (b: Bookmark)
        ensures
            b@ == self@,
    {
        Bookmark {
            name: self.name.clone(),
            url: self.url.clone(),
            anon_key: self.anon_key.clone(),
            table: self.table.clone(),
        }
    }
}

/// The models of a list of bookmarks.
pub open spec fn bookmarks_model(bookmarks: Seq<Bookmark>) -> Seq<BookmarkModel> {
    bookmarks.map_values(|b: Bookmark| b@)
}

/// A colour by its red, green and blue parts, fully opaque.
#[derive(PartialEq, Eq, Structural, Clone, Copy, Debug)]
pub struct Rgb {
    pub r: u8,
    pub g: u8,
    pub b: u8,
}

/// The colour with the given parts.
pub open spec fn rgb(r: u8, g: u8, b: u8) -> Rgb {
    Rgb { r, g, b }
}

/// The state of the viewer: the connection being edited, the table shown,
/// how it is sorted and selected, the bookmarks, and the open dialogs.
pub struct Viewer {
    pub url: String,
    pub anon_key: String,
    pub table: String,
    pub status: String,
    pub columns: Vec<String>,
    pub rows: Vec<Vec<String>>,
    pub loading: bool,
    pub show_error: bool,
    pub error_msg: String,
    pub dark_mode: bool,
    pub sort_col: Option<usize>,
    pub sort_asc: bool,
    pub selected_row: Option<usize>,
    pub bookmarks: Vec<Bookmark>,
    pub show_save_dialog: bool,
    pub bookmark_name: String,
    pub editing_bookmark: Option<usize>,
    pub show_edit_dialog: bool,
    pub edit_name_buf: String,
    pub edit_url_buf: String,
    pub edit_key_buf: String,
    pub edit_table_buf: String,
}

/// The mathematical value of a [`Viewer`].
#[verifier::ext_equal]
pub struct ViewerModel {
    pub url: Seq<char>,
    pub anon_key: Seq<char>,
    pub table: Seq<char>,
    pub status: Seq<char>,
    pub columns: Seq<Seq<char>>,
    pub rows: Seq<Seq<Seq<char>>>,
    pub loading: bool,
    pub show_error: bool,
    pub error_msg: Seq<char>,
    pub dark_mode: bool,
    pub sort_col: Option<usize>,
    pub sort_asc: bool,
    pub selected_row: Option<usize>,
    pub bookmarks: Seq<BookmarkModel>,
    pub show_save_dialog: bool,
    pub bookmark_name: Seq<char>,
    pub editing_bookmark: Option<usize>,
    pub show_edit_dialog: bool,
    pub edit_name: Seq<char>,
    pub edit_url: Seq<char>,
    pub edit_key: Seq<char>,
    pub edit_table: Seq<char>,
}

impl View for Viewer {
    type V = ViewerModel;

    open spec fn view(&self) -> ViewerModel {
        ViewerModel {
            url: self.url@,
            anon_key: self.anon_key@,
            table: self.table@,
            status: self.status@,
            columns: self.columns.deep_view(),
            rows: self.rows.deep_view(),
            loading: self.loading,
            show_error: self.show_error,
            error_msg: self.error_msg@,
            dark_mode: self.dark_mode,
            sort_col: self.sort_col,
            sort_asc: self.sort_asc,
            selected_row: self.selected_row,
            bookmarks: bookmarks_model(self.bookmarks@),
            show_save_dialog: self.show_save_dialog,
            bookmark_name: self.bookmark_name@,
            editing_bookmark: self.editing_bookmark,
            show_edit_dialog: self.show_edit_dialog,
            edit_name: self.edit_name_buf@,
            edit_url: self.edit_url_buf@,
            edit_key: self.edit_key_buf@,
            edit_table: self.edit_table_buf@,
        }
    }
}

/// The state of a freshly started viewer: everything empty, nothing open,
/// dark mode on, sorting ascending.
pub open spec fn initial_model() -> ViewerModel {
    ViewerModel {
        url: Seq::empty(),
        anon_key: Seq::empty(),
        table: Seq::empty(),
        status: Seq::empty(),
        columns: Seq::empty(),
        rows: Seq::empty(),
        loading: false,
        show_error: false,
        error_msg: Seq::empty(),
        dark_mode: true,
        sort_col: None,
        sort_asc: true,
        selected_row: None,
        bookmarks: Seq::empty(),
        show_save_dialog: false,
        bookmark_name: Seq::empty(),
        editing_bookmark: None,
        show_edit_dialog: false,
        edit_name: Seq::empty(),
        edit_url: Seq::empty(),
        edit_key: Seq::empty(),
        edit_table: Seq::empty(),
    }
}

/// The table is consistent: every row has one cell per column, and the
/// sorted column and the selected row exist.
pub open spec fn table_consistent(m: ViewerModel) -> bool {
    &&& forall|i: int| 0 <= i < m.rows.len() ==> #[trigger] m.rows[i].len() == m.columns.len()
    &&& m.sort_col matches Some(c) ==> c < m.columns.len()
    &&& m.selected_row matches Some(r) ==> r < m.rows.len()
}

/// The state after a response that parsed as `doc`: an array replaces the
/// table (its columns the first record's keys, sorted; a row per record) and
/// clears sorting and selection; anything else only sets the status.
pub open spec fn shows_document(old: ViewerModel, new: ViewerModel, doc: DocumentModel) -> bool {
    match doc {
        DocumentModel::Other => new == (ViewerModel { status: "Response is not an array"@, ..old }),
        DocumentModel::Array(items) => if items.len() == 0 {
            new == (ViewerModel {
                columns: Seq::empty(),
                rows: Seq::empty(),
                sort_col: None,
                selected_row: None,
                status: "Table is empty"@,
                ..old
            })
        } else {
            &&& texts_sorted(new.columns)
            &&& is_rearrangement(first_keys(items), new.columns)
            &&& new.rows == table_cells(items, new.columns)
            &&& new == (ViewerModel {
                columns: new.columns,
                rows: new.rows,
                sort_col: None,
                selected_row: None,
                status: decimal(items.len()) + " rows"@,
                ..old
            })
        },
    }
}

/// The state after a response that is not JSON: the status reports the
/// parser's message and the error window shows the response.
pub open spec fn shows_json_error(old: ViewerModel, source: Seq<char>, message: Seq<char>) -> ViewerModel {
    ViewerModel { status: "JSON error: "@ + message, error_msg: source, show_error: true, ..old }
}

/// The state once no request is under way.
pub open spec fn no_request_under_way(m: ViewerModel) -> ViewerModel {
    ViewerModel { loading: false, ..m }
}

/// The state after a failed request: the message is the status and is shown
/// in the error window.
pub open spec fn shows_fetch_error(old: ViewerModel, message: Seq<char>) -> ViewerModel {
    ViewerModel { status: message, error_msg: message, show_error: true, ..old }
}

/// The state after switching the theme.
pub open spec fn theme_switched(m: ViewerModel) -> ViewerModel {
    ViewerModel { dark_mode: !m.dark_mode, ..m }
}

/// A request can be sent: none is under way and the address, the key and
/// the table are all given.
pub open spec fn can_connect_in(m: ViewerModel) -> bool {
    !m.loading && m.url.len() > 0 && m.anon_key.len() > 0 && m.table.len() > 0
}

/// The state while a request is under way: marked so, sorting and
/// selection cleared.
pub open spec fn connecting(m: ViewerModel) -> ViewerModel {
    ViewerModel { loading: true, status: "Connecting..."@, sort_col: None, selected_row: None, ..m }
}

/// The connection can be bookmarked: the address, the key and the table are
/// all given.
pub open spec fn can_save_in(m: ViewerModel) -> bool {
    m.url.len() > 0 && m.anon_key.len() > 0 && m.table.len() > 0
}

/// The state after pressing "+ Bookmark": the save dialog open with the
/// table's name as the bookmark's name, where the connection can be saved.
pub open spec fn save_dialog_opened(m: ViewerModel) -> ViewerModel {
    if can_save_in(m) {
        ViewerModel { show_save_dialog: true, bookmark_name: m.table, ..m }
    } else {
        m
    }
}

/// The state after closing the save dialog without saving.
pub open spec fn save_cancelled(m: ViewerModel) -> ViewerModel {
    ViewerModel { show_save_dialog: false, ..m }
}

/// The bookmark that the save dialog makes of the connection.
pub open spec fn connection_bookmark(m: ViewerModel) -> BookmarkModel {
    BookmarkModel { name: m.bookmark_name, url: m.url, anon_key: m.anon_key, table: m.table }
}

/// The state after saving the connection as a bookmark: appended to the
/// list, the dialog closed, the status saying so.
pub open spec fn bookmark_saved(m: ViewerModel) -> ViewerModel {
    ViewerModel {
        bookmarks: m.bookmarks.push(connection_bookmark(m)),
        show_save_dialog: false,
        status: "Bookmark '"@ + m.bookmark_name + "' saved"@,
        ..m
    }
}

/// The state after deleting bookmark `i`.
pub open spec fn bookmark_deleted(m: ViewerModel, i: int) -> ViewerModel {
    ViewerModel { bookmarks: m.bookmarks.remove(i), ..m }
}

/// The state after loading bookmark `i` into the connection fields.
pub open spec fn bookmark_loaded(m: ViewerModel, i: int) -> ViewerModel {
    ViewerModel {
        url: m.bookmarks[i].url,
        anon_key: m.bookmarks[i].anon_key,
        table: m.bookmarks[i].table,
        ..m
    }
}

/// The state after opening the edit dialog for bookmark `i`.
pub open spec fn edit_opened(m: ViewerModel, i: usize) -> ViewerModel {
    ViewerModel {
        editing_bookmark: Some(i),
        show_edit_dialog: true,
        edit_name: m.bookmarks[i as int].name,
        edit_url: m.bookmarks[i as int].url,
        edit_key: m.bookmarks[i as int].anon_key,
        edit_table: m.bookmarks[i as int].table,
        ..m
    }
}

/// The state after closing the edit dialog without saving.
pub open spec fn edit_cancelled(m: ViewerModel) -> ViewerModel {
    ViewerModel { show_edit_dialog: false, editing_bookmark: None, ..m }
}

/// The bookmark that the edit dialog's fields describe.
pub open spec fn edited_bookmark(m: ViewerModel) -> BookmarkModel {
    BookmarkModel { name: m.edit_name, url: m.edit_url, anon_key: m.edit_key, table: m.edit_table }
}

/// The state after saving the edit dialog: the bookmark being edited takes
/// the dialog's fields and the status says so; the dialog closes either way.
pub open spec fn edit_saved(m: ViewerModel) -> ViewerModel {
    match m.editing_bookmark {
        Some(i) => ViewerModel {
            bookmarks: m.bookmarks.update(i as int, edited_bookmark(m)),
            status: "Bookmark '"@ + m.edit_name + "' updated"@,
            show_edit_dialog: false,
            editing_bookmark: None,
            ..m
        },
        None => ViewerModel { show_edit_dialog: false, ..m },
    }
}

/// The state after closing the error window.
pub open spec fn error_closed(m: ViewerModel) -> ViewerModel {
    ViewerModel { show_error: false, ..m }
}

/// The state after clicking a cell of row `idx`.
pub open spec fn row_selected(m: ViewerModel, idx: int) -> ViewerModel {
    ViewerModel { selected_row: Some(idx as usize), ..m }
}

/// The state after exporting to the file displayed as `path`.
pub open spec fn marked_exported(m: ViewerModel, path: Seq<char>) -> ViewerModel {
    ViewerModel { status: "Exported to "@ + path, ..m }
}

/// The label of a column header: its name, and an arrow when the table is
/// sorted by it, up for ascending and down for descending.
pub open spec fn header_label(m: ViewerModel, ci: int) -> Seq<char> {
    if m.sort_col == Some(ci as usize) {
        m.columns[ci] + if m.sort_asc {
            " \u{25B2}"@
        } else {
            " \u{25BC}"@
        }
    } else {
        m.columns[ci]
    }
}

/// The width that fits the widest cell of column `ci` among the first `n`
/// rows: ten per character plus sixteen, at least sixty.
pub open spec fn widest(rows: Seq<Seq<Seq<char>>>, ci: int, n: int) -> int
    decreases n,
{
    if n <= 0 {
        60
    } else {
        let w: int = rows[n - 1][ci].len() as int * 10 + 16;
        let rest = widest(rows, ci, n - 1);
        if w > rest {
            w
        } else {
            rest
        }
    }
}

/// The width a column takes when fitted to its content: the widest cell's,
/// but at most six hundred.
pub open spec fn fitted_width(rows: Seq<Seq<Seq<char>>>, ci: int) -> int {
    let w = widest(rows, ci, rows.len() as int);
    if w < 600 {
        w
    } else {
        600
    }
}

impl Viewer {
    /// A freshly started viewer.
    pub fn new() -> (v: Viewer)
        ensures
            v@ == initial_model(),
    {
        let v = Viewer {
            url: String::new(),
            anon_key: String::new(),
            table: String::new(),
            status: String::new(),
            columns: Vec::new(),
            rows: Vec::new(),
            loading: false,
            show_error: false,
            error_msg: String::new(),
            dark_mode: true,
            sort_col: None,
            sort_asc: true,
            selected_row: None,
            bookmarks: Vec::new(),
            show_save_dialog: false,
            bookmark_name: String::new(),
            editing_bookmark: None,
            show_edit_dialog: false,
            edit_name_buf: String::new(),
            edit_url_buf: String::new(),
            edit_key_buf: String::new(),
            edit_table_buf: String::new(),
        };
        proof {
            assert(v@.columns =~= Seq::<Seq<char>>::empty());
            assert(v@.rows =~= Seq::<Seq<Seq<char>>>::empty());
            assert(v@.bookmarks =~= Seq::<BookmarkModel>::empty());
        }
        v
    }

    /// Switches between the dark and the light theme.
    pub fn toggle_dark_mode(&mut self)
        ensures
            final(self)@ == theme_switched(old(self)@),
    {
        self.dark_mode = !self.dark_mode;
    }

    /// Whether a request can be sent: none is under way and the address, the
    /// key and the table are all given.
    pub fn can_connect(&self) -> (b: bool)
        ensures
            b == can_connect_in(self@),
    {
        !self.loading && !self.url.as_str().is_empty() && !self.anon_key.as_str().is_empty()
            && !self.table.as_str().is_empty()
    }

    /// Whether the connection can be bookmarked: the address, the key and
    /// the table are all given.
    pub fn can_save(&self) -> (b: bool)
        ensures
            b == can_save_in(self@),
    {
        !self.url.as_str().is_empty() && !self.anon_key.as_str().is_empty()
            && !self.table.as_str().is_empty()
    }

    /// Pressing Connect: where a request can be sent, marks it under way,
    /// says so, clears sorting and selection, and gives the request to send.
    pub fn connect(&mut self) -> (req: Option<FetchRequest>)
        ensures
            req is Some <==> can_connect_in(old(self)@),
            req is None ==> final(self)@ == old(self)@,
            req matches Some(r) ==> {
                &&& r.url@ == table_url(old(self).url@, old(self).table@)
                &&& r.headers@.len() == 4
                &&& forall|i: int|
                    0 <= i < 4 ==> (#[trigger] r.headers@[i].0@, r.headers@[i].1@) == header_list(
                        old(self).anon_key@,
                    )[i]
                &&& final(self)@ == connecting(old(self)@)
            },
    {
        if !self.can_connect() {
            return None;
        }
        self.loading = true;
        self.status = String::from_str("Connecting...");
        self.sort_col = None;
        self.selected_row = None;
        Some(fetch_request(self.url.as_str(), self.anon_key.as_str(), self.table.as_str()))
    }

    /// Shows a parsed response, or the parser's message when the response
    /// was not JSON. Returns whether the table was replaced (the response was
    /// an array), so that column widths start afresh.
    pub fn apply_parsed(&mut self, source: &str, parsed: Result<JsonDocument, String>) -> (replaced:
        bool)
        ensures
            match parsed {
                Ok(d) => shows_document(old(self)@, final(self)@, d@) && replaced == (d@ is Array),
                Err(message) => final(self)@ == shows_json_error(old(self)@, source@, message@)
                    && !replaced,
            },
    {
        match parsed {
            Err(message) => {
                let mut status = String::from_str("JSON error: ");
                push_text(&mut status, message.as_str());
                self.status = status;
                self.error_msg = String::from_str(source);
                self.show_error = true;
                false
            },
            Ok(JsonDocument::Other) => {
                self.status = String::from_str("Response is not an array");
                false
            },
            Ok(JsonDocument::Array(items)) => {
                self.columns = Vec::new();
                self.rows = Vec::new();
                self.sort_col = None;
                self.selected_row = None;
                if items.len() == 0 {
                    self.status = String::from_str("Table is empty");
                    proof {
                        assert(self.columns.deep_view() =~= Seq::<Seq<char>>::empty());
                        assert(self.rows.deep_view() =~= Seq::<Seq<Seq<char>>>::empty());
                    }
                    return true;
                }
                let keys = first_record_keys(&items);
                let columns = sort_texts(&keys);
                let rows = build_rows(&items, &columns);
                self.columns = columns;
                self.rows = rows;
                let mut status = decimal_string(items.len());
                push_text(&mut status, " rows");
                self.status = status;
                proof {
                    assert(records_model(items@).len() == items@.len());
                }
                true
            },
        }
    }

    /// Shows a response body: what `apply_parsed` does with the document
    /// that the body parses to (its objects have distinct keys), or with the
    /// parser's message.
    pub fn parse_response(&mut self, json: &str) -> (replaced: bool)
        ensures
            match json_document(json@) {
                Some(d) => shows_document(old(self)@, final(self)@, d) && document_keys_distinct(d)
                    && replaced == (d is Array),
                None => !replaced && final(self)@ == shows_json_error(
                    old(self)@,
                    json@,
                    json_error_text(json@),
                ),
            },
    {
        let parsed = parse_document(json);
        self.apply_parsed(json, parsed)
    }

    /// Takes what came back for a request: the request is no longer under
    /// way; a body is shown as `parse_response` shows it, an error message
    /// becomes the status and is shown in the error window. Returns whether
    /// the table was replaced.
    pub fn receive(&mut self, result: Result<String, String>) -> (replaced: bool)
        ensures
            match result {
                Ok(json) => match json_document(json@) {
                    Some(d) => shows_document(
                        no_request_under_way(old(self)@),
                        final(self)@,
                        d,
                    ) && document_keys_distinct(d) && replaced == (d is Array),
                    None => !replaced && final(self)@ == shows_json_error(
                        no_request_under_way(old(self)@),
                        json@,
                        json_error_text(json@),
                    ),
                },
                Err(e) => !replaced && final(self)@ == shows_fetch_error(
                    no_request_under_way(old(self)@),
                    e@,
                ),
            },
    {
        self.loading = false;
        match result {
            Ok(json) => self.parse_response(json.as_str()),
            Err(e) => {
                self.status = e.clone();
                self.error_msg = e;
                self.show_error = true;
                false
            },
        }
    }

    /// Closes the error window.
    pub fn close_error(&mut self)
        ensures
            final(self)@ == error_closed(old(self)@),
    {
        self.show_error = false;
    }

    /// Pressing "+ Bookmark": where the connection can be bookmarked, opens
    /// the dialog with the table's name as the bookmark's name.
    pub fn open_save_dialog(&mut self)
        ensures
            final(self)@ == save_dialog_opened(old(self)@),
    {
        if self.can_save() {
            self.show_save_dialog = true;
            self.bookmark_name = self.table.clone();
        }
    }

    /// Closes the save dialog without saving.
    pub fn cancel_save(&mut self)
        ensures
            final(self)@ == save_cancelled(old(self)@),
    {
        self.show_save_dialog = false;
    }

    /// Saves the connection as a new bookmark at the end of the list, under
    /// the name given in the dialog, closes the dialog and says so.
    pub fn save_bookmark(&mut self)
        ensures
            final(self)@ == bookmark_saved(old(self)@),
    {
        let bookmark = Bookmark {
            name: self.bookmark_name.clone(),
            url: self.url.clone(),
            anon_key: self.anon_key.clone(),
            table: self.table.clone(),
        };
        let ghost before = self.bookmarks@;
        self.bookmarks.push(bookmark);
        self.show_save_dialog = false;
        let mut status = String::from_str("Bookmark '");
        push_text(&mut status, self.bookmark_name.as_str());
        push_text(&mut status, "' saved");
        self.status = status;
        proof {
            assert(bookmarks_model(self.bookmarks@) =~= bookmarks_model(before).push(bookmark@));
        }
    }

    /// Deletes bookmark `i`; those after it move up.
    pub fn delete_bookmark(&mut self, i: usize)
        requires
            i < old(self).bookmarks@.len(),
        ensures
            final(self)@ == bookmark_deleted(old(self)@, i as int),
    {
        let ghost before = self.bookmarks@;
        self.bookmarks.remove(i);
        proof {
            assert(bookmarks_model(self.bookmarks@) =~= bookmarks_model(before).remove(i as int));
        }
    }

    /// Loads bookmark `i` into the connection fields.
    pub fn load_bookmark(&mut self, i: usize)
        requires
            i < old(self).bookmarks@.len(),
        ensures
            final(self)@ == bookmark_loaded(old(self)@, i as int),
    {
        self.url = self.bookmarks[i].url.clone();
        self.anon_key = self.bookmarks[i].anon_key.clone();
        self.table = self.bookmarks[i].table.clone();
    }

    /// Opens the edit dialog for bookmark `i`, filled with its fields.
    pub fn edit_bookmark(&mut self, i: usize)
        requires
            i < old(self).bookmarks@.len(),
        ensures
            final(self)@ == edit_opened(old(self)@, i),
    {
        self.editing_bookmark = Some(i);
        self.show_edit_dialog = true;
        self.edit_name_buf = self.bookmarks[i].name.clone();
        self.edit_url_buf = self.bookmarks[i].url.clone();
        self.edit_key_buf = self.bookmarks[i].anon_key.clone();
        self.edit_table_buf = self.bookmarks[i].table.clone();
    }

    /// Closes the edit dialog without saving.
    pub fn cancel_edit(&mut self)
        ensures
            final(self)@ == edit_cancelled(old(self)@),
    {
        self.show_edit_dialog = false;
        self.editing_bookmark = None;
    }

    /// Saves the edit dialog: the bookmark being edited takes the dialog's
    /// fields and the status says so; the dialog closes either way. Returns
    /// whether a bookmark changed.
    pub fn save_edit(&mut self) -> (changed: bool)
        requires
            old(self).editing_bookmark matches Some(i) ==> i < old(self).bookmarks@.len(),
        ensures
            changed == old(self).editing_bookmark is Some,
            final(self)@ == edit_saved(old(self)@),
    {
        let changed = match self.editing_bookmark {
            Some(i) => {
                let bookmark = Bookmark {
                    name: self.edit_name_buf.clone(),
                    url: self.edit_url_buf.clone(),
                    anon_key: self.edit_key_buf.clone(),
                    table: self.edit_table_buf.clone(),
                };
                let ghost before = self.bookmarks@;
                self.bookmarks.set(i, bookmark);
                proof {
                    assert(bookmarks_model(self.bookmarks@) =~= bookmarks_model(before).update(
                        i as int,
                        bookmark@,
                    ));
                }
                let mut status = String::from_str("Bookmark '");
                push_text(&mut status, self.edit_name_buf.as_str());
                push_text(&mut status, "' updated");
                self.status = status;
                true
            },
            None => false,
        };
        self.show_edit_dialog = false;
        self.editing_bookmark = None;
        changed
    }
}


/// The rows after sorting by column `col` with the given numeric readings of
/// its cells: a stable sort, ascending or descending.
pub open spec fn sorted_rows(
    rows: Seq<Seq<Seq<char>>>,
    keys: Seq<NumericKey>,
    col: int,
    ascending: bool,
    sorted: Seq<Seq<Seq<char>>>,
) -> bool {
    exists|order: Seq<usize>|
        #[trigger] stably_ordered(order, rows.len() as int, row_before(rows, keys, col, ascending))
            && arranged_by(rows, sorted, order)
}

impl Viewer {
    /// Whether the table is consistent (see [`table_consistent`]).
    pub open spec fn well_formed(&self) -> bool {
        table_consistent(self@)
    }

    /// Sorts the rows by the sorted column, if there is one, in its
    /// direction; `keys` are how the column's cells read as numbers, row by
    /// row (a row without the column reads as an empty text). Nothing else
    /// changes.
    pub fn sort_rows(&mut self, keys: &Vec<NumericKey>)
        requires
            keys@.len() == old(self).rows@.len(),
        ensures
            old(self).well_formed() ==> final(self).well_formed(),
            old(self).sort_col is None ==> final(self)@ == old(self)@,
            old(self).sort_col matches Some(c) ==> {
                &&& sorted_rows(old(self)@.rows, keys@, c as int, old(self).sort_asc, final(self)@.rows)
                &&& final(self)@ == (ViewerModel { rows: final(self)@.rows, ..old(self)@ })
            },
    {
        match self.sort_col {
            None => {},
            Some(col) => {
                let ghost m = self@;
                let order = row_order(&self.rows, keys, col, self.sort_asc);
                let sorted = arrange_rows(&self.rows, &order);
                self.rows = sorted;
                proof {
                    assert(stably_ordered(order@, m.rows.len() as int, row_before(m.rows, keys@, col as int, m.sort_asc)));
                    if table_consistent(m) {
                        assert forall|i: int| 0 <= i < self@.rows.len() implies #[trigger] self@.rows[i].len() == self@.columns.len() by {
                            assert(self@.rows[i] == m.rows[order@[i] as int]);
                        }
                    }
                }
            },
        }
    }

    /// Clicking the header of column `ci`: sorts by it, ascending, or turns
    /// the direction round when the table is already sorted by it.
    pub fn click_header(&mut self, ci: usize, keys: &Vec<NumericKey>)
        requires
            keys@.len() == old(self).rows@.len(),
        ensures
            old(self).well_formed() && ci < old(self).columns@.len() ==> final(self).well_formed(),
            final(self).sort_col == Some(ci),
            final(self).sort_asc == (if old(self).sort_col == Some(ci) {
                !old(self).sort_asc
            } else {
                true
            }),
            sorted_rows(old(self)@.rows, keys@, ci as int, final(self).sort_asc, final(self)@.rows),
            final(self)@ == (ViewerModel {
                sort_col: Some(ci),
                sort_asc: final(self).sort_asc,
                rows: final(self)@.rows,
                ..old(self)@
            }),
    {
        let asc = if self.sort_col == Some(ci) {
            !self.sort_asc
        } else {
            true
        };
        self.sort_col = Some(ci);
        self.sort_asc = asc;
        proof {
            if old(self).well_formed() && ci < old(self).columns@.len() {
                assert forall|i: int| 0 <= i < self@.rows.len() implies #[trigger] self@.rows[i].len()
                    == self@.columns.len() by {
                    assert(old(self)@.rows[i].len() == old(self)@.columns.len());
                }
            }
        }
        self.sort_rows(keys);
    }

    /// Clicking a cell: selects its row and gives its text, to be copied.
    pub fn select_cell(&mut self, idx: usize, ci: usize) -> (copied: String)
        requires
            idx < old(self).rows@.len(),
            ci < old(self)@.rows[idx as int].len(),
        ensures
            copied@ == old(self)@.rows[idx as int][ci as int],
            final(self)@ == row_selected(old(self)@, idx as int),
    {
        proof {
            assert(self@.rows[idx as int] == self.rows@[idx as int].deep_view());
        }
        self.selected_row = Some(idx);
        self.rows[idx][ci].clone()
    }

    /// The width that fits column `ci` to its content (see [`fitted_width`]).
    pub fn fitted_width(&self, ci: usize) -> (w: u64)
        requires
            has_column(self@.rows, ci as int),
        ensures
            w == fitted_width(self@.rows, ci as int),
    {
        let ghost rows = self@.rows;
        let mut w: u64 = 60;
        let mut i: usize = 0;
        while i < self.rows.len()
            invariant
                i <= self.rows@.len(),
                rows == self@.rows,
                rows.len() == self.rows@.len(),
                has_column(rows, ci as int),
                w == (if widest(rows, ci as int, i as int) < 600 {
                    widest(rows, ci as int, i as int)
                } else {
                    600
                }),
            decreases self.rows@.len() - i,
        {
            proof {
                assert(rows[i as int] == self.rows@[i as int].deep_view());
                assert(ci < rows[i as int].len());
            }
            let count = self.rows[i][ci].as_str().unicode_len();
            let cell: u64 = if count >= 59 {
                600
            } else {
                count as u64 * 10 + 16
            };
            if cell > w {
                w = cell;
            }
            i = i + 1;
        }
        w
    }

    /// The background of the cells of row `idx`: the selection colour for
    /// the selected row, otherwise stripes that alternate with the row's
    /// parity, in the current theme.
    pub fn cell_bg(&self, idx: usize, is_sel: bool) -> (c: Rgb)
        ensures
            c == (if is_sel {
                rgb(50, 100, 180)
            } else if idx % 2 == 1 {
                if self.dark_mode {
                    rgb(40, 40, 45)
                } else {
                    rgb(245, 245, 250)
                }
            } else if self.dark_mode {
                rgb(30, 30, 30)
            } else {
                rgb(255, 255, 255)
            }),
    {
        if is_sel {
            Rgb { r: 50, g: 100, b: 180 }
        } else if idx % 2 == 1 {
            if self.dark_mode {
                Rgb { r: 40, g: 40, b: 45 }
            } else {
                Rgb { r: 245, g: 245, b: 250 }
            }
        } else if self.dark_mode {
            Rgb { r: 30, g: 30, b: 30 }
        } else {
            Rgb { r: 255, g: 255, b: 255 }
        }
    }

    /// The colour of text in the current theme.
    pub fn text_color(&self) -> (c: Rgb)
        ensures
            c == (if self.dark_mode {
                rgb(220, 220, 220)
            } else {
                rgb(30, 30, 30)
            }),
    {
        if self.dark_mode {
            Rgb { r: 220, g: 220, b: 220 }
        } else {
            Rgb { r: 30, g: 30, b: 30 }
        }
    }

    /// The colour of a cell's text: white on the selected row, the theme's
    /// text colour otherwise.
    pub fn cell_text_color(&self, is_sel: bool) -> (c: Rgb)
        ensures
            c == (if is_sel {
                rgb(255, 255, 255)
            } else if self.dark_mode {
                rgb(220, 220, 220)
            } else {
                rgb(30, 30, 30)
            }),
    {
        if is_sel {
            Rgb { r: 255, g: 255, b: 255 }
        } else {
            self.text_color()
        }
    }

    /// The colour of the header of column `ci`: highlighted when the table
    /// is sorted by it, the theme's text colour otherwise.
    pub fn header_color(&self, ci: usize) -> (c: Rgb)
        ensures
            c == (if self.sort_col == Some(ci) {
                rgb(100, 180, 255)
            } else if self.dark_mode {
                rgb(220, 220, 220)
            } else {
                rgb(30, 30, 30)
            }),
    {
        if self.sort_col == Some(ci) {
            Rgb { r: 100, g: 180, b: 255 }
        } else {
            self.text_color()
        }
    }

    /// The fill of the bookmark buttons in the current theme.
    pub fn bookmark_fill(&self) -> (c: Rgb)
        ensures
            c == (if self.dark_mode {
                rgb(50, 50, 60)
            } else {
                rgb(230, 230, 240)
            }),
    {
        if self.dark_mode {
            Rgb { r: 50, g: 50, b: 60 }
        } else {
            Rgb { r: 230, g: 230, b: 240 }
        }
    }

    /// The label of the header of column `ci` (see [`header_label`]).
    pub fn header_text(&self, ci: usize) -> (t: String)
        requires
            ci < self.columns@.len(),
        ensures
            t@ == header_label(self@, ci as int),
    {
        let mut t = self.columns[ci].clone();
        if self.sort_col == Some(ci) {
            if self.sort_asc {
                push_text(&mut t, " \u{25B2}");
            } else {
                push_text(&mut t, " \u{25BC}");
            }
        }
        t
    }

    /// The icon and the hint of the theme switch: a sun to go light while
    /// dark, a moon to go dark while light.
    pub fn theme_switch(&self) -> (r: (String, String))
        ensures
            self.dark_mode ==> r.0@ == "\u{2600}"@ && r.1@ == "Light mode"@,
            !self.dark_mode ==> r.0@ == "\u{263E}"@ && r.1@ == "Dark mode"@,
    {
        if self.dark_mode {
            (String::from_str("\u{2600}"), String::from_str("Light mode"))
        } else {
            (String::from_str("\u{263E}"), String::from_str("Dark mode"))
        }
    }

    /// The footer's position label, `Row <n> / <count>` counting from one,
    /// when a row is selected.
    pub fn row_position(&self) -> (label: Option<String>)
        requires
            self.selected_row matches Some(r) ==> r < usize::MAX,
        ensures
            self.selected_row is None ==> label is None,
            self.selected_row matches Some(r) ==> label matches Some(l) && l@ == "Row "@
                + decimal((r + 1) as nat) + " / "@ + decimal(self.rows@.len()),
    {
        match self.selected_row {
            None => None,
            Some(r) => {
                let count = self.rows.len();
                let mut l = String::from_str("Row ");
                push_decimal(&mut l, r + 1);
                push_text(&mut l, " / ");
                push_decimal(&mut l, count);
                Some(l)
            },
        }
    }

    /// The label of bookmark `i`: its table, a slash, its name.
    pub fn bookmark_label(&self, i: usize) -> (l: String)
        requires
            i < self.bookmarks@.len(),
        ensures
            l@ == self@.bookmarks[i as int].table + " / "@ + self@.bookmarks[i as int].name,
    {
        let mut l = self.bookmarks[i].table.clone();
        push_text(&mut l, " / ");
        push_text(&mut l, self.bookmarks[i].name.as_str());
        l
    }

    /// The hint shown over bookmark `i`: its address and table.
    pub fn bookmark_hint(&self, i: usize) -> (h: String)
        requires
            i < self.bookmarks@.len(),
        ensures
            h@ == "URL: "@ + self@.bookmarks[i as int].url + "\nTable: "@
                + self@.bookmarks[i as int].table + "\nClick to load"@,
    {
        let mut h = String::from_str("URL: ");
        push_text(&mut h, self.bookmarks[i].url.as_str());
        push_text(&mut h, "\nTable: ");
        push_text(&mut h, self.bookmarks[i].table.as_str());
        push_text(&mut h, "\nClick to load");
        h
    }

    /// The summary of the connection shown in the save dialog.
    pub fn save_summary(&self) -> (s: String)
        ensures
            s@ == self.url@ + " | "@ + self.anon_key@ + " | "@ + self.table@,
    {
        let mut s = self.url.clone();
        push_text(&mut s, " | ");
        push_text(&mut s, self.anon_key.as_str());
        push_text(&mut s, " | ");
        push_text(&mut s, self.table.as_str());
        s
    }

    /// Whether there is anything to export.
    pub fn can_export(&self) -> (b: bool)
        ensures
            b == (self.rows@.len() > 0),
    {
        self.rows.len() > 0
    }

    /// The file name proposed for an export: the table's name with `.csv`.
    pub fn export_file_name(&self) -> (n: String)
        ensures
            n@ == self.table@ + ".csv"@,
    {
        let mut n = self.table.clone();
        push_text(&mut n, ".csv");
        n
    }

    /// The table as comma-separated values (see [`csv_text`]).
    pub fn export_csv(&self) -> (out: String)
        ensures
            out@ == csv_text(self@.columns, self@.rows),
    {
        to_csv(&self.columns, &self.rows)
    }

    /// Records that the table was exported to the file displayed as `path`.
    pub fn exported(&mut self, path: &str)
        ensures
            final(self)@ == marked_exported(old(self)@, path@),
    {
        let mut status = String::from_str("Exported to ");
        push_text(&mut status, path);
        self.status = status;
    }
}

/// The number shown in front of row `idx`, counting from one.
pub fn row_number(idx: usize) -> (label: String)
    requires
        idx < usize::MAX,
    ensures
        label@ == decimal((idx + 1) as nat),
{
    decimal_string(idx + 1)
}


impl Default for Viewer {
    /// A freshly started viewer.
    fn default() -> (v: Viewer)
        ensures
            v@ == initial_model(),
    {
        Viewer::new()
    }
}

/// A cell's text as the table draws it: at most its first hundred bytes, with
/// `...` after them when there are more.
pub fn truncate_cell(text: &str) -> (t: String)
    requires
        text.len() > 100 ==> is_char_boundary(text.spec_bytes(), 100),
    ensures
        text.len() <= 100 ==> t@ == text@,
        text.len() > 100 ==> exists|head: Seq<char>|
            #[trigger] encode_utf8(head) == text.spec_bytes().take(100) && t@ == head + "..."@,
{
    if text.len() > 100 {
        let (head, _rest) = text.split_at(100);
        let mut t = String::from_str(head);
        push_text(&mut t, "...");
        proof {
            assert(encode_utf8(head@) == text.spec_bytes().take(100));
        }
        t
    } else {
        String::from_str(text)
    }
}

} // verus!
