//! Properties that hold across the operations of the library.
use vstd::prelude::*;
use crate::csv::{double_quotes, escape_field, join_fields, needs_quotes, row_lines};
use crate::json::{document_keys_distinct, entry_keys, first_keys, record_keys_distinct, DocumentModel, RecordModel};
use crate::ordering::{
    arranged_by, asymmetric, is_permutation, is_rearrangement, lemma_increasing_is_identity,
    lemma_locally_ordered_is_sorted, lemma_permutation_onto, lemma_strict_chains_equal,
    negatively_transitive, stably_ordered,
};
use crate::request::{canonical_reason, is_success, reply_outcome, trim_trailing_slashes};
use crate::table::{cell_at, cell_order, directed, lemma_cell_order_flip, row_before, table_cells, texts_sorted, NumericKey};
use crate::text::{decimal, digit_char, flip, lemma_text_order_equal, lemma_text_order_flip, lemma_text_order_transitive, text_order, text_order_from, Order};
use crate::viewer::{
    bookmark_deleted, bookmark_loaded, bookmark_saved, can_connect_in, can_save_in, connecting, edit_cancelled,
    edit_opened, edit_saved, error_closed, fitted_width, marked_exported, no_request_under_way,
    row_selected, save_cancelled, save_dialog_opened, shows_document, shows_fetch_error,
    shows_json_error, sorted_rows, table_consistent, theme_switched, widest, ViewerModel,
};

verus! {

/// Showing a parsed response keeps the table consistent: after an array,
/// every row has exactly one cell per column, and there is a row per record.
pub proof fn law_document_keeps_table_consistent(old: ViewerModel, new: ViewerModel, doc: DocumentModel)
    requires
        table_consistent(old),
        shows_document(old, new, doc),
    ensures
        table_consistent(new),
        doc matches DocumentModel::Array(items) ==> new.rows.len() == items.len(),
{
    match doc {
        DocumentModel::Other => {},
        DocumentModel::Array(items) => {
            if items.len() > 0 {
                assert(new.rows == table_cells(items, new.columns));
                assert forall|i: int| 0 <= i < new.rows.len() implies #[trigger] new.rows[i].len()
                    == new.columns.len() by {
                    assert(new.rows[i] == table_cells(items, new.columns)[i]);
                }
            }
        },
    }
}

/// A failed request or a response that is not JSON leaves the table as it was.
pub proof fn law_errors_keep_table(m: ViewerModel, source: Seq<char>, message: Seq<char>)
    ensures
        shows_json_error(m, source, message).columns == m.columns,
        shows_json_error(m, source, message).rows == m.rows,
        shows_fetch_error(m, message).columns == m.columns,
        shows_fetch_error(m, message).rows == m.rows,
        table_consistent(m) ==> table_consistent(shows_json_error(m, source, message)),
        table_consistent(m) ==> table_consistent(shows_fetch_error(no_request_under_way(m), message)),
{
}

/// The controls that do not replace the table keep it consistent.
pub proof fn law_controls_keep_table_consistent(m: ViewerModel, i: usize, idx: int, path: Seq<char>)
    requires
        table_consistent(m),
    ensures
        table_consistent(theme_switched(m)),
        table_consistent(connecting(m)),
        table_consistent(no_request_under_way(m)),
        table_consistent(save_dialog_opened(m)),
        table_consistent(save_cancelled(m)),
        table_consistent(bookmark_saved(m)),
        table_consistent(bookmark_deleted(m, i as int)),
        table_consistent(bookmark_loaded(m, i as int)),
        table_consistent(edit_opened(m, i)),
        table_consistent(edit_cancelled(m)),
        table_consistent(edit_saved(m)),
        table_consistent(error_closed(m)),
        table_consistent(marked_exported(m, path)),
        0 <= idx < m.rows.len() ==> table_consistent(row_selected(m, idx)),
{
}

/// Sorting keeps the rows: the sorted rows are the same rows, each once.
pub proof fn law_sort_keeps_rows(
    rows: Seq<Seq<Seq<char>>>,
    keys: Seq<NumericKey>,
    col: int,
    ascending: bool,
    sorted: Seq<Seq<Seq<char>>>,
)
    requires
        sorted_rows(rows, keys, col, ascending, sorted),
    ensures
        is_rearrangement(rows, sorted),
{
    let order = choose|order: Seq<usize>|
        #[trigger] stably_ordered(order, rows.len() as int, row_before(rows, keys, col, ascending))
            && arranged_by(rows, sorted, order);
    assert(is_permutation(order, rows.len() as int));
}

/// Sorting is stable: rows whose cells tie keep the order they had.
pub proof fn law_sort_is_stable(
    rows: Seq<Seq<Seq<char>>>,
    keys: Seq<NumericKey>,
    col: int,
    ascending: bool,
    sorted: Seq<Seq<Seq<char>>>,
)
    requires
        sorted_rows(rows, keys, col, ascending, sorted),
    ensures
        exists|order: Seq<usize>|
            #[trigger] is_permutation(order, rows.len() as int) && arranged_by(rows, sorted, order)
                && forall|p: int, q: int|
                0 <= p < q < order.len() && cell_order(
                    cell_at(rows[order[p] as int], col),
                    keys[order[p] as int],
                    cell_at(rows[order[q] as int], col),
                    keys[order[q] as int],
                ) == Order::Equal ==> #[trigger] order[p] < #[trigger] order[q],
{
    let order = choose|order: Seq<usize>|
        #[trigger] stably_ordered(order, rows.len() as int, row_before(rows, keys, col, ascending))
            && arranged_by(rows, sorted, order);
    assert(is_permutation(order, rows.len() as int));
    assert forall|p: int, q: int|
        0 <= p < q < order.len() && cell_order(
            cell_at(rows[order[p] as int], col),
            keys[order[p] as int],
            cell_at(rows[order[q] as int], col),
            keys[order[q] as int],
        ) == Order::Equal implies #[trigger] order[p] < #[trigger] order[q] by {
        if order[q] < order[p] {
            assert(row_before(rows, keys, col, ascending)(order[p] as int, order[q] as int));
        }
        assert(order[p] != order[q]);
    }
}

/// Sorting descending puts a row before another exactly where ascending
/// puts the other before it.
pub proof fn law_descending_reverses(
    rows: Seq<Seq<Seq<char>>>,
    keys: Seq<NumericKey>,
    col: int,
    a: int,
    b: int,
)
    ensures
        row_before(rows, keys, col, false)(a, b) == row_before(rows, keys, col, true)(b, a),
{
    lemma_cell_order_flip(cell_at(rows[a], col), keys[a], cell_at(rows[b], col), keys[b]);
}

/// Every cell of the column reads as text, or every cell reads as an
/// ordinary number.
pub open spec fn uniform_column(keys: Seq<NumericKey>) -> bool {
    ||| forall|i: int| 0 <= i < keys.len() ==> #[trigger] keys[i] == NumericKey::NotNumeric
    ||| forall|i: int| 0 <= i < keys.len() ==> #[trigger] keys[i] is Ordered
}

/// When a column reads wholly as text or wholly as numbers, sorting by it
/// orders all the rows: no row comes after a later one.
pub proof fn law_sort_orders_uniform_column(
    rows: Seq<Seq<Seq<char>>>,
    keys: Seq<NumericKey>,
    col: int,
    ascending: bool,
    sorted: Seq<Seq<Seq<char>>>,
)
    requires
        keys.len() == rows.len(),
        uniform_column(keys),
        sorted_rows(rows, keys, col, ascending, sorted),
    ensures
        exists|order: Seq<usize>|
            #[trigger] is_permutation(order, rows.len() as int) && arranged_by(rows, sorted, order)
                && forall|p: int, q: int|
                0 <= p < q < order.len() ==> directed(
                    cell_order(
                        cell_at(rows[#[trigger] order[p] as int], col),
                        keys[order[p] as int],
                        cell_at(rows[#[trigger] order[q] as int], col),
                        keys[order[q] as int],
                    ),
                    ascending,
                ) != Order::Greater,
{
    let n = rows.len() as int;
    let lt = row_before(rows, keys, col, ascending);
    let order = choose|order: Seq<usize>|
        #[trigger] stably_ordered(order, n, lt) && arranged_by(rows, sorted, order);
    assert(is_permutation(order, n));
    assert forall|a: int, b: int, c: int|
        0 <= a < n && 0 <= b < n && 0 <= c < n && !#[trigger] lt(b, a) && !#[trigger] lt(
            c,
            b,
        ) implies !#[trigger] lt(c, a) by {
        let (ta, tb, tc) = (cell_at(rows[a], col), cell_at(rows[b], col), cell_at(rows[c], col));
        lemma_text_order_flip(ta, tb);
        lemma_text_order_flip(tb, tc);
        lemma_text_order_flip(ta, tc);
        if keys[a] == NumericKey::NotNumeric {
            assert(keys[b] == NumericKey::NotNumeric && keys[c] == NumericKey::NotNumeric);
            if ascending {
                lemma_text_order_transitive(ta, tb, tc);
            } else {
                lemma_text_order_transitive(tc, tb, ta);
            }
        } else {
            assert(keys[a] is Ordered && keys[b] is Ordered && keys[c] is Ordered);
        }
    }
    assert(negatively_transitive(n, lt));
    lemma_locally_ordered_is_sorted(order, n, lt);
    assert forall|p: int, q: int| 0 <= p < q < order.len() implies directed(
        cell_order(
            cell_at(rows[#[trigger] order[p] as int], col),
            keys[order[p] as int],
            cell_at(rows[#[trigger] order[q] as int], col),
            keys[order[q] as int],
        ),
        ascending,
    ) != Order::Greater by {
        let a = order[p] as int;
        let b = order[q] as int;
        assert(!lt(b, a));
        lemma_cell_order_flip(cell_at(rows[a], col), keys[a], cell_at(rows[b], col), keys[b]);
    }
}

/// Switching the theme twice gives back the state it started from.
pub proof fn law_theme_switch_twice(m: ViewerModel)
    ensures
        theme_switched(theme_switched(m)) == m,
{
    assert(theme_switched(theme_switched(m)) =~= m);
}

/// While a request is under way, Connect sends no other.
pub proof fn law_one_request_at_a_time(m: ViewerModel)
    ensures
        !can_connect_in(connecting(m)),
        can_connect_in(m) ==> !can_connect_in(connecting(m)),
{
}

/// A connection saved as a bookmark is given back by loading that bookmark.
pub proof fn law_saved_bookmark_loads_back(m: ViewerModel)
    ensures
        ({
            let saved = bookmark_saved(m);
            let loaded = bookmark_loaded(saved, saved.bookmarks.len() - 1);
            &&& loaded.url == m.url
            &&& loaded.anon_key == m.anon_key
            &&& loaded.table == m.table
            &&& saved.bookmarks.len() == m.bookmarks.len() + 1
        }),
{
}

/// An edited bookmark, loaded afterwards, gives what the dialog held.
pub proof fn law_edited_bookmark_loads_back(m: ViewerModel)
    requires
        m.editing_bookmark matches Some(i) && i < m.bookmarks.len(),
    ensures
        ({
            let i = m.editing_bookmark->0 as int;
            let loaded = bookmark_loaded(edit_saved(m), i);
            &&& loaded.url == m.edit_url
            &&& loaded.anon_key == m.edit_key
            &&& loaded.table == m.edit_table
            &&& edit_saved(m).bookmarks[i].name == m.edit_name
        }),
{
}

/// Opening a bookmark for editing and saving it unchanged keeps every
/// bookmark as it was.
pub proof fn law_unchanged_edit_keeps_bookmarks(m: ViewerModel, i: usize)
    requires
        i < m.bookmarks.len(),
    ensures
        edit_saved(edit_opened(m, i)).bookmarks == m.bookmarks,
{
    assert(edit_saved(edit_opened(m, i)).bookmarks =~= m.bookmarks.update(i as int, m.bookmarks[i as int]));
}

/// Deleting a bookmark keeps the others, in their order.
pub proof fn law_delete_keeps_other_bookmarks(m: ViewerModel, i: int)
    requires
        0 <= i < m.bookmarks.len(),
    ensures
        bookmark_deleted(m, i).bookmarks.len() == m.bookmarks.len() - 1,
        forall|k: int| 0 <= k < i ==> #[trigger] bookmark_deleted(m, i).bookmarks[k] == m.bookmarks[k],
        forall|k: int|
            i <= k < m.bookmarks.len() - 1 ==> #[trigger] bookmark_deleted(m, i).bookmarks[k]
                == m.bookmarks[k + 1],
{
}

/// Trimming leaves a prefix of the address that ends in no slash, removes
/// nothing but slashes, and trimming again changes nothing.
pub proof fn law_trimmed_address(s: Seq<char>)
    ensures
        trim_trailing_slashes(s).len() <= s.len(),
        trim_trailing_slashes(s) == s.take(trim_trailing_slashes(s).len() as int),
        trim_trailing_slashes(s).len() > 0 ==> trim_trailing_slashes(s).last() != '/',
        forall|j: int| trim_trailing_slashes(s).len() <= j < s.len() ==> #[trigger] s[j] == '/',
        trim_trailing_slashes(trim_trailing_slashes(s)) == trim_trailing_slashes(s),
    decreases s.len(),
{
    if s.len() > 0 && s.last() == '/' {
        law_trimmed_address(s.drop_last());
        let t = trim_trailing_slashes(s.drop_last());
        assert(s.drop_last().take(t.len() as int) =~= s.take(t.len() as int));
        assert forall|j: int| t.len() <= j < s.len() implies #[trigger] s[j] == '/' by {
            if j < s.len() - 1 {
                assert(s.drop_last()[j] == s[j]);
            }
        }
    } else {
        assert(s.take(s.len() as int) =~= s);
    }
}

/// A fitted column is at least sixty and at most six hundred wide.
pub proof fn law_fitted_width_bounds(rows: Seq<Seq<Seq<char>>>, ci: int)
    ensures
        60 <= fitted_width(rows, ci) <= 600,
{
    lemma_widest_at_least_sixty(rows, ci, rows.len() as int);
}

proof fn lemma_widest_at_least_sixty(rows: Seq<Seq<Seq<char>>>, ci: int, n: int)
    ensures
        widest(rows, ci, n) >= 60,
    decreases n,
{
    if n > 0 {
        lemma_widest_at_least_sixty(rows, ci, n - 1);
    }
}

/// A cell with no comma, double quote or newline is written as it is; any
/// other cell is written between double quotes.
pub proof fn law_field_escaping(s: Seq<char>)
    ensures
        !needs_quotes(s) ==> escape_field(s) == s,
        needs_quotes(s) ==> escape_field(s).first() == '"' && escape_field(s).last() == '"',
{
}

/// A reply with a success status hands its body on unchanged; any other
/// reply is an error.
pub proof fn law_reply_outcome(status: u16, body: Result<Seq<char>, Seq<char>>)
    ensures
        reply_outcome(status, body) is Ok <==> (is_success(status) && body is Ok),
        reply_outcome(status, body) matches Ok(b) ==> body == Ok::<Seq<char>, Seq<char>>(b),
{
}


/// `t` with each doubled double quote read as one, from the end.
pub open spec fn undouble_quotes(t: Seq<char>) -> Seq<char>
    decreases t.len(),
{
    if t.len() == 0 {
        Seq::empty()
    } else if t.len() >= 2 && t.last() == '"' && t[t.len() - 2] == '"' {
        undouble_quotes(t.take(t.len() - 2)).push('"')
    } else {
        undouble_quotes(t.drop_last()).push(t.last())
    }
}

/// How a reader of comma-separated values reads one field: a field in double
/// quotes without them and with doubled quotes read as one, any other as it
/// is.
pub open spec fn read_field(t: Seq<char>) -> Seq<char> {
    if t.len() >= 2 && t.first() == '"' && t.last() == '"' {
        undouble_quotes(t.subrange(1, t.len() - 1))
    } else {
        t
    }
}

proof fn lemma_undouble_double(s: Seq<char>)
    ensures
        undouble_quotes(double_quotes(s)) == s,
    decreases s.len(),
{
    if s.len() > 0 {
        lemma_undouble_double(s.drop_last());
        let d = double_quotes(s.drop_last());
        if s.last() == '"' {
            let t = d + seq!['"', '"'];
            assert(t.take(t.len() - 2) =~= d);
        } else {
            let t = d + seq![s.last()];
            assert(t.drop_last() =~= d);
        }
        assert(undouble_quotes(d).push(s.last()) =~= s);
    }
}

/// Every cell written to the file reads back as the same text.
pub proof fn law_escaped_field_reads_back(s: Seq<char>)
    ensures
        read_field(escape_field(s)) == s,
{
    if needs_quotes(s) {
        let e = seq!['"'] + double_quotes(s) + seq!['"'];
        assert(e.subrange(1, e.len() - 1) =~= double_quotes(s));
        lemma_undouble_double(s);
    } else {
        if s.len() >= 1 && s.first() == '"' {
            assert(s.contains('"'));
        }
    }
}


/// Each text comes strictly before every later one: sorted, with no text
/// twice.
pub open spec fn strictly_increasing(s: Seq<Seq<char>>) -> bool {
    forall|p: int, q: int| 0 <= p < q < s.len() ==> text_order(#[trigger] s[p], #[trigger] s[q]) == Order::Less
}

/// After any parsed response the columns are strictly increasing: sorted,
/// and, as the keys of one object are distinct, with no name twice.
pub proof fn law_columns_strictly_increasing(old: ViewerModel, new: ViewerModel, doc: DocumentModel)
    requires
        strictly_increasing(old.columns),
        shows_document(old, new, doc),
        document_keys_distinct(doc),
    ensures
        strictly_increasing(new.columns),
{
    match doc {
        DocumentModel::Other => {},
        DocumentModel::Array(items) => {
            if items.len() > 0 {
                let keys = first_keys(items);
                assert(record_keys_distinct(items[0]));
                let order = choose|order: Seq<usize>|
                    #[trigger] is_permutation(order, keys.len() as int) && arranged_by(keys, new.columns, order);
                assert(texts_sorted(new.columns));
                assert forall|p: int, q: int| 0 <= p < q < new.columns.len() implies text_order(
                    #[trigger] new.columns[p],
                    #[trigger] new.columns[q],
                ) == Order::Less by {
                    let (a, b) = (order[p] as int, order[q] as int);
                    assert(a != b);
                    assert(new.columns[p] == keys[a] && new.columns[q] == keys[b]);
                    assert(keys[a] != keys[b]) by {
                        if a < b {
                            assert(items[0] matches crate::json::RecordModel::Object(e) && e[a].0 != e[b].0);
                        } else {
                            assert(items[0] matches crate::json::RecordModel::Object(e) && e[b].0 != e[a].0);
                        }
                    }
                    lemma_text_order_equal(new.columns[p], new.columns[q]);
                }
            }
        },
    }
}

/// Only a response that replaces the table changes the columns, so column
/// widths kept for the columns stay one per column.
pub proof fn law_columns_kept_unless_replaced(
    old: ViewerModel,
    new: ViewerModel,
    doc: DocumentModel,
    source: Seq<char>,
    message: Seq<char>,
)
    ensures
        shows_document(old, new, doc) && !(doc is Array) ==> new.columns == old.columns,
        shows_json_error(old, source, message).columns == old.columns,
        shows_fetch_error(no_request_under_way(old), message).columns == old.columns,
{
}

/// The numeric readings of column `col`, each cell read by `key_of`.
pub open spec fn column_keys(
    rows: Seq<Seq<Seq<char>>>,
    col: int,
    key_of: spec_fn(Seq<char>) -> NumericKey,
) -> Seq<NumericKey> {
    Seq::new(rows.len(), |i: int| key_of(cell_at(rows[i], col)))
}

/// Sorting again by the same column, with cells read as numbers the same
/// way, changes nothing, where the column orders the rows totally up to ties.
pub proof fn law_resorting_changes_nothing(
    rows: Seq<Seq<Seq<char>>>,
    col: int,
    ascending: bool,
    key_of: spec_fn(Seq<char>) -> NumericKey,
    sorted: Seq<Seq<Seq<char>>>,
    resorted: Seq<Seq<Seq<char>>>,
)
    requires
        negatively_transitive(
            rows.len() as int,
            row_before(rows, column_keys(rows, col, key_of), col, ascending),
        ),
        sorted_rows(rows, column_keys(rows, col, key_of), col, ascending, sorted),
        sorted_rows(sorted, column_keys(sorted, col, key_of), col, ascending, resorted),
    ensures
        resorted == sorted,
{
    let n = rows.len() as int;
    let k1 = column_keys(rows, col, key_of);
    let lt1 = row_before(rows, k1, col, ascending);
    let o1 = choose|order: Seq<usize>|
        #[trigger] stably_ordered(order, n, lt1) && arranged_by(rows, sorted, order);
    assert(is_permutation(o1, n));
    let k2 = column_keys(sorted, col, key_of);
    let lt2 = row_before(sorted, k2, col, ascending);
    let o2 = choose|order: Seq<usize>|
        #[trigger] stably_ordered(order, sorted.len() as int, lt2) && arranged_by(sorted, resorted, order);
    assert(sorted.len() == n);
    assert(is_permutation(o2, n));
    lemma_locally_ordered_is_sorted(o1, n, lt1);
    assert forall|a: int, b: int| 0 <= a < n && 0 <= b < n implies #[trigger] lt2(a, b) == lt1(
        o1[a] as int,
        o1[b] as int,
    ) by {
        assert(sorted[a] == rows[o1[a] as int]);
        assert(sorted[b] == rows[o1[b] as int]);
    }
    let ints = o2.map_values(|x: usize| x as int);
    assert forall|p: int, q: int| 0 <= p < q < n implies #[trigger] ints[p] < #[trigger] ints[q] by {
        let (a, b) = (o2[p] as int, o2[q] as int);
        assert(o2[p] != o2[q]);
        if b < a {
            assert(lt2(a, b));
            assert(!lt1(o1[a] as int, o1[b] as int));
        }
    }
    assert forall|i: int| 0 <= i < n implies 0 <= #[trigger] ints[i] < n by {
        assert(o2[i] < n);
    }
    lemma_increasing_is_identity(ints, n);
    assert forall|k: int| 0 <= k < n implies resorted[k] == sorted[k] by {
        assert(ints[k] == k);
        assert(resorted[k] == sorted[o2[k] as int]);
    }
    assert(resorted =~= sorted);
}

/// Where no two rows tie in column `col` and the column orders the rows
/// totally, sorting descending gives the ascending order reversed.
pub proof fn law_descending_is_ascending_reversed(
    rows: Seq<Seq<Seq<char>>>,
    keys: Seq<NumericKey>,
    col: int,
    up: Seq<Seq<Seq<char>>>,
    down: Seq<Seq<Seq<char>>>,
)
    requires
        keys.len() == rows.len(),
        negatively_transitive(rows.len() as int, row_before(rows, keys, col, true)),
        forall|a: int, b: int|
            #![trigger rows[a], rows[b]]
            0 <= a < rows.len() && 0 <= b < rows.len() && a != b ==> cell_order(
                cell_at(rows[a], col),
                keys[a],
                cell_at(rows[b], col),
                keys[b],
            ) != Order::Equal,
        sorted_rows(rows, keys, col, true, up),
        sorted_rows(rows, keys, col, false, down),
    ensures
        down == up.reverse(),
{
    let n = rows.len() as int;
    let lt = row_before(rows, keys, col, true);
    let ltd = row_before(rows, keys, col, false);
    assert forall|a: int, b: int| 0 <= a < n && 0 <= b < n implies #[trigger] ltd(a, b) == lt(b, a) by {
        law_descending_reverses(rows, keys, col, a, b);
    }
    assert forall|a: int, b: int| 0 <= a < n && 0 <= b < n implies (#[trigger] lt(a, b) ==> !lt(b, a)) && (a
        != b ==> lt(a, b) || lt(b, a)) by {
        lemma_cell_order_flip(cell_at(rows[a], col), keys[a], cell_at(rows[b], col), keys[b]);
        if a != b {
            assert(cell_order(cell_at(rows[a], col), keys[a], cell_at(rows[b], col), keys[b]) != Order::Equal);
        }
    }
    assert(asymmetric(n, lt));
    let oa = choose|order: Seq<usize>| #[trigger] stably_ordered(order, n, lt) && arranged_by(rows, up, order);
    let od = choose|order: Seq<usize>| #[trigger] stably_ordered(order, n, ltd) && arranged_by(rows, down, order);
    assert(is_permutation(oa, n));
    assert(is_permutation(od, n));
    lemma_locally_ordered_is_sorted(oa, n, lt);
    assert(negatively_transitive(n, ltd)) by {
        assert forall|a: int, b: int, c: int|
            0 <= a < n && 0 <= b < n && 0 <= c < n && !#[trigger] ltd(b, a) && !#[trigger] ltd(c, b) implies !#[trigger] ltd(c, a) by {
            assert(!lt(a, b) && !lt(b, c));
        }
    }
    lemma_locally_ordered_is_sorted(od, n, ltd);
    let r = od.reverse();
    assert(is_permutation(r, n)) by {
        assert forall|p: int, q: int| 0 <= p < q < n implies #[trigger] r[p] != #[trigger] r[q] by {
            assert(od[n - 1 - q] != od[n - 1 - p]);
        }
        assert forall|k: int| 0 <= k < n implies #[trigger] r[k] < n by {
            assert(od[n - 1 - k] < n);
        }
    }
    assert forall|p: int, q: int| 0 <= p < q < n implies lt(#[trigger] oa[p] as int, #[trigger] oa[q] as int) by {
        assert(!lt(oa[q] as int, oa[p] as int));
        assert(oa[p] != oa[q]);
    }
    assert forall|p: int, q: int| 0 <= p < q < n implies lt(#[trigger] r[p] as int, #[trigger] r[q] as int) by {
        let (i, j) = (n - 1 - q, n - 1 - p);
        assert(r[p] == od[j] && r[q] == od[i]);
        assert(!ltd(od[j] as int, od[i] as int));
        assert(od[i] != od[j]);
    }
    lemma_strict_chains_equal(oa, r, n, lt);
    assert forall|k: int| 0 <= k < n implies down[k] == up.reverse()[k] by {
        assert(down[k] == rows[od[k] as int]);
        assert(up[n - 1 - k] == rows[oa[n - 1 - k] as int]);
        assert(r[n - 1 - k] == od[k]);
    }
    assert(down =~= up.reverse());
}


/// Two cells that both read as numbers compare as those numbers do on their
/// order-keeping scale: the smaller comes first, and equal numbers tie,
/// whatever the cells' texts.
pub proof fn law_numbers_compare_by_value(ta: Seq<char>, tb: Seq<char>, x: u64, y: u64)
    ensures
        (cell_order(ta, NumericKey::Ordered(x), tb, NumericKey::Ordered(y)) == Order::Less) <==> x < y,
        (cell_order(ta, NumericKey::Ordered(x), tb, NumericKey::Ordered(y)) == Order::Equal) <==> x == y,
        (cell_order(ta, NumericKey::Ordered(x), tb, NumericKey::Ordered(y)) == Order::Greater) <==> x > y,
{
}

/// Sorting a column whose cells all read as numbers puts them in order of
/// value: ascending, no row's number is larger than a later row's;
/// descending, no row's number is smaller than a later row's.
pub proof fn law_numeric_column_sorts_by_value(
    rows: Seq<Seq<Seq<char>>>,
    keys: Seq<NumericKey>,
    col: int,
    ascending: bool,
    sorted: Seq<Seq<Seq<char>>>,
)
    requires
        keys.len() == rows.len(),
        forall|i: int| 0 <= i < keys.len() ==> #[trigger] keys[i] is Ordered,
        sorted_rows(rows, keys, col, ascending, sorted),
    ensures
        exists|order: Seq<usize>|
            #[trigger] is_permutation(order, rows.len() as int) && arranged_by(rows, sorted, order)
                && forall|p: int, q: int|
                0 <= p < q < order.len() ==> if ascending {
                    keys[#[trigger] order[p] as int]->Ordered_0 <= keys[#[trigger] order[q] as int]->Ordered_0
                } else {
                    keys[order[p] as int]->Ordered_0 >= keys[order[q] as int]->Ordered_0
                },
{
    assert(uniform_column(keys));
    law_sort_orders_uniform_column(rows, keys, col, ascending, sorted);
    let order = choose|order: Seq<usize>|
        #[trigger] is_permutation(order, rows.len() as int) && arranged_by(rows, sorted, order)
            && forall|p: int, q: int|
            0 <= p < q < order.len() ==> directed(
                cell_order(
                    cell_at(rows[#[trigger] order[p] as int], col),
                    keys[order[p] as int],
                    cell_at(rows[#[trigger] order[q] as int], col),
                    keys[order[q] as int],
                ),
                ascending,
            ) != Order::Greater;
    assert forall|p: int, q: int| 0 <= p < q < order.len() implies if ascending {
        keys[#[trigger] order[p] as int]->Ordered_0 <= keys[#[trigger] order[q] as int]->Ordered_0
    } else {
        keys[order[p] as int]->Ordered_0 >= keys[order[q] as int]->Ordered_0
    } by {
        assert(order[p] < rows.len() && order[q] < rows.len());
        assert(keys[order[p] as int] is Ordered && keys[order[q] as int] is Ordered);
    }
}

/// The first record's keys, when it is an object, are all its entries' keys,
/// in its order: as many as it has entries.
pub proof fn law_first_keys_are_all_keys(items: Seq<RecordModel>)
    ensures
        items.len() > 0 && items[0] is Object ==> first_keys(items).len() == items[0]->Object_0.len()
            && forall|k: int|
            0 <= k < items[0]->Object_0.len() ==> #[trigger] first_keys(items)[k]
                == items[0]->Object_0[k].0,
        !(items.len() > 0 && items[0] is Object) ==> first_keys(items).len() == 0,
{
}

/// After a response that is a non-empty array whose first record is an
/// object, the columns are exactly that object's keys: as many names as it
/// has entries, each of its keys among them, and no other name.
pub proof fn law_columns_are_first_record_keys(old: ViewerModel, new: ViewerModel, doc: DocumentModel)
    requires
        shows_document(old, new, doc),
        doc matches DocumentModel::Array(items) && items.len() > 0 && items[0] is Object,
    ensures
        ({
            let entries = doc->Array_0[0]->Object_0;
            &&& new.columns.len() == entries.len()
            &&& forall|k: int| 0 <= k < entries.len() ==> new.columns.contains(#[trigger] entries[k].0)
            &&& forall|c: int|
                0 <= c < new.columns.len() ==> entry_keys(entries).contains(#[trigger] new.columns[c])
        }),
{
    let items = doc->Array_0;
    let entries = items[0]->Object_0;
    let keys = first_keys(items);
    law_first_keys_are_all_keys(items);
    let n = keys.len() as int;
    let order = choose|order: Seq<usize>|
        #[trigger] is_permutation(order, n) && arranged_by(keys, new.columns, order);
    assert(is_permutation(order, n) && arranged_by(keys, new.columns, order));
    assert(new.columns.len() == entries.len());
    assert forall|k: int| 0 <= k < entries.len() implies new.columns.contains(#[trigger] entries[k].0) by {
        lemma_permutation_onto(order, n, k);
        let p = choose|p: int| 0 <= p < n && order[p] == k;
        assert(new.columns[p] == keys[k]);
        assert(keys[k] == entries[k].0);
    }
    assert forall|c: int| 0 <= c < new.columns.len() implies entry_keys(entries).contains(
        #[trigger] new.columns[c],
    ) by {
        let k = order[c] as int;
        assert(new.columns[c] == keys[k]);
        assert(entry_keys(entries)[k] == keys[k]);
    }
}

/// A reply is handed on exactly when its status is in 200..=299 and its body
/// was read; any other status reports the code, its reason phrase and the
/// body; an unread body reports the error.
pub proof fn law_reply_success_is_2xx(status: u16, body: Result<Seq<char>, Seq<char>>)
    ensures
        (reply_outcome(status, body) is Ok) <==> (200 <= status <= 299 && body is Ok),
        200 <= status <= 299 ==> (body matches Ok(b) ==> reply_outcome(status, body) == Ok::<
            Seq<char>,
            Seq<char>,
        >(b)),
        !(200 <= status <= 299) ==> (body matches Ok(b) ==> reply_outcome(status, body) == Err::<
            Seq<char>,
            Seq<char>,
        >(
            "HTTP "@ + decimal(status as nat) + " "@ + match canonical_reason(status) {
                Some(r) => r,
                None => "<unknown status code>"@,
            } + ": "@ + b,
        )),
        body matches Err(e) ==> reply_outcome(status, body) == Err::<Seq<char>, Seq<char>>(
            "Error: "@ + e,
        ),
{
    if let Ok(b) = body {
        if !(200 <= status <= 299) {
            assert(reply_outcome(status, body)->Err_0 =~= "HTTP "@ + decimal(status as nat) + " "@
                + match canonical_reason(status) {
                Some(r) => r,
                None => "<unknown status code>"@,
            } + ": "@ + b);
        }
    }
}

/// Connect sends a request only with an address, a key and a table, and none
/// under way; with all of them it does.
pub proof fn law_connect_needs_every_field(m: ViewerModel)
    ensures
        m.url.len() == 0 ==> !can_connect_in(m),
        m.anon_key.len() == 0 ==> !can_connect_in(m),
        m.table.len() == 0 ==> !can_connect_in(m),
        m.loading ==> !can_connect_in(m),
        !m.loading && m.url.len() > 0 && m.anon_key.len() > 0 && m.table.len() > 0 ==> can_connect_in(m),
        (m.url.len() == 0 || m.anon_key.len() == 0 || m.table.len() == 0) ==> !can_save_in(m),
        m.url.len() > 0 && m.anon_key.len() > 0 && m.table.len() > 0 ==> can_save_in(m),
{
}

/// The width a cell asks for when fitting its column: ten per character plus
/// sixteen, at most six hundred.
pub open spec fn cell_width(cell: Seq<char>) -> int {
    if cell.len() as int * 10 + 16 < 600 {
        cell.len() as int * 10 + 16
    } else {
        600
    }
}

proof fn lemma_widest_bounds(rows: Seq<Seq<Seq<char>>>, ci: int, n: int)
    requires
        0 <= n <= rows.len(),
    ensures
        forall|i: int| 0 <= i < n ==> widest(rows, ci, n) >= #[trigger] rows[i][ci].len() * 10 + 16,
        widest(rows, ci, n) == 60 || exists|i: int|
            0 <= i < n && widest(rows, ci, n) == #[trigger] rows[i][ci].len() * 10 + 16,
    decreases n,
{
    if n > 0 {
        lemma_widest_bounds(rows, ci, n - 1);
        let w = rows[n - 1][ci].len() * 10 + 16;
        if widest(rows, ci, n - 1) != 60 && w <= widest(rows, ci, n - 1) {
            let i = choose|i: int|
                0 <= i < n - 1 && widest(rows, ci, n - 1) == #[trigger] rows[i][ci].len() * 10 + 16;
            assert(widest(rows, ci, n) == rows[i][ci].len() * 10 + 16);
        }
    }
}

/// A fitted column is wide enough for every cell (up to six hundred), and
/// its width is sixty or the width of one of its cells.
pub proof fn law_fitted_width_covers_every_cell(rows: Seq<Seq<Seq<char>>>, ci: int)
    ensures
        forall|i: int| 0 <= i < rows.len() ==> fitted_width(rows, ci) >= cell_width(#[trigger] rows[i][ci]),
        fitted_width(rows, ci) == 60 || exists|i: int|
            0 <= i < rows.len() && fitted_width(rows, ci) == cell_width(#[trigger] rows[i][ci]),
{
    lemma_widest_bounds(rows, ci, rows.len() as int);
    law_fitted_width_bounds(rows, ci);
    if fitted_width(rows, ci) != 60 {
        let w = widest(rows, ci, rows.len() as int);
        if w != 60 {
            let i = choose|i: int| 0 <= i < rows.len() && w == #[trigger] rows[i][ci].len() * 10 + 16;
            assert(fitted_width(rows, ci) == cell_width(rows[i][ci]));
        }
    }
}

/// `a` and `b` agree on their first `k` characters.
pub open spec fn agree_before(a: Seq<char>, b: Seq<char>, k: int) -> bool {
    forall|j: int| 0 <= j < k ==> #[trigger] a[j] == b[j]
}

/// `a` comes before `b` in dictionary order: at the first place where they
/// differ `a` has the smaller code point, or `a` is a proper prefix of `b`.
pub open spec fn lexicographically_before(a: Seq<char>, b: Seq<char>) -> bool {
    ||| exists|k: int|
        0 <= k < a.len() && k < b.len() && agree_before(a, b, k) && (#[trigger] a[k] as int) < (b[k] as int)
    ||| a.len() < b.len() && agree_before(a, b, a.len() as int)
}

proof fn lemma_text_order_from_lexicographic(a: Seq<char>, b: Seq<char>, i: int)
    requires
        0 <= i <= a.len(),
        i <= b.len(),
        agree_before(a, b, i),
    ensures
        (text_order_from(a, b, i) == Order::Equal) <==> a == b,
        (text_order_from(a, b, i) == Order::Less) <==> lexicographically_before(a, b),
    decreases a.len() - i,
{
    if i >= a.len() {
        if i >= b.len() {
            assert(a =~= b);
        }
        if i < b.len() {
            assert(a.len() < b.len() && agree_before(a, b, a.len() as int));
        }
    } else if i >= b.len() {
        assert(a.len() != b.len());
    } else if (a[i] as int) < (b[i] as int) {
        assert(a[i] != b[i]);
    } else if (a[i] as int) > (b[i] as int) {
        assert(a[i] != b[i]);
        assert forall|k: int|
            0 <= k < a.len() && k < b.len() && agree_before(a, b, k) implies !((#[trigger] a[k] as int) < (
        b[k] as int)) by {
            if k > i {
                assert(a[i] == b[i]);
            }
        }
    } else {
        assert(a[i] == b[i]);
        lemma_text_order_from_lexicographic(a, b, i + 1);
    }
}

/// Texts compare in dictionary order by code point: equal exactly when they
/// are the same text, and the first is smaller exactly when it has the
/// smaller character at the first place where they differ, or is a proper
/// prefix of the second.
pub proof fn law_text_order_is_lexicographic(a: Seq<char>, b: Seq<char>)
    ensures
        (text_order(a, b) == Order::Equal) <==> a == b,
        (text_order(a, b) == Order::Less) <==> lexicographically_before(a, b),
        (text_order(a, b) == Order::Greater) <==> lexicographically_before(b, a),
{
    lemma_text_order_from_lexicographic(a, b, 0);
    lemma_text_order_from_lexicographic(b, a, 0);
    lemma_text_order_flip(a, b);
}

/// Two cells of which one does not read as a number compare by their texts;
/// two that read as numbers, one of them NaN, tie.
pub proof fn law_text_cells_compare_by_text(ta: Seq<char>, ka: NumericKey, tb: Seq<char>, kb: NumericKey)
    ensures
        (ka is NotNumeric || kb is NotNumeric) ==> cell_order(ta, ka, tb, kb) == text_order(ta, tb),
        !(ka is NotNumeric || kb is NotNumeric) && (ka is Unordered || kb is Unordered) ==> cell_order(
            ta,
            ka,
            tb,
            kb,
        ) == Order::Equal,
{
}

/// The number that a text of decimal digits spells.
pub open spec fn digits_value(s: Seq<char>) -> int
    decreases s.len(),
{
    if s.len() == 0 {
        0
    } else {
        digits_value(s.drop_last()) * 10 + (s.last() as int - 48)
    }
}

/// The decimal text of a number is made of digits, starts with no zero
/// unless it is "0", and spells the number.
pub proof fn law_decimal_spells_number(n: nat)
    ensures
        decimal(n).len() > 0,
        forall|j: int| 0 <= j < decimal(n).len() ==> '0' <= #[trigger] decimal(n)[j] <= '9',
        decimal(n)[0] == '0' ==> n == 0 && decimal(n).len() == 1,
        digits_value(decimal(n)) == n,
    decreases n,
{
    lemma_digit_char_value((n % 10) as int);
    if n >= 10 {
        law_decimal_spells_number(n / 10);
        let d = decimal(n);
        assert(d.drop_last() =~= decimal(n / 10));
        assert(d[0] == decimal(n / 10)[0]);
        assert(d.last() == digit_char((n % 10) as int));
        assert(n == (n / 10) * 10 + n % 10) by (nonlinear_arith);
        assert(digits_value(d) == digits_value(decimal(n / 10)) * 10 + (n % 10));
    } else {
        assert(n % 10 == n);
        let d = decimal(n);
        assert(d.drop_last() =~= Seq::<char>::empty());
        assert(digits_value(Seq::<char>::empty()) == 0);
        assert(d.last() == digit_char(n as int));
        assert(digits_value(d) == digits_value(d.drop_last()) * 10 + (d.last() as int - 48));
    }
}

proof fn lemma_digit_char_value(d: int)
    requires
        0 <= d < 10,
    ensures
        digit_char(d) as int == 48 + d,
        '0' <= digit_char(d) <= '9',
{
    assert(((48 + d) as u8) as int == 48 + d);
}

/// Joining two non-empty lists of fields gives the first joined, a comma,
/// and the second joined; a single field is written alone.
pub proof fn law_fields_joined_by_commas(a: Seq<Seq<char>>, b: Seq<Seq<char>>)
    requires
        a.len() > 0,
        b.len() > 0,
    ensures
        join_fields(a + b) == join_fields(a) + seq![','] + join_fields(b),
        join_fields(seq![b[0]]) == b[0],
    decreases b.len(),
{
    if b.len() > 1 {
        law_fields_joined_by_commas(a, b.drop_last());
        assert((a + b).drop_last() =~= a + b.drop_last());
        assert(join_fields(a) + seq![','] + join_fields(b.drop_last()) + seq![','] + b.last() =~= join_fields(a)
            + seq![','] + (join_fields(b.drop_last()) + seq![','] + b.last()));
    } else {
        assert((a + b).drop_last() =~= a);
        assert(join_fields(b) == b[0]);
    }
}

/// The rows of the file are written one line each, in their order: the lines
/// of two lists of rows are the lines of the first followed by those of the
/// second, and a row's line is its escaped cells joined by commas, then a
/// newline.
pub proof fn law_rows_written_in_order(a: Seq<Seq<Seq<char>>>, b: Seq<Seq<Seq<char>>>, r: Seq<Seq<char>>)
    ensures
        row_lines(a + b) == row_lines(a) + row_lines(b),
        row_lines(seq![r]) == join_fields(r.map_values(|c: Seq<char>| escape_field(c))) + seq!['\n'],
    decreases b.len(),
{
    if b.len() > 0 {
        law_rows_written_in_order(a, b.drop_last(), r);
        assert((a + b).drop_last() =~= a + b.drop_last());
        assert((a + b).last() == b.last());
    } else {
        assert(a + b =~= a);
    }
    assert(seq![r].drop_last() =~= Seq::<Seq<Seq<char>>>::empty());
    assert(row_lines(Seq::<Seq<Seq<char>>>::empty()) =~= Seq::<char>::empty());
}

} // verus!
