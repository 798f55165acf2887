//! Building a table from a JSON document and ordering its rows by a column.
use vstd::prelude::*;
use crate::json::{cell_text, lookup, record_cell_text, records_model, JsonRecord, RecordModel};
use crate::ordering::{
    arranged_by, asymmetric, is_permutation, is_rearrangement, lemma_locally_ordered_is_sorted,
    negatively_transitive, stable_order, stably_ordered,
};
use crate::text::{
    compare_text, flip, int_order, lemma_text_order_flip, lemma_text_order_transitive, text_order,
    Order,
};

verus! {

/// No text in `s` comes after a later one.
pub open spec fn texts_sorted(s: Seq<Seq<char>>) -> bool {
    forall|p: int, q: int|
        0 <= p < q < s.len() ==> text_order(#[trigger] s[p], #[trigger] s[q]) != Order::Greater
}

/// "Comes strictly before" for texts.
pub open spec fn text_before(s: Seq<Seq<char>>) -> spec_fn(int, int) -> bool {
    |a: int, b: int| text_order(s[a], s[b]) == Order::Less
}

proof fn lemma_text_before_total(s: Seq<Seq<char>>)
    ensures
        asymmetric(s.len() as int, text_before(s)),
        negatively_transitive(s.len() as int, text_before(s)),
{
    let n = s.len() as int;
    let lt = text_before(s);
    assert forall|a: int, b: int| 0 <= a < n && 0 <= b < n && #[trigger] lt(a, b) implies !lt(
        b,
        a,
    ) by {
        lemma_text_order_flip(s[a], s[b]);
    }
    assert forall|a: int, b: int, c: int|
        0 <= a < n && 0 <= b < n && 0 <= c < n && !#[trigger] lt(b, a) && !#[trigger] lt(
            c,
            b,
        ) implies !#[trigger] lt(c, a) by {
        lemma_text_order_flip(s[b], s[a]);
        lemma_text_order_flip(s[c], s[b]);
        lemma_text_order_flip(s[c], s[a]);
        lemma_text_order_transitive(s[a], s[b], s[c]);
    }
}

/// Copies the items of `src` at the positions that `order` names.
fn arrange_texts(src: &Vec<String>, order: &Vec<usize>) -> (dst: Vec<String>)
    requires
        forall|k: int| 0 <= k < order.len() ==> #[trigger] order@[k] < src.len(),
    ensures
        arranged_by(src.deep_view(), dst.deep_view(), order@),
{
    let mut dst: Vec<String> = Vec::new();
    let mut k: usize = 0;
    while k < order.len()
        invariant
            k <= order.len(),
            forall|i: int| 0 <= i < order.len() ==> #[trigger] order@[i] < src.len(),
            dst.deep_view().len() == k,
            forall|i: int|
                0 <= i < k ==> #[trigger] dst.deep_view()[i] == src.deep_view()[order@[i] as int],
        decreases order.len() - k,
    {
        let item = src[order[k]].clone();
        let ghost before = dst.deep_view();
        dst.push(item);
        proof {
            assert(dst.deep_view() =~= before.push(item@));
        }
        k = k + 1;
    }
    dst
}

/// The texts in sorted order, as `Vec::sort` puts them.
pub fn sort_texts(texts: &Vec<String>) -> (sorted: Vec<String>)
    ensures
        is_rearrangement(texts.deep_view(), sorted.deep_view()),
        texts_sorted(sorted.deep_view()),
{
    let ghost s = texts.deep_view();
    let n = texts.len();
    proof {
        lemma_text_before_total(s);
    }
    let before = |a: usize, b: usize| -> (r: bool)
        requires
            a < n && b < n,
        ensures
            r == text_before(texts.deep_view())(a as int, b as int),
        { compare_text(texts[a].as_str(), texts[b].as_str()) == Order::Less };
    let order = stable_order(n, before, Ghost(text_before(s)));
    let sorted = arrange_texts(texts, &order);
    proof {
        lemma_locally_ordered_is_sorted(order@, n as int, text_before(s));
        assert forall|p: int, q: int| 0 <= p < q < sorted.deep_view().len() implies text_order(
            #[trigger] sorted.deep_view()[p],
            #[trigger] sorted.deep_view()[q],
        ) != Order::Greater by {
            let a = order@[p] as int;
            let b = order@[q] as int;
            assert(!text_before(s)(b, a));
            lemma_text_order_flip(s[b], s[a]);
        }
        assert(is_permutation(order@, s.len() as int));
    }
    sorted
}

/// The cells of the table: for each record, for each column, the text of
/// what the record holds under that column's key.
pub open spec fn table_cells(items: Seq<RecordModel>, columns: Seq<Seq<char>>) -> Seq<
    Seq<Seq<char>>,
> {
    Seq::new(items.len(), |i: int| Seq::new(columns.len(), |j: int| cell_text(lookup(items[i], columns[j]))))
}

/// One row of the table: the record's cell under each column.
fn build_row(record: &JsonRecord, columns: &Vec<String>) -> (row: Vec<String>)
    ensures
        row.deep_view() == Seq::new(
            columns.deep_view().len(),
            |j: int| cell_text(lookup(record@, columns.deep_view()[j])),
        ),
{
    let mut row: Vec<String> = Vec::new();
    let mut j: usize = 0;
    while j < columns.len()
        invariant
            j <= columns.len(),
            row.deep_view() =~= Seq::new(
                j as nat,
                |c: int| cell_text(lookup(record@, columns.deep_view()[c])),
            ),
        decreases columns.len() - j,
    {
        let cell = record_cell_text(record, &columns[j]);
        let ghost before = row.deep_view();
        row.push(cell);
        proof {
            assert(row.deep_view() =~= before.push(cell@));
        }
        j = j + 1;
    }
    row
}

/// The rows of the table built from `items` under `columns`.
pub fn build_rows(items: &Vec<JsonRecord>, columns: &Vec<String>) -> (rows: Vec<Vec<String>>)
    ensures
        rows.deep_view() == table_cells(records_model(items@), columns.deep_view()),
{
    let ghost model = records_model(items@);
    let mut rows: Vec<Vec<String>> = Vec::new();
    let mut i: usize = 0;
    while i < items.len()
        invariant
            i <= items.len(),
            model == records_model(items@),
            rows.deep_view() =~= table_cells(model, columns.deep_view()).take(i as int),
        decreases items.len() - i,
    {
        let row = build_row(&items[i], columns);
        let ghost before = rows.deep_view();
        rows.push(row);
        proof {
            assert(model[i as int] == items@[i as int]@);
            assert(rows.deep_view() =~= before.push(row.deep_view()));
            assert(table_cells(model, columns.deep_view())[i as int] =~= row.deep_view());
        }
        i = i + 1;
    }
    rows
}

/// How a cell reads as a floating-point number: not at all, as a number
/// placed on a scale of unsigned integers that keeps the order of numbers, or
/// as a NaN, which compares with no number.
#[derive(PartialEq, Eq, Structural, Clone, Copy, Debug)]
pub enum NumericKey {
    NotNumeric,
    Ordered(u64),
    Unordered,
}

/// The order of two cells in a sorted column: by number when both read as
/// numbers (a NaN ties with every number), by text otherwise.
pub open spec fn cell_order(ta: Seq<char>, ka: NumericKey, tb: Seq<char>, kb: NumericKey) -> Order {
    match (ka, kb) {
        (NumericKey::NotNumeric, _) => text_order(ta, tb),
        (_, NumericKey::NotNumeric) => text_order(ta, tb),
        (NumericKey::Ordered(x), NumericKey::Ordered(y)) => int_order(x as int, y as int),
        _ => Order::Equal,
    }
}

/// An order, kept when ascending and turned round when descending.
pub open spec fn directed(o: Order, ascending: bool) -> Order {
    if ascending {
        o
    } else {
        flip(o)
    }
}

/// The cell of a row in column `col`, or the empty text when the row is
/// shorter.
pub open spec fn cell_at(row: Seq<Seq<char>>, col: int) -> Seq<char> {
    if 0 <= col < row.len() {
        row[col]
    } else {
        Seq::empty()
    }
}

/// "Row `a` comes strictly before row `b`" when sorting by column `col`.
pub open spec fn row_before(
    rows: Seq<Seq<Seq<char>>>,
    keys: Seq<NumericKey>,
    col: int,
    ascending: bool,
) -> spec_fn(int, int) -> bool {
    |a: int, b: int|
        directed(cell_order(cell_at(rows[a], col), keys[a], cell_at(rows[b], col), keys[b]), ascending)
            == Order::Less
}

/// Comparing two cells the other way round gives the opposite order.
pub proof fn lemma_cell_order_flip(ta: Seq<char>, ka: NumericKey, tb: Seq<char>, kb: NumericKey)
    ensures
        cell_order(tb, kb, ta, ka) == flip(cell_order(ta, ka, tb, kb)),
{
    lemma_text_order_flip(ta, tb);
}

/// Compares two cells of a sorted column.
pub fn compare_cells(ta: &str, ka: NumericKey, tb: &str, kb: NumericKey) -> (o: Order)
    ensures
        o == cell_order(ta@, ka, tb@, kb),
{
    match (ka, kb) {
        (NumericKey::NotNumeric, _) => compare_text(ta, tb),
        (_, NumericKey::NotNumeric) => compare_text(ta, tb),
        (NumericKey::Ordered(x), NumericKey::Ordered(y)) => if x < y {
            Order::Less
        } else if x == y {
            Order::Equal
        } else {
            Order::Greater
        },
        _ => Order::Equal,
    }
}

/// Every row has a cell in column `col`.
pub open spec fn has_column(rows: Seq<Seq<Seq<char>>>, col: int) -> bool {
    forall|i: int| 0 <= i < rows.len() ==> col < #[trigger] rows[i].len()
}

/// The cell of a row in column `col`, or the empty text when the row is
/// shorter.
pub fn row_cell(row: &Vec<String>, col: usize) -> (t: &str)
    ensures
        t@ == cell_at(row.deep_view(), col as int),
{
    if col < row.len() {
        row[col].as_str()
    } else {
        proof {
            reveal_strlit("");
        }
        ""
    }
}

/// The positions of the rows in a stable sort by column `col`.
pub fn row_order(rows: &Vec<Vec<String>>, keys: &Vec<NumericKey>, col: usize, ascending: bool) -> (order:
    Vec<usize>)
    requires
        keys.len() == rows.len(),
    ensures
        stably_ordered(order@, rows.len() as int, row_before(rows.deep_view(), keys@, col as int, ascending)),
{
    let ghost table = rows.deep_view();
    let ghost lt = row_before(table, keys@, col as int, ascending);
    let n = rows.len();
    proof {
        assert forall|a: int, b: int| 0 <= a < n && 0 <= b < n && #[trigger] lt(a, b) implies !lt(
            b,
            a,
        ) by {
            lemma_cell_order_flip(cell_at(table[a], col as int), keys@[a], cell_at(table[b], col as int), keys@[b]);
        }
    }
    let before = |a: usize, b: usize| -> (r: bool)
        requires
            a < n && b < n,
        ensures
            r == row_before(rows.deep_view(), keys@, col as int, ascending)(a as int, b as int),
        {
            assert(rows.deep_view()[a as int] == rows@[a as int].deep_view());
            assert(rows.deep_view()[b as int] == rows@[b as int].deep_view());
            let o = compare_cells(row_cell(&rows[a], col), keys[a], row_cell(&rows[b], col), keys[b]);
            if ascending {
                o == Order::Less
            } else {
                o == Order::Greater
            }
        };
    stable_order(n, before, Ghost(lt))
}

/// Copies the rows at the positions that `order` names.
pub fn arrange_rows(rows: &Vec<Vec<String>>, order: &Vec<usize>) -> (arranged: Vec<Vec<String>>)
    requires
        forall|k: int| 0 <= k < order.len() ==> #[trigger] order@[k] < rows.len(),
    ensures
        arranged_by(rows.deep_view(), arranged.deep_view(), order@),
{
    let mut dst: Vec<Vec<String>> = Vec::new();
    let mut k: usize = 0;
    while k < order.len()
        invariant
            k <= order.len(),
            forall|i: int| 0 <= i < order.len() ==> #[trigger] order@[i] < rows.len(),
            dst.deep_view().len() == k,
            forall|i: int|
                0 <= i < k ==> #[trigger] dst.deep_view()[i] == rows.deep_view()[order@[i] as int],
        decreases order.len() - k,
    {
        let row = clone_row(&rows[order[k]]);
        let ghost before = dst.deep_view();
        dst.push(row);
        proof {
            assert(dst.deep_view() =~= before.push(row.deep_view()));
        }
        k = k + 1;
    }
    dst
}

/// A copy of a row.
pub fn clone_row(row: &Vec<String>) -> (copy: Vec<String>)
    ensures
        copy.deep_view() == row.deep_view(),
{
    let mut copy: Vec<String> = Vec::new();
    let mut j: usize = 0;
    while j < row.len()
        invariant
            j <= row.len(),
            copy.deep_view() =~= row.deep_view().take(j as int),
        decreases row.len() - j,
    {
        let cell = row[j].clone();
        let ghost before = copy.deep_view();
        copy.push(cell);
        proof {
            assert(copy.deep_view() =~= before.push(cell@));
        }
        j = j + 1;
    }
    proof {
        assert(row.deep_view().take(j as int) =~= row.deep_view());
    }
    copy
}

} // verus!
