//! Exporting the table as comma-separated values.
use vstd::prelude::*;
use crate::text::{chars_of, push_char, push_text};

verus! {

/// A field must be quoted when it holds a comma, a double quote or a newline.
pub open spec fn needs_quotes(s: Seq<char>) -> bool {
    s.contains(',') || s.contains('"') || s.contains('\n')
}

/// `s` with each double quote written twice.
pub open spec fn double_quotes(s: Seq<char>) -> Seq<char>
    decreases s.len(),
{
    if s.len() == 0 {
        Seq::empty()
    } else {
        double_quotes(s.drop_last()) + if s.last() == '"' {
            seq!['"', '"']
        } else {
            seq![s.last()]
        }
    }
}

/// A cell as written to the file: in double quotes with inner quotes doubled
/// when it needs quotes, as it is otherwise.
pub open spec fn escape_field(s: Seq<char>) -> Seq<char> {
    if needs_quotes(s) {
        seq!['"'] + double_quotes(s) + seq!['"']
    } else {
        s
    }
}

/// The fields joined by commas.
pub open spec fn join_fields(fields: Seq<Seq<char>>) -> Seq<char>
    decreases fields.len(),
{
    if fields.len() == 0 {
        Seq::empty()
    } else if fields.len() == 1 {
        fields[0]
    } else {
        join_fields(fields.drop_last()) + seq![','] + fields.last()
    }
}

/// Each row as a line: its escaped cells joined by commas, then a newline.
pub open spec fn row_lines(rows: Seq<Seq<Seq<char>>>) -> Seq<char>
    decreases rows.len(),
{
    if rows.len() == 0 {
        Seq::empty()
    } else {
        row_lines(rows.drop_last()) + join_fields(rows.last().map_values(|c: Seq<char>| escape_field(c)))
            + seq!['\n']
    }
}

/// The whole file: the column names joined by commas (as they are), a
/// newline, then one line per row.
pub open spec fn csv_text(columns: Seq<Seq<char>>, rows: Seq<Seq<Seq<char>>>) -> Seq<char> {
    join_fields(columns) + seq!['\n'] + row_lines(rows)
}

/// Whether the text holds a comma, a double quote or a newline.
pub fn field_needs_quotes(s: &str) -> (b: bool)
    ensures
        b == needs_quotes(s@),
{
    let chars = chars_of(s);
    let mut k: usize = 0;
    while k < chars.len()
        invariant
            k <= chars.len(),
            chars@ == s@,
            forall|i: int| 0 <= i < k ==> #[trigger] chars@[i] != ',' && chars@[i] != '"' && chars@[i] != '\n',
        decreases chars.len() - k,
    {
        let c = chars[k];
        if c == ',' || c == '"' || c == '\n' {
            proof {
                assert(chars@[k as int] == c);
            }
            return true;
        }
        k = k + 1;
    }
    proof {
        if s@.contains(',') {
            let i = choose|i: int| 0 <= i < s@.len() && s@[i] == ',';
            assert(chars@[i] != ',');
        }
        if s@.contains('"') {
            let i = choose|i: int| 0 <= i < s@.len() && s@[i] == '"';
            assert(chars@[i] != '"');
        }
        if s@.contains('\n') {
            let i = choose|i: int| 0 <= i < s@.len() && s@[i] == '\n';
            assert(chars@[i] != '\n');
        }
    }
    false
}

/// Appends a cell as written to the file.
pub fn push_field(out: &mut String, s: &str)
    ensures
        final(out)@ == old(out)@ + escape_field(s@),
{
    if field_needs_quotes(s) {
        let chars = chars_of(s);
        push_char(out, '"');
        let ghost start = out@;
        let mut k: usize = 0;
        while k < chars.len()
            invariant
                k <= chars.len(),
                chars@ == s@,
                out@ == start + double_quotes(chars@.take(k as int)),
            decreases chars.len() - k,
        {
            let c = chars[k];
            push_char(out, c);
            if c == '"' {
                push_char(out, '"');
            }
            proof {
                assert(chars@.take(k + 1).drop_last() =~= chars@.take(k as int));
                assert(chars@.take(k + 1).last() == c);
            }
            k = k + 1;
        }
        push_char(out, '"');
        proof {
            assert(chars@.take(k as int) =~= s@);
            assert(out@ =~= old(out)@ + escape_field(s@));
        }
    } else {
        push_text(out, s);
    }
}

/// Appends the column names joined by commas, as they are.
pub fn push_joined(out: &mut String, fields: &Vec<String>)
    ensures
        final(out)@ == old(out)@ + join_fields(fields.deep_view()),
{
    let ghost start = out@;
    let mut k: usize = 0;
    while k < fields.len()
        invariant
            k <= fields.len(),
            out@ == start + join_fields(fields.deep_view().take(k as int)),
        decreases fields.len() - k,
    {
        if k > 0 {
            push_char(out, ',');
        }
        push_text(out, fields[k].as_str());
        proof {
            let s = fields.deep_view().take(k + 1);
            assert(s.drop_last() =~= fields.deep_view().take(k as int));
            assert(s.last() == fields[k as int]@);
            if k == 0 {
                assert(join_fields(fields.deep_view().take(0)) =~= Seq::<char>::empty());
            }
        }
        k = k + 1;
    }
    proof {
        assert(fields.deep_view().take(k as int) =~= fields.deep_view());
    }
}

/// Appends a row's cells, each as written to the file, joined by commas.
pub fn push_row(out: &mut String, row: &Vec<String>)
    ensures
        final(out)@ == old(out)@ + join_fields(
            row.deep_view().map_values(|c: Seq<char>| escape_field(c)),
        ),
{
    let ghost start = out@;
    let ghost escaped = row.deep_view().map_values(|c: Seq<char>| escape_field(c));
    let mut k: usize = 0;
    while k < row.len()
        invariant
            k <= row.len(),
            escaped == row.deep_view().map_values(|c: Seq<char>| escape_field(c)),
            out@ == start + join_fields(escaped.take(k as int)),
        decreases row.len() - k,
    {
        if k > 0 {
            push_char(out, ',');
        }
        push_field(out, row[k].as_str());
        proof {
            let s = escaped.take(k + 1);
            assert(s.drop_last() =~= escaped.take(k as int));
            assert(s.last() == escape_field(row[k as int]@));
            if k == 0 {
                assert(join_fields(escaped.take(0)) =~= Seq::<char>::empty());
            }
        }
        k = k + 1;
    }
    proof {
        assert(escaped.take(k as int) =~= escaped);
    }
}

/// The table as comma-separated values: a header line of the column names,
/// then one line per row with each cell quoted where it needs quotes.
pub fn to_csv(columns: &Vec<String>, rows: &Vec<Vec<String>>) -> (out: String)
    ensures
        out@ == csv_text(columns.deep_view(), rows.deep_view()),
{
    let mut out = String::new();
    push_joined(&mut out, columns);
    push_char(&mut out, '\n');
    let ghost head = out@;
    let mut i: usize = 0;
    while i < rows.len()
        invariant
            i <= rows.len(),
            out@ == head + row_lines(rows.deep_view().take(i as int)),
        decreases rows.len() - i,
    {
        push_row(&mut out, &rows[i]);
        push_char(&mut out, '\n');
        proof {
            let s = rows.deep_view().take(i + 1);
            assert(s.drop_last() =~= rows.deep_view().take(i as int));
            assert(s.last() == rows[i as int].deep_view());
            if i == 0 {
                assert(row_lines(rows.deep_view().take(0)) =~= Seq::<char>::empty());
            }
        }
        i = i + 1;
    }
    proof {
        assert(rows.deep_view().take(i as int) =~= rows.deep_view());
        assert(out@ =~= csv_text(columns.deep_view(), rows.deep_view()));
    }
    out
}

} // verus!
