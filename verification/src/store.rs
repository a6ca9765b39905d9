use vstd::prelude::*;
use vstd::string::StringExecFns;
use crate::codec::CsvRecord;
use crate::entities::{User, UserV};
use crate::num::{lemma_digits_free_of_delims, lemma_u32_dec_digits, u32_dec};
use crate::errors::SettleError;
use crate::text::{join_str, join_with, lemma_split_join, lemma_split_nonempty, sep_free, split_on, split_str};

verus! {

/// The views of the rows of a table.
pub open spec fn views_of<T: View>(rows: Seq<T>) -> Seq<T::V> {
    Seq::new(rows.len(), |i: int| rows[i]@)
}

/// The line that encodes one row: its fields with the delimiter between
/// each two.
pub open spec fn spec_encode_line<T: CsvRecord>(m: T::V) -> Seq<char> {
    join_with(T::fields_of(m), ',')
}

/// The text that encodes a table: each row's line followed by a line break.
pub open spec fn spec_encode_table<T: CsvRecord>(rows: Seq<T::V>) -> Seq<char>
    decreases rows.len(),
{
    if rows.len() == 0 {
        Seq::<char>::empty()
    } else {
        spec_encode_line::<T>(rows[0]) + seq!['\n'] + spec_encode_table::<T>(rows.drop_first())
    }
}

/// The lines of a table text: a final line break closes the last line
/// rather than opening an empty one.
pub open spec fn table_lines(text: Seq<char>) -> Seq<Seq<char>> {
    let segs = split_on(text, '\n');
    if segs.last() == Seq::<char>::empty() {
        segs.drop_last()
    } else {
        segs
    }
}

/// Whether every line splits into the entity kind's field count.
pub open spec fn lines_well_formed<T: CsvRecord>(lines: Seq<Seq<char>>) -> bool {
    forall|i: int| 0 <= i < lines.len() ==> split_on(#[trigger] lines[i], ',').len() == T::arity()
}

/// The rows that a table text decodes to: each line split at the delimiter
/// and read as one row.  No row is given where some line has the wrong
/// field count.
pub open spec fn spec_decode_table<T: CsvRecord>(text: Seq<char>) -> Option<Seq<T::V>> {
    let lines = table_lines(text);
    if lines_well_formed::<T>(lines) {
        Some(Seq::new(lines.len(), |i: int| T::of_fields(split_on(lines[i], ','))))
    } else {
        None
    }
}

/// Writes a full table as delimited text, one row per line.
pub fn encode_table<T: CsvRecord>(rows: &Vec<T>) -> (r: String)
    ensures
        r@ == spec_encode_table::<T>(views_of(rows@)),
{
    let r = encode_from(rows, 0);
    assert(views_of(rows@).skip(0) =~= views_of(rows@));
    r
}

/// Writes the rows from position `idx` on.
fn encode_from<T: CsvRecord>(rows: &Vec<T>, idx: usize) -> (r: String)
    requires
        idx <= rows@.len(),
    ensures
        r@ == spec_encode_table::<T>(views_of(rows@).skip(idx as int)),
    decreases rows@.len() - idx,
{
    if idx == rows.len() {
        assert(views_of(rows@).skip(idx as int) =~= Seq::<T::V>::empty());
        String::new()
    } else {
        let fields = rows[idx].to_fields();
        proof {
            reveal_strlit(",");
            assert(","@ =~= seq![',']);
            reveal_strlit("\n");
            assert("\n"@ =~= seq!['\n']);
        }
        let mut line = join_str(&fields, ",", ',');
        line.append("\n");
        let rest = encode_from(rows, idx + 1);
        line.append(rest.as_str());
        proof {
            let vs = views_of(rows@);
            assert(vs.skip(idx as int)[0] == rows@[idx as int]@);
            assert(vs.skip(idx as int).drop_first() =~= vs.skip(idx + 1));
        }
        line
    }
}

/// Reads a full table back from delimited text.  Fails exactly where some
/// line does not hold the entity kind's field count.
pub fn decode_table<T: CsvRecord>(text: &str) -> (r: Result<Vec<T>, SettleError>)
    ensures
        r matches Ok(v) ==> spec_decode_table::<T>(text@) == Some(views_of(v@)),
        r matches Err(e) ==> e == SettleError::MalformedRecord && spec_decode_table::<T>(text@)
            is None,
{
    let mut segs = split_str(text, '\n');
    proof {
        lemma_split_nonempty(text@, '\n');
    }
    let last_empty = segs[segs.len() - 1].as_str().is_empty();
    proof {
        let sv = split_on(text@, '\n');
        if last_empty {
            assert(sv.last() =~= Seq::<char>::empty());
        }
    }
    if last_empty {
        segs.pop();
    }
    let ghost lines = table_lines(text@);
    proof {
        assert(segs.deep_view() =~~= lines);
    }
    let n = segs.len();
    let mut out: Vec<T> = Vec::new();
    for i in 0..n
        invariant
            n == segs@.len(),
            segs.deep_view() =~~= lines,
            lines == table_lines(text@),
            out@.len() == i,
            forall|j: int| 0 <= j < i ==> split_on(#[trigger] lines[j], ',').len() == T::arity(),
            forall|j: int| 0 <= j < i ==> #[trigger] out@[j]@ == T::of_fields(
                split_on(lines[j], ','),
            ),
    {
        let fields = split_str(segs[i].as_str(), ',');
        assert(fields.deep_view() == split_on(lines[i as int], ','));
        match T::from_fields(&fields) {
            Ok(v) => {
                out.push(v);
            },
            Err(e) => {
                proof {
                    assert(split_on(lines[i as int], ',').len() != T::arity());
                    assert(!lines_well_formed::<T>(lines));
                    assert(spec_decode_table::<T>(text@) is None);
                }
                return Err(e);
            },
        }
    }
    proof {
        assert(lines_well_formed::<T>(lines));
        assert(views_of(out@) =~= Seq::new(
            lines.len(),
            |i: int| T::of_fields(split_on(lines[i], ',')),
        ));
    }
    Ok(out)
}

/// Whether every field that encodes this row is free of the delimiter and
/// of line breaks.
pub open spec fn row_delim_free<T: CsvRecord>(m: T::V) -> bool {
    forall|j: int| 0 <= j < T::fields_of(m).len() ==> sep_free(#[trigger] T::fields_of(m)[j], ',')
        && sep_free(T::fields_of(m)[j], '\n')
}

/// A joined line is free of a character that none of its pieces holds and
/// that is not the separator.
proof fn lemma_join_free(fields: Seq<Seq<char>>, sep: char, other: char)
    requires
        sep != other,
        forall|i: int| 0 <= i < fields.len() ==> sep_free(#[trigger] fields[i], other),
    ensures
        sep_free(join_with(fields, sep), other),
    decreases fields.len(),
{
    if fields.len() > 1 {
        assert(forall|i: int| 0 <= i < fields.drop_first().len() ==> sep_free(
            #[trigger] fields.drop_first()[i],
            other,
        ));
        lemma_join_free(fields.drop_first(), sep, other);
        assert forall|k: int| 0 <= k < join_with(fields, sep).len() implies #[trigger] join_with(
            fields,
            sep,
        )[k] != other by {
            let s = join_with(fields, sep);
            let f = fields[0];
            if k < f.len() {
                assert(s[k] == f[k]);
            } else if k == f.len() {
                assert(s[k] == sep);
            } else {
                assert(s[k] == join_with(fields.drop_first(), sep)[k - f.len() - 1]);
            }
        }
    }
}

/// The table text is the lines joined by line breaks, with one further
/// empty piece for the closing line break.
proof fn lemma_encode_as_join<T: CsvRecord>(rows: Seq<T::V>)
    ensures
        spec_encode_table::<T>(rows) == join_with(
            Seq::new(rows.len(), |i: int| spec_encode_line::<T>(rows[i])).push(
                Seq::<char>::empty(),
            ),
            '\n',
        ),
    decreases rows.len(),
{
    let lines = Seq::new(rows.len(), |i: int| spec_encode_line::<T>(rows[i])).push(
        Seq::<char>::empty(),
    );
    if rows.len() == 0 {
        assert(lines.len() == 1);
        assert(join_with(lines, '\n') == lines[0]);
        assert(spec_encode_table::<T>(rows) =~= lines[0]);
    } else {
        lemma_encode_as_join::<T>(rows.drop_first());
        let sublines = Seq::new(
            rows.drop_first().len(),
            |i: int| spec_encode_line::<T>(rows.drop_first()[i]),
        ).push(Seq::<char>::empty());
        assert(lines.drop_first() =~= sublines);
        assert(lines[0] == spec_encode_line::<T>(rows[0]));
        assert(join_with(lines, '\n') == lines[0] + seq!['\n'] + join_with(sublines, '\n'));
    }
}

/// Decoding a table undoes encoding it, wherever no field of any row holds
/// the delimiter or a line break.
pub proof fn lemma_store_round_trip<T: CsvRecord>(rows: Seq<T::V>)
    requires
        forall|i: int| 0 <= i < rows.len() ==> row_delim_free::<T>(#[trigger] rows[i]),
    ensures
        spec_decode_table::<T>(spec_encode_table::<T>(rows)) == Some(rows),
{
    let lines = Seq::new(rows.len(), |i: int| spec_encode_line::<T>(rows[i]));
    let pieces = lines.push(Seq::<char>::empty());
    lemma_encode_as_join::<T>(rows);
    assert forall|i: int| 0 <= i < pieces.len() implies sep_free(#[trigger] pieces[i], '\n') by {
        if i < lines.len() {
            T::lemma_arity(rows[i]);
            lemma_join_free(T::fields_of(rows[i]), ',', '\n');
        }
    }
    lemma_split_join(pieces, '\n');
    let text = spec_encode_table::<T>(rows);
    assert(split_on(text, '\n') == pieces);
    assert(pieces.last() == Seq::<char>::empty());
    assert(pieces.drop_last() =~= lines);
    assert(table_lines(text) == lines);
    assert forall|i: int| 0 <= i < lines.len() implies split_on(#[trigger] lines[i], ',')
        == T::fields_of(rows[i]) by {
        T::lemma_arity(rows[i]);
        lemma_split_join(T::fields_of(rows[i]), ',');
    }
    assert forall|i: int| 0 <= i < lines.len() implies split_on(#[trigger] lines[i], ',').len()
        == T::arity() by {
        T::lemma_arity(rows[i]);
    }
    assert forall|i: int| 0 <= i < lines.len() implies T::of_fields(
        split_on(#[trigger] lines[i], ','),
    ) == rows[i] by {
        T::lemma_round_trip(rows[i]);
    }
    assert(Seq::new(lines.len(), |i: int| T::of_fields(split_on(lines[i], ','))) =~= rows);
}

/// The round trip on a whole user table: the text fields must be free of
/// the delimiter and of line breaks; the points field, a canonical
/// numeral, is so by itself.
pub proof fn lemma_user_table_round_trip(rows: Seq<UserV>)
    requires
        forall|i: int|
            0 <= i < rows.len() ==> sep_free(#[trigger] rows[i].nick, ',') && sep_free(
                rows[i].nick,
                '\n',
            ) && sep_free(rows[i].time_zone, ',') && sep_free(rows[i].time_zone, '\n')
                && sep_free(rows[i].notifications, ',') && sep_free(rows[i].notifications, '\n'),
    ensures
        spec_decode_table::<User>(spec_encode_table::<User>(rows)) == Some(rows),
{
    assert forall|i: int| 0 <= i < rows.len() implies row_delim_free::<User>(
        #[trigger] rows[i],
    ) by {
        let fields = User::fields_of(rows[i]);
        lemma_u32_dec_digits(rows[i].points as int);
        lemma_digits_free_of_delims(u32_dec(rows[i].points as int));
        assert forall|j: int| 0 <= j < fields.len() implies sep_free(#[trigger] fields[j], ',')
            && sep_free(fields[j], '\n') by {
            assert(fields[2] == u32_dec(rows[i].points as int));
        }
    }
    lemma_store_round_trip::<User>(rows);
}

} // verus!
